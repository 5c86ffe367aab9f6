# archietect

An architectural memory engine: it reads the declarations of a codebase and
answers whether a concept exists, which implementation is canonical, on what
evidence, and what the smallest correct change is. It never answers from
resemblance alone and says what it did not look at.

- `src/` is the library, verified with Verus. It holds no I/O: texts of files,
  rows of the timeline, listings of directories and the answers of people come
  in as plain values.
- `tests/` runs the library.
- `app/` is the program round it: the command line, the two servers, the
  database and the file system.

Where to start in `src/`:

| subject | modules |
| --- | --- |
| texts, tables, trees, sorting | `text`, `numbers`, `table`, `tree`, `order`, `paths`, `written` |
| what other crates give | `outside` |
| the index | `model`, `extract`, `scan`, `rescan`, `incremental`, `determinism`, `scan_laws`, `invariants` |
| questions | `query`, `chains`, `scoring`, `advice`, `ownership`, `guard`, `survey`, `glance`, `structural` |
| what may be looked at | `permissions`, `register` |
| other domains | `resource`, `listing`, `git_domain`, `docker_domain`, `documents_domain`, `photos_domain`, `messages_domain` |
| changes | `patch`, `mutation`, `mutation_policy`, `proposal`, `seed` |
| time | `store`, `laws` |
| ways in and out | `root`, `rest`, `mcp`, `request`, `protocol`, `shape`, `shown`, `answers`, `reports` |

Properties of the library as a whole are the public proof functions whose names
begin with `law_`.
