//! Decisions seeded from a README.

use archietect::model::Decision;
use archietect::scan::load_settings;
use archietect::seed::{extract_candidates, seed, slugify, Seeding};

#[test]
fn extracts_bullets_only_under_rule_shaped_headings() {
    let readme = "\
# My Project

Some prose about what this does.

## Architecture

- This is prose about architecture, not a rule.

## Constraints

- Never call the payment API from a background job.
- All migrations must be reversible.

## Conventions
- PRs require one approval.
";
    let cands = extract_candidates(readme);
    let texts: Vec<&str> = cands.iter().map(|c| c.decision.as_str()).collect();
    assert!(texts.contains(&"Never call the payment API from a background job."));
    assert!(texts.contains(&"All migrations must be reversible."));
    assert!(texts.contains(&"PRs require one approval."));
    assert!(!texts.iter().any(|t| t.contains("prose about architecture")), "{texts:?}");
    assert_eq!(cands.len(), 3);
}

#[test]
fn ids_are_stable_and_scoped_to_their_heading() {
    let readme = "## Constraints\n- First rule.\n- Second rule.\n";
    let cands = extract_candidates(readme);
    assert_eq!(cands[0].id, "constraints-1");
    assert_eq!(cands[1].id, "constraints-2");
}

#[test]
fn because_names_the_real_source_section() {
    let readme = "## Rules\n- Do the thing.\n";
    let cands = extract_candidates(readme);
    assert!(cands[0].because.contains("README.md"));
    assert!(cands[0].because.contains("'Rules'"));
}

#[test]
fn no_readme_is_unavailable_not_an_empty_result() {
    assert!(matches!(seed(None, &vec![], false, None, false), Seeding::NoReadme));
}

#[test]
fn dry_run_finds_candidates_but_writes_nothing() {
    let out = seed(Some("## Constraints\n- Never do X.\n"), &vec![], false, None, false);
    match out {
        Seeding::Found(list, addition) => {
            assert_eq!(list.len(), 1);
            assert_eq!(addition, None, "dry run must write nothing");
        }
        other => panic!("{other:?}"),
    }
}

/// What seeding adds to the file.
fn addition(readme: &str, decisions: &Vec<Decision>, by: Option<&str>, has_file: bool) -> (usize, String) {
    match seed(Some(readme), decisions, true, by, has_file) {
        Seeding::Found(list, Some(text)) => (list.len(), text),
        other => panic!("{other:?}"),
    }
}

#[test]
fn write_appends_and_second_run_is_idempotent() {
    let readme = "## Constraints\n- Never do X.\n- Always do Y.\n";
    let (found, text) = addition(readme, &vec![], None, false);
    assert_eq!(found, 2);
    assert!(text.contains("Never do X."));
    assert!(text.contains("Always do Y."));

    let settings = load_settings(Some(&text));
    assert_eq!(
        settings.decisions.len(),
        2,
        "the two seeded decisions must round-trip through the real TOML parser"
    );
    assert!(matches!(
        seed(Some(readme), &settings.decisions, true, None, true),
        Seeding::NothingNew
    ));
}

#[test]
fn write_preserves_existing_file_content() {
    let existing = "# A human's own comment, must survive.\nexclude = [\"target\"]\n";
    let (_, text) = addition("## Constraints\n- New rule here.\n", &vec![], None, true);
    let whole = format!("{existing}{text}");
    let settings = load_settings(Some(&whole));
    assert_eq!(settings.excludes, ["target"]);
    assert_eq!(settings.decisions.len(), 1);
    assert_eq!(settings.decisions[0].decision, "New rule here.");
}

#[test]
fn proposed_by_is_written_and_round_trips_through_the_real_toml_parser() {
    let (_, text) =
        addition("## Constraints\n- Attributed rule.\n", &vec![], Some("agent-5"), false);
    assert!(text.contains("proposed_by = \"agent-5\""), "{text}");
    let settings = load_settings(Some(&text));
    let d = settings
        .decisions
        .iter()
        .find(|d| d.decision == "Attributed rule.")
        .expect("seeded decision must round-trip");
    assert_eq!(d.proposed_by, "agent-5");
}

#[test]
fn no_proposed_by_omits_the_field_entirely_rather_than_writing_an_empty_one() {
    let (_, text) = addition("## Constraints\n- Unattributed rule.\n", &vec![], None, false);
    assert!(!text.contains("proposed_by"), "{text}");
    let settings = load_settings(Some(&text));
    let d = settings
        .decisions
        .iter()
        .find(|d| d.decision == "Unattributed rule.")
        .expect("seeded decision must round-trip");
    assert_eq!(d.proposed_by, "", "absent field must parse as empty, not a guessed value");
}

#[test]
fn quotes_in_a_rule_survive_the_file() {
    let (_, text) = addition("## Rules\n- Say \"no\" to \\ and\ttabs.\n", &vec![], None, false);
    let settings = load_settings(Some(&text));
    assert_eq!(settings.decisions[0].decision, "Say \"no\" to \\ and\ttabs.");
}

#[test]
fn slugs_are_their_own() {
    for (heading, slug) in
        [("Our  Rules & Co.", "our-rules-co"), ("--x--", "x"), ("???", "section"), ("", "section"), ("Ünï 2", "n-2")]
    {
        assert_eq!(slugify(heading), slug);
        assert_eq!(slugify(slug), slug);
    }
}
