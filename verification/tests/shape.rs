//! Shaping results, and finding the root of a project.

use archietect::root::{resolve, scope_warning, Explicit, Level};
use archietect::shape::{apply, parse_only};
use archietect::tree::Tree;

fn number(n: &str) -> Tree {
    Tree::Number(n.to_string())
}

fn text(s: &str) -> Tree {
    Tree::Text(s.to_string())
}

fn table(entries: Vec<(&str, Tree)>) -> Tree {
    Tree::Table(entries.into_iter().map(|(k, v)| (k.to_string(), v)).collect())
}

fn names(list: &[&str]) -> Vec<String> {
    list.iter().map(|s| s.to_string()).collect()
}

#[test]
fn only_keeps_requested_top_level_keys_in_requested_order() {
    let v = table(vec![("a", number("1")), ("b", number("2")), ("c", number("3"))]);
    let out = apply(v, Some(&names(&["c", "a"])), false);
    assert_eq!(out, table(vec![("c", number("3")), ("a", number("1"))]));
}

#[test]
fn only_ignores_missing_keys_rather_than_erroring() {
    let v = table(vec![("a", number("1"))]);
    let out = apply(v, Some(&names(&["a", "zzz"])), false);
    assert_eq!(out, table(vec![("a", number("1"))]));
}

#[test]
fn empty_only_is_a_no_op() {
    let v = table(vec![("a", number("1")), ("note", text("x"))]);
    assert_eq!(apply(v.copy(), Some(&names(&[])), false), v);
    assert_eq!(apply(v.copy(), None, false), v);
}

#[test]
fn compact_strips_prose_recursively_but_keeps_evidence() {
    let v = table(vec![
        ("note", text("top-level prose")),
        ("verdict", text("STRUCTURAL")),
        (
            "evidence",
            Tree::List(vec![table(vec![
                ("tier", text("Declared")),
                ("what", text("Class declared in a.ts:1")),
                ("note", text("inner prose")),
            ])]),
        ),
        (
            "git",
            table(vec![
                ("enabled", Tree::Flag(true)),
                ("note", text("nested prose")),
                ("resources", Tree::List(vec![])),
            ]),
        ),
        ("evidence_note", text("more prose")),
    ]);
    let out = apply(v, None, true);
    assert_eq!(
        out,
        table(vec![
            ("verdict", text("STRUCTURAL")),
            (
                "evidence",
                Tree::List(vec![table(vec![
                    ("tier", text("Declared")),
                    ("what", text("Class declared in a.ts:1")),
                ])]),
            ),
            (
                "git",
                table(vec![("enabled", Tree::Flag(true)), ("resources", Tree::List(vec![]))]),
            ),
        ])
    );
}

#[test]
fn only_then_compact_compose() {
    let v = table(vec![
        ("git", table(vec![("enabled", Tree::Flag(true)), ("note", text("p"))])),
        ("docker", table(vec![("note", text("q"))])),
        ("note", text("r")),
    ]);
    let out = apply(v, Some(&names(&["git"])), true);
    assert_eq!(out, table(vec![("git", table(vec![("enabled", Tree::Flag(true))]))]));
}

#[test]
fn parse_only_handles_whitespace_and_empties() {
    assert_eq!(parse_only(None), None);
    assert_eq!(parse_only(Some("")), None);
    assert_eq!(parse_only(Some(" , ,")), None);
    assert_eq!(
        parse_only(Some(" git , docker ")),
        Some(vec!["git".to_string(), "docker".to_string()])
    );
}

#[test]
fn compacting_twice_is_compacting_once() {
    let v = table(vec![
        ("note", text("p")),
        ("inner", Tree::List(vec![table(vec![("note", text("q")), ("x", Tree::Nothing)])])),
    ]);
    let once = apply(v, None, true);
    assert_eq!(apply(once.copy(), None, true), once);
}

// --- roots ---

fn level(dir: &str, entries: &[&str]) -> Level {
    Level { dir: dir.to_string(), entries: names(entries) }
}

#[test]
fn strong_marker_beats_weak_at_any_distance() {
    // strong at the true root, weak nearer
    let levels = vec![
        level("/r/crates/titan_api/src", &[]),
        level("/r/crates/titan_api", &["Cargo.toml"]),
        level("/r/crates", &[]),
        level("/r", &[".git"]),
    ];
    let resolved = resolve(None, &levels, "/r/crates/titan_api/src").unwrap();
    assert_eq!(
        resolved, "/r",
        "weak marker in a subdirectory must not win over a strong marker above it"
    );
}

#[test]
fn explicit_root_always_wins() {
    let given = Explicit {
        shown: "/given".to_string(),
        exists: true,
        canonical: Some("/given".to_string()),
    };
    let resolved = resolve(Some(&given), &vec![level("/tmp", &[".git"])], "/tmp").unwrap();
    assert_eq!(resolved, "/given");
}

#[test]
fn an_explicit_root_has_to_exist() {
    let given = Explicit { shown: "/nowhere".to_string(), exists: false, canonical: None };
    assert!(resolve(Some(&given), &vec![], "/tmp").unwrap_err().contains("/nowhere"));
}

#[test]
fn the_nearest_weak_marker_serves_without_a_strong_one() {
    let levels = vec![level("/a/b", &[]), level("/a", &["package.json"]), level("/", &["package.json"])];
    assert_eq!(resolve(None, &levels, "/a/b").unwrap(), "/a");
    assert_eq!(resolve(None, &vec![level("/a", &["x"])], "/a").unwrap(), "/a");
}

#[test]
fn warns_on_a_directory_of_several_independent_repos() {
    let warning = scope_warning("/r", false, &names(&["project-a", "project-b", "project-c"]))
        .expect("3 nested repos must trigger the warning");
    assert!(warning.contains("3 separate projects"), "{warning}");
    assert!(warning.contains("project-a"), "{warning}");
    assert!(warning.contains("project-b"), "{warning}");
    assert!(warning.contains("project-c"), "{warning}");
}

#[test]
fn stays_silent_on_a_real_single_project_root() {
    assert!(
        scope_warning("/r", true, &names(&["a", "b", "c", "d"])).is_none(),
        "a root with its own .git must never warn, regardless of what's under it"
    );
}

#[test]
fn stays_silent_below_the_threshold() {
    assert!(
        scope_warning("/r", false, &names(&["project-a", "project-b"])).is_none(),
        "2 nested repos is a normal monorepo-adjacent layout"
    );
}

#[test]
fn long_names_are_capped_but_the_real_count_is_stated() {
    let nested: Vec<String> = (0..8).map(|i| format!("project-{i}")).collect();
    let warning = scope_warning("/r", false, &nested).expect("8 nested repos must trigger the warning");
    assert!(warning.contains("8 separate projects"), "{warning}");
    assert!(warning.contains("+3 more"), "{warning}");
}

#[test]
fn shaping_twice_is_shaping_once() {
    let text = |s: &str| Tree::Text(s.to_string());
    let v = || {
        Tree::Table(vec![
            ("a".to_string(), Tree::Table(vec![("note".to_string(), text("x")), ("b".to_string(), text("y"))])),
            ("note".to_string(), text("z")),
            ("c".to_string(), text("w")),
        ])
    };
    let keys = vec!["c".to_string(), "note".to_string(), "a".to_string(), "c".to_string(), "gone".to_string()];
    for only in [None, Some(&keys)] {
        for compact in [false, true] {
            let once = apply(v(), only, compact);
            assert_eq!(apply(apply(v(), only, compact), only, compact), once);
        }
    }
    assert_eq!(
        apply(v(), Some(&keys), true),
        Tree::Table(vec![
            ("c".to_string(), text("w")),
            ("a".to_string(), Tree::Table(vec![("b".to_string(), text("y"))])),
        ])
    );
}

#[test]
fn keys_are_read_again() {
    let keys = parse_only(Some(" git, ,status ,a b,")).unwrap();
    assert_eq!(keys, ["git", "status", "a b"]);
    assert_eq!(parse_only(Some(&keys.join(","))), Some(keys));
    assert_eq!(parse_only(Some(" , ,\t")), None);
}
