//! What patches change, and proposals.

use archietect::invariants::Violation;
use archietect::model::{Decision, Index};
use archietect::mutation::{
    compare, dependents, documentation, doubts_about, evaluate, judge, objects, protected, targets_among,
    test_source, Breach, MutationKind, Observation, SeenSymbol, Snapshot,
};
use archietect::patch::FileChange;
use archietect::proposal::{
    accept, acceptance_note, advance, check_acceptance, check_scope, filed_among, next_id, reject, submit, tail_chars,
    tested, touched_files, Happening, Kind, Status, Step,
};
use archietect::resource::{Identity, Relationship};
use archietect::structural::{Import, StructuralGraph};
use archietect::table::TextMap;

fn names(list: &[&str]) -> Vec<String> {
    list.iter().map(|s| s.to_string()).collect()
}

fn nothing() -> Snapshot {
    Snapshot { symbols: vec![], imports: vec![], routes: vec![], uncertainty: vec![] }
}

fn change(path: &str, before: &str, after: &str) -> FileChange {
    FileChange {
        before_path: Some(path.to_string()),
        after_path: Some(path.to_string()),
        before: before.to_string(),
        after: after.to_string(),
    }
}

fn observed(path: &str, before: &str, after: &str) -> Observation {
    Observation { change: change(path, before, after), before: nothing(), after: nothing() }
}

fn strict() -> Index {
    let mut idx = Index::default();
    idx.decision_required_paths = names(&["."]);
    idx
}

const WIDGET: &str = "model Widget {\n  id Int\n}\n";
const WIDER: &str = "model Widget {\n  id Int\n  name String\n}\n";
const DECIDED: &str = "[[decision]]\nid = 'd1'\ndecision = 'x'\nbecause = 'y'\nlinks = ['Widget']\n";

#[test]
fn objects_are_added_removed_and_modified() {
    let g = StructuralGraph::default();
    let of = |b: &str, a: &str| compare(&change("s.prisma", b, a), &nothing(), &nothing(), &g);
    let added = of("", WIDGET);
    assert_eq!(added.len(), 1);
    assert_eq!(added[0].kind, MutationKind::Added);
    assert_eq!(added[0].resource, "Widget");
    assert_eq!(added[0].object, "concept");
    assert_eq!(of(WIDGET, "")[0].kind, MutationKind::Removed);
    assert_eq!(of(WIDGET, WIDER)[0].kind, MutationKind::Modified);
    assert!(of(WIDGET, WIDGET).is_empty());
}

#[test]
fn relationships_are_added_and_removed() {
    let g = StructuralGraph::default();
    let with = Snapshot {
        imports: vec![Import {
            from_file: "a.ts".to_string(),
            to_module: "./b".to_string(),
            names: names(&["x"]),
            resolved: None,
        }],
        ..nothing()
    };
    let found = compare(&change("a.ts", "//", "import {x} from './b'"), &nothing(), &with, &g);
    assert_eq!(found.len(), 1);
    assert_eq!(found[0].kind, MutationKind::RelationshipAdded);
    assert_eq!(found[0].kind.label(), "relationship_added");
    assert_eq!(found[0].object, "relationship");
    let found = compare(&change("a.ts", "import {x} from './b'", "//"), &with, &nothing(), &g);
    assert_eq!(found[0].kind, MutationKind::RelationshipRemoved);
}

#[test]
fn a_relationship_is_known_by_what_it_names_as_json() {
    let with = Snapshot {
        imports: vec![Import {
            from_file: "a.ts".to_string(),
            to_module: "./\"b\"\\\u{1}\n\u{7f}é".to_string(),
            names: names(&["x", "y"]),
            resolved: None,
        }],
        ..nothing()
    };
    let found = objects("a.ts", "import './b'", &with);
    assert_eq!(found.len(), 1);
    let key = "relationship::{\"module\":\"./\\\"b\\\"\\\\\\u0001\\n\u{7f}é\",\"names\":[\"x\",\"y\"]}";
    assert!(found.get(key).is_some());
}

#[test]
fn doubt_is_a_change_of_unknown_kind() {
    let twice = SeenSymbol {
        name: "f".to_string(),
        kind: "Function".to_string(),
        source: None,
        observation_source: "parser".to_string(),
    };
    let snap = Snapshot { symbols: vec![twice.copy(), twice], ..nothing() };
    let doubts = doubts_about("a.rs", "fn f() {}\nfn f() {}\n", &snap, &names(&["f", "f"]));
    assert_eq!(
        doubts,
        ["Duplicate symbol identity 'f' in a.rs", "Duplicate declaration identity 'f' in a.rs"]
    );
    let found = compare(
        &change("a.rs", "", "fn f() {}\nfn f() {}\n"),
        &nothing(),
        &snap,
        &StructuralGraph::default(),
    );
    assert!(found.iter().any(|m| m.kind == MutationKind::Unknown));
}

#[test]
fn a_change_needs_its_decision() {
    let g = StructuralGraph::default();
    let e = evaluate(&strict(), &g, Ok(vec![observed("s.prisma", WIDGET, WIDER)]));
    assert_eq!(e.mutations.len(), 1);
    assert!(e.mutations[0].decision_required);
    assert_eq!(e.violations.len(), 1);
    assert!(matches!(e.violations[0], Breach::Undecided(0)));

    let e = evaluate(
        &strict(),
        &g,
        Ok(vec![observed("s.prisma", WIDGET, WIDER), observed("archietect.toml", "", DECIDED)]),
    );
    assert!(e.violations.is_empty(), "{:?}", e.violations);
    let m = e.mutations.iter().find(|m| m.resource == "Widget").unwrap();
    assert_eq!(m.supplied_decisions, ["d1"]);

    let e = evaluate(
        &strict(),
        &g,
        Ok(vec![observed("s.prisma", WIDGET, WIDER), observed("archietect.toml", "", "[[decision")]),
    );
    assert!(e.violations.iter().any(|b| matches!(b, Breach::InvalidUpdate(_))));
}

#[test]
fn a_project_that_asks_for_nothing_is_never_stopped() {
    let g = StructuralGraph::default();
    let e = evaluate(&Index::default(), &g, Ok(vec![observed("s.prisma", WIDGET, WIDER)]));
    assert_eq!(e.mutations.len(), 1);
    assert!(e.violations.is_empty());
    let e = evaluate(&Index::default(), &g, Err("bad patch".to_string()));
    assert!(e.unknown);
    assert!(e.violations.is_empty());
}

#[test]
fn an_unreadable_patch_is_stopped() {
    let e = evaluate(&strict(), &StructuralGraph::default(), Err("bad patch".to_string()));
    assert!(e.unknown);
    assert_eq!(e.mutations[0].kind, MutationKind::Unknown);
    assert!(matches!(e.violations[0], Breach::Unreadable));
}

#[test]
fn decisions_that_govern_are_named() {
    let mut idx = strict();
    idx.decisions.push(Decision {
        id: "old".to_string(),
        decision: "x".to_string(),
        because: "y".to_string(),
        rejected: vec![],
        links: names(&["Widget"]),
        proposed_by: String::new(),
    });
    let e = evaluate(&idx, &StructuralGraph::default(), Ok(vec![observed("s.prisma", WIDGET, WIDER)]));
    assert_eq!(e.mutations[0].governing_decisions, ["old"]);
    assert_eq!(targets_among(&e.mutations), ["Widget"]);
    let e = judge(
        &idx,
        e.mutations,
        Ok(TextMap::new().with("Widget".to_string(), names(&["new"]))),
    );
    assert!(e.violations.is_empty());
}

#[test]
fn paths_that_need_no_decision() {
    assert!(documentation("docs/a.md"));
    assert!(!documentation("a.rs"));
    assert!(test_source("tests/a.rs"));
    assert!(test_source("src/a.spec.ts"));
    assert!(!test_source("src/contest.rs"));
    let mut idx = strict();
    idx.excludes = names(&["vendor/"]);
    assert!(protected(&idx, "src/a.rs"));
    assert!(!protected(&idx, "vendor/a.rs"));
    idx.decision_required_paths = names(&["core"]);
    assert!(!protected(&idx, "src/a.rs"));
}

#[test]
fn files_that_depend_on_a_file() {
    let edge = |from: &str, to: &str| Import {
        from_file: from.to_string(),
        to_module: to.to_string(),
        names: vec![],
        resolved: Some(Relationship {
            from: Identity(from.to_string()),
            kind: "imports".to_string(),
            to: Identity(to.to_string()),
            evidence: archietect::model::Evidence {
                tier: archietect::model::Tier::Declared,
                what: String::new(),
            },
        }),
    };
    let mut g = StructuralGraph::default();
    g.imports = vec![edge("b", "a"), edge("c", "b"), edge("d", "x"), edge("a", "c")];
    assert_eq!(dependents(&g, "a"), ["b", "c"]);
    assert!(dependents(&g, "nobody").is_empty());
}

// --- proposals ---

fn patch_of(path: &str) -> String {
    format!("diff --git a/{path} b/{path}\n--- a/{path}\n+++ b/{path}\n@@ -1 +1 @@\n-a\n+b\n")
}

#[test]
fn the_files_of_a_patch() {
    assert_eq!(touched_files(&patch_of("src/x.rs")), ["src/x.rs"]);
    assert_eq!(touched_files("diff --git a/old b/new\n"), ["new", "old"]);
    assert_eq!(touched_files("+++ b/lone.rs\n"), ["lone.rs"]);
    assert!(touched_files("nothing").is_empty());
}

#[test]
fn proposals_stay_in_scope() {
    assert_eq!(check_scope(Kind::Extractor, &patch_of("src/structural.rs")), None);
    assert_eq!(check_scope(Kind::Extractor, &patch_of("validation/x/y.txt")), None);
    assert!(check_scope(Kind::Extractor, &patch_of("src/query.rs")).is_some());
    assert_eq!(check_scope(Kind::Decision, &patch_of("archietect.toml")), None);
    assert!(check_scope(Kind::Alias, &patch_of("src/structural.rs")).is_some());
    assert!(check_scope(Kind::Extractor, &patch_of("src/proposal.rs")).unwrap().contains("never permitted"));
    assert!(check_scope(Kind::Extractor, &patch_of("../x")).unwrap().contains("outside the repository"));
    assert!(check_scope(Kind::Alias, "").unwrap().contains("touch any files"));
}

#[test]
fn a_proposal_is_tested_before_it_is_applied() {
    let patch = patch_of("archietect.toml");
    let r = submit(7, Kind::Decision, &patch, "h1").unwrap();
    assert_eq!(r.status, Status::Pending);
    assert!(check_acceptance(&r, "h1", &patch, "c1").unwrap().contains("not 'passed'"));
    let failed = tested(&r, false, "h1", "c1");
    assert_eq!(failed.status, Status::Failed);
    let passed = tested(&r, true, "h1", "c1");
    assert_eq!(passed.status, Status::Passed);
    assert_eq!(check_acceptance(&passed, "h1", &patch, "c1"), None);
    assert!(check_acceptance(&passed, "h2", &patch, "c1").unwrap().contains("changed since"));
    assert!(check_acceptance(&passed, "h1", &patch, "c2").unwrap().contains("HEAD has moved"));
    assert_eq!(accept(&passed, "h1", &patch, "c1").unwrap().status, Status::Accepted);
    assert!(accept(&failed, "h1", &patch, "c1").is_err());
    assert_eq!(reject(&passed).status, Status::Rejected);
    assert!(submit(8, Kind::Decision, " \n", "h").is_err());
    assert!(!acceptance_note(Kind::Extractor).is_empty());
}

#[test]
fn a_test_goes_step_by_step() {
    assert!(matches!(advance(Kind::Extractor, &Happening::Applied(true, String::new())), Step::RunSuite));
    assert!(matches!(advance(Kind::Alias, &Happening::Applied(true, String::new())), Step::CheckIndex));
    match advance(Kind::Alias, &Happening::Applied(false, "no".to_string())) {
        Step::Finish(r) => {
            assert!(!r.passed);
            assert_eq!(r.summary, "patch did not apply");
            assert_eq!(r.log_tail, "no");
        }
        other => panic!("{other:?}"),
    }
    match advance(Kind::Alias, &Happening::Indexed(vec![])) {
        Step::Finish(r) => assert!(r.passed),
        other => panic!("{other:?}"),
    }
    let v = Violation { invariant: "I-2", detail: "d".to_string() };
    match advance(Kind::Alias, &Happening::Indexed(vec![v])) {
        Step::Finish(r) => {
            assert!(!r.passed);
            assert_eq!(r.summary, "1 invariant violation(s)");
            assert_eq!(r.log_tail, "[I-2] d");
        }
        other => panic!("{other:?}"),
    }
    match advance(Kind::Extractor, &Happening::SuiteRan(true, "ok".to_string())) {
        Step::Finish(r) => assert_eq!(r.summary, "laws + invariants passed"),
        other => panic!("{other:?}"),
    }
}

#[test]
fn ids_and_tails() {
    assert_eq!(next_id(None), Some(1));
    assert_eq!(next_id(Some("4\n")), Some(5));
    assert_eq!(next_id(Some("x")), Some(1));
    assert_eq!(next_id(Some("18446744073709551615")), None);
    assert_eq!(tail_chars("abcdef", 2), "ef");
    assert_eq!(tail_chars("ab", 9), "ab");
}

#[test]
fn proposals_are_listed_by_number() {
    let found = filed_among(&names(&["10", "notes", "2"]));
    assert_eq!(found.iter().map(|f| f.id).collect::<Vec<u64>>(), [2, 10]);
}
