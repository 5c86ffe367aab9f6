//! The register, the history and the laws of the project.

use archietect::laws;
use archietect::model::{Concept, Index};
use archietect::numbers::{signed, unsigned};
use archietect::permissions::{load, PermissionConfig};
use archietect::query::Verdict;
use archietect::register::{register, Register};
use archietect::scan::{load_settings, scan_with_prior, ScannableFile, EXTRACTOR_VERSION};
use archietect::store::{
    archive_cutoff, archive_events_before, bump_arch_version, concept_at_version, concept_set_changed, history_digest,
    join_capped, merged_history, read_archived_history, read_history, snapshot_concepts_at_version, Digest, Event, Row,
};
use archietect::table::TextMap;
use archietect::tree::Tree;

const WIDGET: &str = "model Widget {\n  id   Int    @id @default(autoincrement())\n  name String\n}\n";

fn names(list: &[&str]) -> Vec<String> {
    list.iter().map(|s| s.to_string()).collect()
}

fn indexed(files: &[(&str, &str)]) -> Index {
    let list: Vec<ScannableFile> = files
        .iter()
        .map(|(rel, text)| ScannableFile {
            rel: rel.to_string(),
            size: text.len() as u64,
            mtime_ms: 1,
            text: Some(text.to_string()),
        })
        .collect();
    scan_with_prior("/p", load_settings(None), &list, None, 1_000)
}

// --- the register ---

fn lua() -> Vec<(String, String)> {
    vec![("handler.lua".to_string(), "lua".to_string())]
}

fn has(r: &Register, kind: &str, domain: &str) -> bool {
    r.not_known.iter().any(|g| g.kind == kind && g.domain.as_deref() == Some(domain))
}

#[test]
fn reports_unsupported_language_usage_unobserved_and_docker_disabled() {
    let idx = indexed(&[("schema.prisma", WIDGET)]);
    let out = register(&idx, &PermissionConfig::default(), None, &lua(), false);

    let lua = out.not_known.iter().find(|g| g.kind == "unsupported_language").expect("unsupported_language entry");
    assert!(lua.items.iter().any(|f| f.ends_with("handler.lua")), "{lua:?}");
    assert_eq!(lua.count, 1);

    let dead = out.not_known.iter().find(|g| g.kind == "usage_unobserved").expect("usage_unobserved entry");
    assert!(dead.items.iter().any(|c| c == "Widget"), "{dead:?}");
    assert_eq!(dead.count, 1);

    assert!(has(&out, "domain_disabled", "docker"));
    assert!(has(&out, "tier_not_producible", "git"));
    assert!(!has(&out, "domain_disabled", "git"));
    assert!(has(&out, "unstructured_domain_unconfirmed", "documents"));
    let docs = out.boundary.iter().find(|d| d.report.domain == "documents").unwrap();
    assert!(docs.confirmed.is_none());
    assert_eq!(out.domains_enabled, ["code", "git"]);
    assert!(!has(&out, "tier_not_producible", "docker"));
}

#[test]
fn enabling_docker_swaps_disabled_entry_for_nothing_since_observed_is_now_producible() {
    let idx = indexed(&[("schema.prisma", WIDGET)]);
    let cfg = load(None, Some("[domains]\ndocker = \"enabled\"\n"));
    let out = register(&idx, &cfg, None, &lua(), false);
    assert!(!has(&out, "domain_disabled", "docker"));
    assert!(!has(&out, "tier_not_producible", "docker"));
    assert!(out.domains_enabled.iter().any(|d| d == "docker"));
}

#[test]
fn confirmation_state_is_exposed_in_boundary_and_flips_documents_to_enabled() {
    let idx = indexed(&[("schema.prisma", WIDGET)]);
    let kept = "[confirmations]\ndocuments = true\n";
    let out = register(&idx, &PermissionConfig::default(), Some(kept), &lua(), false);
    let docs = out.boundary.iter().find(|d| d.report.domain == "documents").unwrap();
    assert_eq!(docs.confirmed, Some(true));
    assert!(out.domains_enabled.iter().any(|d| d == "documents"));
    assert!(!has(&out, "unstructured_domain_unconfirmed", "documents"));
    assert!(has(&out, "tier_not_producible", "documents"));
}

#[test]
fn omits_categories_with_no_instances() {
    let idx = indexed(&[("a.ts", "export class A {}\n")]);
    let out = register(&idx, &PermissionConfig::default(), None, &vec![], false);
    assert!(!out.not_known.iter().any(|g| g.kind == "unsupported_language"));
    assert!(!out.not_known.iter().any(|g| g.kind == "usage_unobserved"));
}

#[test]
fn register_endpoint_needs_no_token_and_reports_real_unknowns() {
    let idx = indexed(&[("schema.prisma", WIDGET)]);
    let out = register(&idx, &PermissionConfig::default(), None, &lua(), true);
    let kinds: Vec<&str> = out.not_known.iter().map(|g| g.kind).collect();
    assert!(kinds.contains(&"unsupported_language"));
    assert!(kinds.contains(&"usage_unobserved"));
    assert!(kinds.contains(&"domain_disabled"));
}

// --- history ---

fn row(ts_ms: i64, kind: &str, concept: &str) -> Row {
    Row { ts_ms, kind: kind.to_string(), concept: concept.to_string(), detail: "{}".to_string() }
}

#[test]
fn archive_moves_old_events_and_preserves_all_of_them() {
    let live = vec![
        row(1000, "concept_appeared", "Old1"),
        row(2000, "concept_appeared", "Old2"),
        row(5000, "concept_appeared", "Recent"),
    ];
    let (kept, archive) = archive_events_before(&live, &vec![], 3000);
    assert_eq!(kept.len(), 1, "only the recent event should remain live");
    assert_eq!(archive.len(), 2, "both old events must be in the archive");
    assert_eq!(kept[0].concept, "Recent");
    let archived = read_archived_history(&archive, None, 100);
    assert_eq!(archived.len(), 2, "both old events must be in the archive");
    assert!(archived.iter().all(|e| e.archived));
    assert_eq!(read_history(&kept, None, 100).len(), 1);
}

#[test]
fn include_archived_history_read_merges_and_marks_archived() {
    let (kept, archive) = archive_events_before(&vec![row(1000, "k", "A")], &vec![], 2000);
    assert!(kept.is_empty());
    let live = vec![row(3000, "k", "B")];
    let a = read_history(&live, None, 10);
    let b = read_archived_history(&archive, None, 10);
    assert_eq!(a.len(), 1);
    assert_eq!(b.len(), 1);
    assert!(b[0].archived);
    let all = merged_history(a, b, 10);
    assert_eq!(all.len(), 2);
    assert_eq!(all[0].concept, "B");
    assert!(!all[0].archived);
    assert_eq!(all[1].concept, "A");
    assert!(all[1].archived);
}

#[test]
fn archiving_twice_appends_to_the_same_archive_file_not_overwrite() {
    let live = vec![row(1000, "k", "A"), row(5000, "k", "B")];
    let (live, archive) = archive_events_before(&live, &vec![], 2000);
    let (live, archive) = archive_events_before(&live, &archive, 6000);
    assert!(live.is_empty());
    assert_eq!(archive.len(), 2, "second archive call must ADD to the archive, not replace it");
}

#[test]
fn protected_ontology_events_never_get_archived_regardless_of_age() {
    let live = vec![
        row(1000, "concept_appeared", "Old"),
        row(1000, "decision_added", "widget-is-canonical"),
        row(1000, "decision_removed", "old-decision"),
        row(1000, "alias_introduced", "gadget"),
        row(1000, "alias_removed", "thing"),
        row(1000, "stale_alias", "ghost"),
    ];
    let (kept, archive) = archive_events_before(&live, &vec![], 3000);
    assert_eq!(archive.len(), 1, "only the non-protected concept_appeared event should move");
    assert_eq!(kept.len(), 5, "the five protected ontology events must remain live despite being old");
    for k in ["decision_added", "decision_removed", "alias_introduced", "alias_removed", "stale_alias"] {
        assert!(kept.iter().any(|r| r.kind == k), "{k} must still be live");
    }
}

#[test]
fn read_archived_history_on_project_with_no_archive_returns_empty() {
    assert!(read_archived_history(&vec![], None, 10).is_empty());
}

#[test]
fn history_of_one_concept_is_limited() {
    let rows = vec![row(3, "k", "A"), row(2, "k", "B"), row(1, "k", "A")];
    let found = read_history(&rows, Some("A"), 10);
    assert_eq!(found.iter().map(|e| e.ts_ms).collect::<Vec<i64>>(), [3, 1]);
    assert_eq!(read_history(&rows, None, 2).len(), 2);
}

#[test]
fn history_of_one_concept_reaches_behind_newer_events_of_others() {
    let mut rows: Vec<Row> = (0..40).map(|i| row(1000 - i, "k", "Noise")).collect();
    rows.push(row(20, "k", "Widget"));
    rows.extend((0..40).map(|i| row(10 - i, "k", "Noise")));
    rows.push(row(-50, "k", "Widget"));
    let found = read_history(&rows, Some("Widget"), 2);
    assert_eq!(found.iter().map(|e| e.ts_ms).collect::<Vec<i64>>(), [20, -50]);
    assert_eq!(read_archived_history(&rows, Some("Widget"), 1)[0].ts_ms, 20);
    assert!(read_history(&rows, Some("Widget"), 0).is_empty());
}

#[test]
fn the_day_before_which_events_are_archived() {
    assert_eq!(archive_cutoff(None, Some(5), 100), Ok(5));
    assert_eq!(archive_cutoff(Some(1), None, 86_400_001), Ok(1));
    assert!(archive_cutoff(None, None, 100).is_err());
}

fn event(ts_ms: i64, kind: &str, concept: &str, detail: Vec<(&str, &str)>) -> Event {
    Event {
        ts_ms,
        kind: kind.to_string(),
        concept: concept.to_string(),
        detail: Tree::Table(
            detail.into_iter().map(|(k, v)| (k.to_string(), Tree::Text(v.to_string()))).collect(),
        ),
        archived: false,
    }
}

fn told(d: &Digest, what: &[&str]) -> bool {
    d.narrative.iter().any(|s| what.iter().all(|w| s.contains(w)))
}

#[test]
fn no_events_is_unavailable_not_an_empty_digest() {
    assert!(history_digest(&vec![]).is_none());
}

#[test]
fn narrates_real_events_grouped_by_kind_not_a_raw_dump() {
    // newest first
    let events = vec![
        event(1_700_000_005_000, "concept_renamed", "NewName", vec![("from", "OldName"), ("to", "NewName")]),
        event(1_700_000_004_000, "alias_introduced", "gadget", vec![("target", "Gadget")]),
        event(1_700_000_003_000, "ci_blocked", "Gadget", vec![]),
        event(1_700_000_002_000, "ci_passed", "Widget", vec![]),
        event(1_700_000_001_000, "concept_appeared", "Gadget", vec![]),
        event(1_700_000_000_000, "concept_appeared", "Widget", vec![]),
    ];
    let d = history_digest(&events).unwrap();
    assert_eq!(d.event_count, 6);
    assert_eq!(d.oldest_ms, 1_700_000_000_000);
    assert_eq!(d.newest_ms, 1_700_000_005_000);
    assert!(told(&d, &["2 new concepts appeared", "Widget", "Gadget"]), "{:?}", d.narrative);
    assert!(told(&d, &["CI ran 2 times: 1 passed, 1 blocked"]), "{:?}", d.narrative);
    assert!(told(&d, &["1 alias introduced", "gadget → Gadget"]), "{:?}", d.narrative);
    assert!(told(&d, &["1 concept renamed", "OldName → NewName"]), "{:?}", d.narrative);
    assert_eq!(d.by_kind_count.get("concept_appeared").unwrap().n, 2);
}

#[test]
fn long_name_lists_are_capped_not_dumped() {
    let events: Vec<Event> = (0..15)
        .map(|i| event(1_700_000_000_000 + i, "concept_appeared", &format!("Concept{i}"), vec![]))
        .collect();
    let d = history_digest(&events).unwrap();
    let line = d.narrative.iter().find(|s| s.contains("new concepts appeared")).expect("appeared line");
    assert!(line.contains("+5 more"), "{line}");
    assert_eq!(join_capped(&names(&["a", "b", "c"]), 2), "a, b (+1 more)");
    assert_eq!(join_capped(&names(&["a", "b"]), 2), "a, b");
}

// --- replay ---

#[test]
fn no_daemon_run_ever_means_no_snapshot_not_a_guess() {
    assert!(concept_at_version(&vec![], "Widget", 1).is_none());
}

#[test]
fn snapshot_round_trips_real_concept_state() {
    let idx = indexed(&[("schema.prisma", WIDGET)]);
    assert!(idx.concepts.has("Widget"));
    let rows = snapshot_concepts_at_version(&idx, 7, 5_000_000);
    let out = concept_at_version(&rows, "Widget", 7).expect("snapshot must exist");
    assert_eq!(out.version, 7);
    assert_eq!(out.verdict, Verdict::DeclaredOnly);
    assert_eq!(out.verdict.label(), "DECLARED_ONLY");
    assert_eq!(out.table.as_deref(), Some("Widget"));
    assert!(out.fields.iter().any(|f| f == "name"));
    assert_eq!(out.ts_ms, 5_000_000);
}

#[test]
fn querying_a_version_between_two_snapshots_falls_back_to_the_nearest_prior_one() {
    let idx = indexed(&[("schema.prisma", "model Widget {\n  id Int @id\n}\n")]);
    let mut rows = snapshot_concepts_at_version(&idx, 3, 1000);
    rows.extend(snapshot_concepts_at_version(&idx, 9, 2000));
    let out = concept_at_version(&rows, "Widget", 6).expect("must fall back to the nearest PRIOR snapshot");
    assert_eq!(out.version, 3);
}

#[test]
fn a_concept_that_did_not_exist_yet_at_the_requested_version_returns_none() {
    let idx = indexed(&[("schema.prisma", "model Widget {\n  id Int @id\n}\n")]);
    let rows = snapshot_concepts_at_version(&idx, 10, 1000);
    assert!(concept_at_version(&rows, "Widget", 5).is_none());
}

#[test]
fn versions_count_up() {
    assert_eq!(bump_arch_version(None), Some(1));
    assert_eq!(bump_arch_version(Some("41")), Some(42));
    assert_eq!(bump_arch_version(Some("nonsense")), Some(1));
    assert_eq!(bump_arch_version(Some("9223372036854775807")), None);
}

#[test]
fn numbers_are_read_whole() {
    assert_eq!(unsigned("42"), Some(42));
    assert_eq!(unsigned("+7"), Some(7));
    assert_eq!(unsigned("-1"), None);
    assert_eq!(unsigned(""), None);
    assert_eq!(unsigned("18446744073709551615"), Some(u64::MAX));
    assert_eq!(unsigned("18446744073709551616"), None);
    assert_eq!(signed("-9223372036854775808"), Some(i64::MIN));
    assert_eq!(signed("9223372036854775808"), None);
    assert_eq!(signed("1x"), None);
}

// --- the laws of the project ---

fn law(id: &str, status: &str, category: &str) -> String {
    format!(
        "id = '{id}'\ntitle = 't'\nstatement = 's'\nbecause = 'b'\ndiscovered_in = ['r']\nintroduced = '1'\nstatus = '{status}'\ncategory = '{category}'\nregression = 'x'\n"
    )
}

#[test]
fn laws_are_read_and_counted() {
    let files = vec![
        law("law-001", "active", "ranking"),
        law("law-002", "superseded", "ranking"),
        "id = [".to_string(),
    ];
    let found = laws::all(&files);
    assert_eq!(found.len(), 2);
    let s = laws::stats(&found);
    assert_eq!(s.laws_total, 2);
    assert_eq!(s.laws_active, 1);
    assert_eq!(s.laws_superseded, 1);
    assert_eq!(s.by_category.get("ranking").unwrap().n, 1);
    assert_eq!(s.extractor_version, EXTRACTOR_VERSION);
}

#[test]
fn the_corpus_is_read_whole_or_not_at_all() {
    let good = "[[repo]]\nname = 'a'\nkind = 'k'\nvalidated = 'v'\ncontributed = ['law-001']\n";
    let r = laws::registry(&vec![law("law-001", "active", "parser")], good);
    assert_eq!(r.laws.len(), 1);
    assert_eq!(r.stats.laws_total, 1);
    assert_eq!(r.corpus.len(), 1);
    assert_eq!(r.corpus[0].contributed, ["law-001"]);
    assert!(laws::corpus(&format!("{good}[[repo]]\nname = 'b'\n")).is_empty());
    assert!(laws::corpus("").is_empty());
}

#[test]
fn a_new_concept_is_a_new_version() {
    let with = |names: &[&str]| Index {
        concepts: names
            .iter()
            .fold(TextMap::new(), |m, n| m.with(n.to_string(), Concept::default())),
        ..Index::default()
    };
    assert!(!concept_set_changed(&with(&["A", "B"]), &with(&["B", "A"])));
    assert!(concept_set_changed(&with(&["A"]), &with(&["A", "B"])));
    assert!(concept_set_changed(&with(&["A"]), &with(&["B"])));
}
