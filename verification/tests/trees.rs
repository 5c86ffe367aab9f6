//! Answers as they are written down.

use archietect::advice::{impact, imports, intent};
use archietect::answers::{answer_shown, impact_shown, owner_shown};
use archietect::glance::{glance, plan};
use archietect::guard::{ci, guard};
use archietect::invariants::{check, to_json};
use archietect::laws::registry_json;
use archietect::mcp::read_message;
use archietect::model::{Concept, Decision, Evidence, Index, Tier};
use archietect::mutation::{Breach, Evaluation, Mutation, MutationKind};
use archietect::ownership::owner;
use archietect::permissions::{report, PermissionConfig};
use archietect::proposal::{accept, reject, submit, tested, Kind};
use archietect::protocol::{complaint_shown, reply, tools_shown, warned};
use archietect::query::{concept, Surroundings};
use archietect::register::register;
use archietect::reports::{
    accepted_shown, checkup_shown, digest_shown, events_shown, glance_page, history_shown, rejected_shown,
    report_shown, seeding_shown, snapshot_shown, status_shown, submitted_shown, tool_history_shown, tour_shown, Listed,
};
use archietect::resource::{Identity, Relationship};
use archietect::rest::Action;
use archietect::scan::{load_settings, scan_with_prior, ScannableFile};
use archietect::scoring::score;
use archietect::seed::seed;
use archietect::shape::apply;
use archietect::shown::Shown;
use archietect::store::{history_digest, read_history, Row};
use archietect::structural::{Import, Route, StructuralGraph, Symbol, SymbolKind};
use archietect::survey::{doctor, domain_section, duplicates, status, tour};
use archietect::table::TextMap;
use archietect::tree::Tree;
use serde_json::Value;

fn value_of(t: &Tree) -> Value {
    match t {
        Tree::Nothing => Value::Null,
        Tree::Flag(b) => Value::Bool(*b),
        Tree::Number(n) => serde_json::from_str(n).unwrap(),
        Tree::Text(s) => Value::String(s.clone()),
        Tree::List(v) => Value::Array(v.iter().map(value_of).collect()),
        Tree::Table(v) => Value::Object(v.iter().map(|(k, x)| (k.clone(), value_of(x))).collect()),
    }
}

fn json(t: &Tree) -> String {
    value_of(t).to_string()
}

fn small() -> Index {
    let files = vec![
        ScannableFile {
            rel: "db/schema.prisma".to_string(),
            size: 1,
            mtime_ms: 1,
            text: Some("model Widget {\n  id Int @id\n}\n".to_string()),
        },
        ScannableFile {
            rel: "api/a.ts".to_string(),
            size: 1,
            mtime_ms: 1,
            text: Some("prisma.widget.findMany()\n".to_string()),
        },
    ];
    scan_with_prior("/p", load_settings(None), &files, None, 7)
}

fn nowhere() -> Surroundings {
    Surroundings { files: vec![], unclassified: vec![], unsupported_exts: vec![] }
}

fn no_texts() -> TextMap<String> {
    TextMap::new()
}

fn no_ages() -> TextMap<String> {
    TextMap::new()
}

fn covered() -> Tree {
    Tree::Table(vec![("languages".to_string(), Tree::List(vec![]))])
}

fn at<'a>(t: &'a Tree, path: &[&str]) -> &'a Tree {
    let mut here = t;
    for k in path {
        here = here.field(k).unwrap_or_else(|| panic!("no '{k}' in {here:?}"));
    }
    here
}

fn text_at(t: &Tree, path: &[&str]) -> String {
    at(t, path).text().unwrap_or_else(|| panic!("no text at {path:?}"))
}

fn number_at(t: &Tree, path: &[&str]) -> String {
    match at(t, path) {
        Tree::Number(n) => n.clone(),
        other => panic!("no number: {other:?}"),
    }
}

fn items(t: &Tree) -> &Vec<Tree> {
    match t {
        Tree::List(v) => v,
        other => panic!("no list: {other:?}"),
    }
}

fn keys(t: &Tree) -> Vec<&str> {
    match t {
        Tree::Table(v) => v.iter().map(|(k, _)| k.as_str()).collect(),
        other => panic!("no table: {other:?}"),
    }
}

// --- answers ---

#[test]
fn a_declared_concept_shows_its_card() {
    let idx = small();
    let a = concept(&idx, &StructuralGraph::default(), &nowhere(), "widget");
    let t = answer_shown(&a, &no_texts(), &TextMap::new().with("7".to_string(), "an age".to_string()));
    assert_eq!(text_at(&t, &["first_seen_label"]), "an age");
    assert_eq!(text_at(&t, &["last_verified_label"]), "an age");
    assert_eq!(text_at(&t, &["verdict"]), "ACTIVE");
    assert_eq!(text_at(&t, &["canonical"]), "Widget");
    assert_eq!(number_at(&t, &["first_seen_ms"]), "7");
    assert_eq!(json(at(&t, &["fields"])), "[\"id\"]");
    assert_eq!(json(at(&t, &["used_by_files"])), "[\"api/a.ts\"]");
    assert_eq!(text_at(&items(at(&t, &["evidence"]))[0], &["tier"]), "Declared");
    assert!(t.field("next_action").is_none());
    assert!(t.field("resolved_via").is_none());
}

#[test]
fn files_to_read_come_with_what_to_do_about_them() {
    let idx = small();
    let around = Surroundings { files: vec!["/p/src/invoice.ts".to_string()], ..nowhere() };
    let a = concept(&idx, &StructuralGraph::default(), &around, "invoice");
    let t = answer_shown(&a, &no_texts(), &no_ages());
    assert_eq!(text_at(&t, &["verdict"]), "UNKNOWN");
    assert_eq!(at(&t, &["canonical"]), &Tree::Nothing);
    assert_eq!(text_at(&t, &["next_action", "type"]), "ai_investigation");
    assert!(text_at(&t, &["next_action", "escalation"]).contains("one-off"));
    let around = Surroundings { unclassified: vec!["x.lua".to_string()], ..nowhere() };
    let a = concept(&idx, &StructuralGraph::default(), &around, "invoice");
    let t = answer_shown(&a, &no_texts(), &no_ages());
    assert_eq!(text_at(&t, &["verdict"]), "INSUFFICIENT_COVERAGE");
    assert!(text_at(&t, &["next_action", "escalation"]).contains("--kind extractor"));
    assert_eq!(json(at(&t, &["next_action", "read"])), "[\"x.lua\"]");
}

fn graph() -> StructuralGraph {
    let s = Symbol {
        name: "doctor".to_string(),
        kind: SymbolKind::Function,
        file: "src/query.rs".to_string(),
        linked_concept: None,
        line: 2,
    };
    let r = Route {
        method: "GET".to_string(),
        path: "/doctor".to_string(),
        handler: "doctor".to_string(),
        file: "src/rest.rs".to_string(),
        linked_concept: None,
    };
    StructuralGraph {
        symbols: TextMap::new().with("src/query.rs::doctor".to_string(), s),
        routes: vec![r],
        ..StructuralGraph::default()
    }
}

#[test]
fn the_source_of_a_symbol_is_quoted() {
    let idx = small();
    let a = concept(&idx, &graph(), &nowhere(), "doctor");
    let texts = TextMap::new().with("src/query.rs".to_string(), "// one\nfn doctor() {}\n".to_string());
    let t = answer_shown(&a, &texts, &no_ages());
    assert_eq!(text_at(&t, &["verdict"]), "STRUCTURAL");
    let source = items(at(&t, &["source"]));
    assert_eq!(source.len(), 1);
    assert_eq!(text_at(&source[0], &["excerpt"]), "1: // one\n2: fn doctor() {}");
    assert_eq!(number_at(&source[0], &["line"]), "2");
    assert_eq!(text_at(&items(at(&t, &["routes"]))[0], &["path"]), "/doctor");
    // Without the text there is nothing to quote.
    let t = answer_shown(&a, &no_texts(), &no_ages());
    assert!(items(at(&t, &["source"])).is_empty());
}

#[test]
fn what_is_not_declared_has_no_known_impact_and_no_owner() {
    let idx = small();
    let g = StructuralGraph::default();
    let t = impact_shown(&impact(&idx, &g, &nowhere(), "invoice", &TextMap::new()), "invoice", &no_texts(), &no_ages());
    assert_eq!(text_at(&t, &["impact"]), "unknown — concept not declared in this project");
    assert_eq!(text_at(&t, &["detail", "verdict"]), "ABSENT");
    let t = owner_shown(&owner(&idx, &g, &nowhere(), "invoice"), "invoice", &no_texts(), &no_ages());
    assert_eq!(at(&t, &["owner"]), &Tree::Nothing);
    assert_eq!(text_at(&t, &["target"]), "invoice");
}

#[test]
fn what_is_declared_has_an_impact_and_an_owner() {
    let idx = small();
    let g = StructuralGraph::default();
    let t = impact_shown(&impact(&idx, &g, &nowhere(), "Widget", &TextMap::new()), "Widget", &no_texts(), &no_ages());
    assert_eq!(text_at(&t, &["severity"]), "MODERATE — several touchpoints");
    assert!(t.field("evidence_note").is_some());
    let t = owner_shown(&owner(&idx, &g, &nowhere(), "Widget"), "Widget", &no_texts(), &no_ages());
    assert_eq!(text_at(&t, &["owner_directory"]), "db");
    assert_eq!(json(at(&t, &["declared_in"])), "[[\"db/schema.prisma\",\"prisma\"]]");
    assert_eq!(number_at(&items(at(&t, &["ranked_directories"]))[0], &["weight"]), "2");
    let t = owner_shown(&owner(&idx, &graph(), &nowhere(), "doctor"), "doctor", &no_texts(), &no_ages());
    let declared = items(at(&t, &["declared_in"]));
    assert_eq!(text_at(&declared[0], &["kind"]), "Function");
}

fn link(from: &str, kind: &str, to: &str) -> Relationship {
    Relationship {
        from: Identity(from.to_string()),
        kind: kind.to_string(),
        to: Identity(to.to_string()),
        evidence: Evidence { tier: Tier::Declared, what: "w".to_string() },
    }
}

#[test]
fn imports_name_their_other_end() {
    let mut g = StructuralGraph::default();
    g.files = vec!["src/a.ts".to_string(), "src/b.ts".to_string()];
    g.imports = vec![Import {
        from_file: "src/a.ts".to_string(),
        to_module: "./b".to_string(),
        names: vec!["B".to_string()],
        resolved: Some(link("src/a.ts", "imports", "src/b.ts")),
    }];
    let t = imports(&g, "src/a.ts").shown();
    assert_eq!(at(&t, &["known_to_this_scan"]), &Tree::Flag(true));
    assert_eq!(text_at(&items(at(&t, &["imports"]))[0], &["to"]), "src/b.ts");
    let t = imports(&g, "src/b.ts").shown();
    assert_eq!(text_at(&items(at(&t, &["imported_by"]))[0], &["from"]), "src/a.ts");
}

#[test]
fn advice_is_shown_with_its_notes() {
    let idx = small();
    let around = Surroundings { files: vec!["/p/src/invoice.ts".to_string()], ..nowhere() };
    let t = intent(&idx, &around, "widget invoice ledger").shown();
    assert_eq!(text_at(&items(at(&t, &["extend"]))[0], &["canonical"]), "Widget");
    assert_eq!(json(at(&t, &["create"])), "[\"ledger\"]");
    let unsure = &items(at(&t, &["needs_confirmation"]))[0];
    assert_eq!(text_at(unsure, &["note"]), "name-resemblance only — confirm by hand");
    let t = plan(&idx, &StructuralGraph::default(), &nowhere(), "widget ledger", &TextMap::new()).shown();
    assert_eq!(text_at(&items(at(&t, &["extend"]))[0], &["canonical_location"]), "db");
    assert!(t.field("note").is_some());
    // Compact, it keeps everything but prose.
    assert!(apply(t, None, true).field("note").is_none());
}

#[test]
fn guards_show_what_they_found() {
    let idx = small();
    let t = guard(&idx, &nowhere(), "CREATE TABLE new_widgets (id int);").shown();
    assert_eq!(at(&t, &["allowed"]), &Tree::Flag(false));
    assert_eq!(text_at(&items(at(&t, &["findings"]))[0], &["canonical"]), "Widget");
    let t = ci(&idx, &nowhere(), "+CREATE TABLE new_widgets (id int);\n", false).shown();
    assert_eq!(text_at(&items(at(&t, &["violations"]))[0], &["kind"]), "duplicate_storage");
    let t = ci(&idx, &nowhere(), "+nothing\n", false).shown();
    assert!(items(at(&t, &["violations"])).is_empty());
    assert_eq!(at(&t, &["pass"]), &Tree::Flag(true));
}

// --- surveys ---

#[test]
fn the_status_shows_its_domains_and_links() {
    let idx = small();
    let cfg = PermissionConfig::default();
    let git = domain_section(&cfg, "git", vec![]);
    let docker = domain_section(&cfg, "docker", vec![]);
    let links = vec![link("a", "same_project_as", "/p")];
    let t = status_shown(&status(&idx), &covered(), &git, &docker, &links);
    assert_eq!(text_at(&t, &["root"]), "/p");
    assert_eq!(at(&t, &["structural_coverage"]), &covered());
    assert_eq!(number_at(&t, &["files_scanned"]), "2");
    assert_eq!(json(at(&t, &["declaration_files"])), "[[\"db/schema.prisma\",\"prisma\"]]");
    assert_eq!(at(&t, &["git", "enabled"]), &Tree::Flag(true));
    assert!(at(&t, &["git"]).field("note").is_none());
    assert_eq!(at(&t, &["docker", "enabled"]), &Tree::Flag(false));
    assert!(text_at(&t, &["docker", "note"]).contains("'docker' domain is disabled"));
    assert_eq!(text_at(&items(at(&t, &["relationships"]))[0], &["evidence", "tier"]), "Declared");
}

fn row(ts_ms: i64, kind: &str, concept: &str) -> Row {
    Row { ts_ms, kind: kind.to_string(), concept: concept.to_string(), detail: "{\"a\":1}".to_string() }
}

#[test]
fn summaries_show_counts_and_recent_changes() {
    let mut idx = small();
    idx.decisions = vec![Decision {
        id: "d1".to_string(),
        decision: "one".to_string(),
        because: String::new(),
        rejected: vec![],
        links: vec![],
        proposed_by: String::new(),
    }];
    let recent = read_history(&vec![row(5, "ci_passed", "commit")], None, 10);
    let t = checkup_shown(&doctor(&idx), &recent, &covered());
    assert_eq!(number_at(&t, &["domains", "db"]), "1");
    assert_eq!(number_at(&t, &["counts", "concepts"]), "1");
    assert_eq!(number_at(&t, &["counts", "declared_decisions"]), "1");
    assert_eq!(number_at(&items(at(&t, &["recent_architectural_changes"]))[0], &["detail", "a"]), "1");
    assert_eq!(text_at(&items(at(&t, &["things_to_read"]))[0], &["id"]), "d1");
    assert_eq!(number_at(&items(at(&t, &["top_concepts"]))[0], &["observed_uses"]), "1");
    assert_eq!(at(&t, &["structural_coverage"]), &covered());
    let t = tour_shown(&tour(&idx), &covered());
    assert_eq!(at(&t, &["structural_coverage"]), &covered());
    assert_eq!(json(at(&t, &["important_concepts"])), "[\"Widget\"]");
    assert_eq!(number_at(&t, &["estimated_reading_minutes"]), "1");
    assert_eq!(json(at(&t, &["decisions_to_read"])), "[\"d1\"]");
    let t = glance_page(&glance(&idx, false), "/p", &recent, &covered());
    assert_eq!(at(&t, &["structural_coverage"]), &covered());
    assert_eq!(number_at(&t, &["status", "concepts"]), "1");
    assert!(text_at(&t, &["onboarding"]).contains("archietect init"));
    let t = glance_page(&glance(&idx, true), "/p", &recent, &covered());
    assert_eq!(at(&t, &["onboarding"]), &Tree::Nothing);
}

#[test]
fn duplicates_show_both_sides() {
    let declared = |name: &str, kind: &str| Concept {
        name: name.to_string(),
        table: Some(name.to_lowercase()),
        declared_in: vec![("f".to_string(), kind.to_string())],
        ..Concept::default()
    };
    let mut idx = small();
    idx.concepts = TextMap::new()
        .with("LedgerEntry".to_string(), declared("LedgerEntry", "prisma"))
        .with("LedgerLine".to_string(), declared("LedgerLine", "prisma"));
    let t = duplicates(&idx).shown();
    let found = items(at(&t, &["suspected_duplicates"]));
    assert_eq!(json(at(&found[0], &["concepts"])), "[\"LedgerEntry\",\"LedgerLine\"]");
    assert_eq!(json(at(&found[0], &["declared_in"])), "[[\"f\",\"prisma\"],[\"f\",\"prisma\"]]");
    assert!(items(at(&t, &["likely_same_concept_needs_alias"])).is_empty());
}

#[test]
fn the_register_says_what_was_not_looked_at() {
    let idx = small();
    let cfg = PermissionConfig::default();
    let r = register(&idx, &cfg, None, &vec![("x.lua".to_string(), "lua".to_string())], false);
    let t = r.shown();
    assert_eq!(number_at(&t, &["known", "files_scanned"]), "2");
    assert_eq!(number_at(&t, &["as_of", "newest_verification_ms"]), "7");
    let gaps = items(at(&t, &["not_known"]));
    let of = |kind: &str| gaps.iter().find(|g| text_at(g, &["kind"]) == kind).unwrap();
    let lua = of("unsupported_language");
    assert_eq!(json(at(lua, &["files"])), "[\"x.lua\"]");
    assert_eq!(number_at(lua, &["file_count"]), "1");
    assert_eq!(text_at(of("domain_disabled"), &["domain"]), "docker");
    let unasked = of("unstructured_domain_unconfirmed");
    assert_eq!(text_at(unasked, &["configured"]), "default-disabled");
    assert_eq!(at(unasked, &["confirmed"]), &Tree::Nothing);
    assert!(text_at(of("tier_not_producible"), &["tier"]).len() > 3);
    let denied = at(&t, &["boundary", "hardcoded_denials", "path_components"]);
    assert_eq!(json(denied), "[\".ssh\",\".aws\",\".gnupg\"]");
    let t = report_shown(&report(&cfg));
    assert_eq!(items(at(&t, &["domains"])).len(), items(at(&r.shown(), &["boundary", "domains"])).len());
    assert_eq!(at(&t, &["hardcoded_denials"]), at(&r.shown(), &["boundary", "hardcoded_denials"]));
}

// --- records ---

#[test]
fn timelines_and_digests() {
    let events = read_history(&vec![row(9, "concept_appeared", "A"), row(5, "ci_passed", "c")], None, 10);
    let t = history_shown("/p", &Some("A".to_string()), &events);
    assert_eq!(keys(&items(at(&t, &["events"]))[0]), ["ts_ms", "kind", "concept", "detail"]);
    assert_eq!(text_at(&t, &["concept"]), "A");
    let plain = events_shown(&events);
    assert_eq!(keys(&plain), ["events"]);
    assert_eq!(at(&plain, &["events"]), at(&t, &["events"]));
    let told = tool_history_shown(&events);
    assert_eq!(keys(&told), ["events", "note"]);
    assert_eq!(at(&told, &["events"]), at(&t, &["events"]));
    assert!(text_at(&told, &["note"]).starts_with("Append-only architectural timeline, newest first, written by the daemon, `archietect ci`"));
    let ages = TextMap::new().with("9".to_string(), "just now".to_string());
    let t = digest_shown(&history_digest(&events), &ages);
    assert_eq!(text_at(&t, &["newest_label"]), "just now");
    assert_eq!(at(&t, &["oldest_label"]), &Tree::Nothing);
    assert_eq!(at(&t, &["available"]), &Tree::Flag(true));
    assert_eq!(number_at(&t, &["newest_ms"]), "9");
    assert_eq!(number_at(&t, &["by_kind_count", "ci_passed"]), "1");
    let t = digest_shown(&history_digest(&vec![]), &no_ages());
    assert_eq!(at(&t, &["available"]), &Tree::Flag(false));
    let snaps = archietect::store::snapshot_concepts_at_version(&small(), 3, 50);
    let t = snapshot_shown(&snaps[0], 4, &TextMap::new().with("50".to_string(), "long ago".to_string()));
    assert_eq!(text_at(&t, &["ts_label"]), "long ago");
    assert_eq!(number_at(&t, &["requested_version"]), "4");
    assert_eq!(number_at(&t, &["snapshot_version"]), "3");
    assert_eq!(at(&t, &["exact_version_match"]), &Tree::Flag(false));
    assert_eq!(text_at(&t, &["verdict"]), "ACTIVE");
}

#[test]
fn laws_invariants_and_scores() {
    let law = "id = 'law-001'\ntitle = 't'\nstatement = 's'\nbecause = 'b'\ndiscovered_in = ['x']\nintroduced = '2026'\nstatus = 'active'\ncategory = 'parser'\nregression = 'r'\n";
    let t = registry_json(&vec![law.to_string()], "[[repo]]\nname = 'n'\nkind = 'k'\nvalidated = 'v'\ncontributed = []\n");
    assert_eq!(number_at(&t, &["stats", "laws_active"]), "1");
    assert_eq!(number_at(&t, &["stats", "laws_superseded"]), "0");
    assert_eq!(number_at(&t, &["stats", "by_category", "parser"]), "1");
    assert_eq!(number_at(&t, &["stats", "corpus_repositories"]), "1");
    assert_eq!(text_at(&items(at(&t, &["laws"]))[0], &["id"]), "law-001");
    let mut idx = small();
    let t = to_json(&check(&idx));
    assert_eq!(at(&t, &["pass"]), &Tree::Flag(true));
    assert_eq!(number_at(&t, &["violation_count"]), "0");
    idx.aliases = TextMap::new().with("customer".to_string(), "Nothing".to_string());
    let t = to_json(&check(&idx));
    assert_eq!(at(&t, &["pass"]), &Tree::Flag(false));
    assert_eq!(text_at(&items(at(&t, &["violations"]))[0], &["invariant"]), "I-2: alias resolves");
    let b = score("Widget", idx.concepts.get("Widget").unwrap(), "widget");
    let t = b.to_json();
    assert_eq!(text_at(&t, &["tier"]), "exact-orm");
    assert_eq!(number_at(&t, &["total"]), b.total.to_string());
}

#[test]
fn seeds_say_whether_they_were_written() {
    let t = seeding_shown(&seed(None, &vec![], false, None, false), false, &None);
    assert_eq!(at(&t, &["available"]), &Tree::Flag(false));
    let readme = "# Rules\n\n- Never write to the database directly from the handlers.\n";
    let t = seeding_shown(&seed(Some(readme), &vec![], false, None, false), false, &None);
    assert_eq!(number_at(&t, &["found"]), "1");
    assert!(text_at(&t, &["note"]).starts_with("dry run"));
    assert_eq!(at(&t, &["proposed_by"]), &Tree::Nothing);
    let who = Some("me".to_string());
    let t = seeding_shown(&seed(Some(readme), &vec![], true, Some("me"), true), true, &who);
    assert!(text_at(&t, &["note"]).starts_with("appended"));
    assert_eq!(text_at(&t, &["proposed_by"]), "me");
    let t = seeding_shown(&seed(Some("nothing"), &vec![], true, None, true), true, &None);
    assert_eq!(number_at(&t, &["found"]), "0");
    assert_eq!(at(&t, &["written"]), &Tree::Flag(false));
}

#[test]
fn a_patch_that_is_stopped_says_why() {
    let m = Mutation {
        resource: "Widget".to_string(),
        file: "schema.prisma".to_string(),
        object: "concept",
        kind: MutationKind::Added,
        before: None,
        after: None,
        evidence: vec![],
        dependent_files: vec![],
        decision_required: true,
        governing_decisions: vec![],
        supplied_decisions: vec![],
    };
    let e = Evaluation {
        unknown: false,
        mutations: vec![m],
        violations: vec![Breach::Undecided(0), Breach::Unreadable, Breach::InvalidUpdate("bad".to_string())],
    };
    let t = e.shown();
    assert_eq!(text_at(&t, &["status"]), "OBSERVED");
    let stops = items(at(&t, &["violations"]));
    assert_eq!(text_at(&stops[0], &["kind"]), "missing_architectural_decision");
    assert_eq!(text_at(&stops[0], &["next_command"]), "archietect plan 'Widget'");
    assert_eq!(text_at(&stops[0], &["mutation"]), "added");
    assert_eq!(text_at(&stops[1], &["reason"]), "Cannot establish patch contents");
    assert_eq!(text_at(&stops[2], &["reason"]), "bad");
    assert_eq!(at(&items(at(&t, &["mutations"]))[0], &["before"]), &Tree::Nothing);
}

#[test]
fn proposals_are_shown_where_they_stand() {
    let patch = "diff --git a/archietect.toml b/archietect.toml\n--- a/archietect.toml\n+++ b/archietect.toml\n";
    let record = submit(3, Kind::Alias, patch, "h").unwrap();
    let t = submitted_shown(&record, "/p/3");
    assert_eq!(number_at(&t, &["id"]), "3");
    assert_eq!(text_at(&t, &["kind"]), "alias");
    assert_eq!(text_at(&t, &["status"]), "pending");
    assert_eq!(text_at(&t, &["next"]), "archietect proposal test 3");
    let passed = tested(&record, true, "h", "head");
    let done = accept(&passed, "h", patch, "head").unwrap();
    let t = accepted_shown(&done);
    assert_eq!(text_at(&t, &["status"]), "accepted");
    assert!(text_at(&t, &["note"]).ends_with("on your behalf."));
    let t = rejected_shown(&reject(&record), true);
    assert_eq!(json(&t), "{\"id\":3,\"purged\":true,\"status\":\"rejected\"}");
    let listed = Listed { record, title: "t".to_string(), language: None };
    assert_eq!(keys(&listed.shown()), ["id", "kind", "status", "title", "language"]);
}

// --- protocols ---

#[test]
fn tools_are_offered_with_their_schemas() {
    let t = tools_shown();
    let first = &items(&t)[0];
    assert_eq!(text_at(first, &["name"]), "concept");
    assert_eq!(json(at(first, &["inputSchema", "required"])), "[\"term\"]");
    for tool in items(&t) {
        let p = at(tool, &["inputSchema", "properties"]);
        assert_eq!(text_at(p, &["only", "type"]), "array");
        assert_eq!(text_at(p, &["only", "items", "type"]), "string");
        assert_eq!(text_at(p, &["compact", "type"]), "boolean");
    }
}

#[test]
fn replies_carry_the_id_of_their_message() {
    let m = read_message("{\"jsonrpc\":\"2.0\",\"id\":7,\"method\":\"ping\"}");
    let r = reply(&m, None, "0.1.0", "").unwrap();
    assert_eq!(json(&r), "{\"id\":7,\"jsonrpc\":\"2.0\",\"result\":{}}");
    let m = read_message("{\"jsonrpc\":\"2.0\",\"id\":\"a\",\"method\":\"nonsense\"}");
    let r = reply(&m, None, "0.1.0", "").unwrap();
    assert_eq!(number_at(&r, &["error", "code"]), "-32601");
    assert_eq!(text_at(&r, &["error", "message"]), "method not found: nonsense");
    assert_eq!(text_at(&r, &["id"]), "a");
    let m = read_message("{\"jsonrpc\":\"2.0\",\"id\":1,\"method\":\"initialize\",\"params\":{}}");
    let r = reply(&m, None, "0.1.0", "").unwrap();
    assert_eq!(text_at(&r, &["result", "serverInfo", "version"]), "0.1.0");
    let call = "{\"jsonrpc\":\"2.0\",\"id\":1,\"method\":\"tools/call\",\"params\":{\"name\":\"tour\",\"arguments\":{}}}";
    let m = read_message(call);
    let r = reply(&m, Some(("/p", true)), "0.1.0", "words").unwrap();
    assert_eq!(text_at(&items(at(&r, &["result", "content"]))[0], &["text"]), "words");
    assert_eq!(at(&r, &["result", "isError"]), &Tree::Flag(false));
    let r = reply(&m, Some(("/p", false)), "0.1.0", "").unwrap();
    assert_eq!(text_at(&r, &["error", "message"]), "root does not exist: /p");
    assert!(reply(&read_message("{\"method\":\"initialized\"}"), None, "0.1.0", "").is_none());
    assert!(reply(&read_message("no json"), None, "0.1.0", "").is_none());
}

#[test]
fn requests_that_are_not_served_are_told_why() {
    let t = complaint_shown(&Action::UnknownEndpoint("/x".to_string()));
    assert_eq!(text_at(&t, &["error"]), "unknown endpoint /x");
    assert_eq!(items(at(&t, &["endpoints"])).len(), 30);
    let t = complaint_shown(&Action::Refuse);
    assert!(text_at(&t, &["error"]).contains("token"));
    assert!(t.field("endpoints").is_none());
}

#[test]
fn an_old_server_says_so() {
    let body = Tree::Table(vec![("a".to_string(), Tree::Flag(true))]);
    let t = warned(body, "old");
    assert_eq!(text_at(&t, &["_stale_binary_warning"]), "old");
    assert_eq!(at(&t, &["a"]), &Tree::Flag(true));
    assert_eq!(warned(Tree::List(vec![]), "old"), Tree::List(vec![]));
}
