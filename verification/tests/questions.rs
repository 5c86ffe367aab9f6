//! The questions asked of an index.

use archietect::advice::{impact, imports, intent, intent_terms, Dependent, Impact, Severity};
use archietect::docker_domain;
use archietect::git_domain;
use archietect::git_domain::GitFiles;
use archietect::glance::{glance, glance_shown, plan};
use archietect::guard::{ci, gate_event, guard};
use archietect::model::{Concept, Index, Tier};
use archietect::ownership::{owner, top_segment, Owner};
use archietect::permissions::{load, PermissionConfig};
use archietect::query::{concept, concept_card, source_snippet, Answer, Detail, Surroundings, Verdict};
use archietect::resource::{Identity, Relationship};
use archietect::scan::{load_settings, scan_with_prior, ScannableFile};
use archietect::structural::{Import, Route, StructuralGraph, Symbol, SymbolKind};
use archietect::survey::{
    built_from_relationships, doctor, domain_section, duplicates, index_freshness,
    same_project_relationships, status, tour, Place,
};
use archietect::table::TextMap;

const WIDGET: &str = "model Widget {\n  id   Int    @id @default(autoincrement())\n  name String\n}\n";

fn names(list: &[&str]) -> Vec<String> {
    list.iter().map(|s| s.to_string()).collect()
}

fn indexed(settings: Option<&str>, files: &[(&str, &str)]) -> Index {
    let list: Vec<ScannableFile> = files
        .iter()
        .map(|(rel, text)| ScannableFile {
            rel: rel.to_string(),
            size: text.len() as u64,
            mtime_ms: 1,
            text: Some(text.to_string()),
        })
        .collect();
    scan_with_prior("/p", load_settings(settings), &list, None, 1_000)
}

fn alone() -> Surroundings {
    Surroundings { files: vec![], unclassified: vec![], unsupported_exts: vec![] }
}

fn no_graph() -> StructuralGraph {
    StructuralGraph::default()
}

fn class(name: &str, file: &str, line: usize) -> Symbol {
    Symbol {
        name: name.to_string(),
        kind: SymbolKind::Class,
        file: file.to_string(),
        linked_concept: None,
        line,
    }
}

fn graph_of(symbols: Vec<Symbol>) -> StructuralGraph {
    let mut g = StructuralGraph::default();
    let mut map = TextMap::new();
    for s in symbols {
        g.files.push(s.file.clone());
        map = map.with(format!("{}::{}", s.file, s.name), s);
    }
    g.symbols = map;
    g
}

fn repository() -> GitFiles {
    GitFiles {
        head: Some("ref: refs/heads/main\n".to_string()),
        config: Some("[remote \"origin\"]\n\turl = git@example.com:archietect.git\n".to_string()),
    }
}

fn ask(idx: &Index, term: &str) -> Answer {
    concept(idx, &no_graph(), &alone(), term)
}

// --- status ---

#[test]
fn status_includes_git_resources_for_this_real_repo() {
    let cfg = PermissionConfig::default();
    let resources = git_domain::scan_if_allowed(&cfg, "/p", Some(&repository()));
    let section = domain_section(&cfg, "git", resources);
    assert_eq!(section.enabled, true);
    assert!(
        section.resources.iter().any(|r| r.kind == "git_repository"),
        "expected a git_repository resource in status's git section"
    );
    assert!(
        section.resources.iter().any(|r| r.kind == "git_branch"),
        "expected a git_branch resource (this repo has a checked-out branch)"
    );
}

#[test]
fn status_git_section_honestly_disabled_via_project_config() {
    let cfg = load(None, Some("[domains]\ngit = \"disabled\"\n"));
    let resources = git_domain::scan_if_allowed(&cfg, "/p", Some(&repository()));
    let section = domain_section(&cfg, "git", resources);
    assert_eq!(section.enabled, false);
    assert_eq!(section.resources.len(), 0);
    assert!(section.note.is_some());
}

#[test]
fn status_links_git_repository_to_code_by_shared_root() {
    let cfg = PermissionConfig::default();
    let idx = indexed(None, &[("schema.prisma", WIDGET)]);
    assert!(idx.files_scanned > 0, "sanity: the fixture must have real scanned files");
    let git = git_domain::scan_if_allowed(&cfg, "/p", Some(&repository()));
    let rels = same_project_relationships(&idx, &cfg, &git);
    assert_eq!(rels.len(), 1, "expected exactly one same_project_as relationship");
    let rel = &rels[0];
    assert_eq!(rel.kind, "same_project_as");
    assert_eq!(rel.evidence.tier, Tier::Declared);
    let what = &rel.evidence.what;
    assert!(what.contains("/p"), "evidence text must cite the actual shared root path, got: {what}");
    assert!(what.contains("same root path"), "evidence text must state the actual reason, got: {what}");
}

#[test]
fn no_relationship_when_no_git_repository() {
    let cfg = PermissionConfig::default();
    let idx = indexed(None, &[("schema.prisma", WIDGET)]);
    let git = git_domain::scan_if_allowed(&cfg, "/p", None);
    let rels = same_project_relationships(&idx, &cfg, &git);
    assert!(rels.is_empty(), "no .git directory means no same_project_as relationship");
}

#[test]
fn this_repo_has_a_same_project_relationship() {
    let cfg = PermissionConfig::default();
    let idx = indexed(None, &[("src/model.rs", "pub struct Index {\n    pub root: String,\n}\n")]);
    let git = git_domain::scan_if_allowed(&cfg, "/p", Some(&repository()));
    let rels = same_project_relationships(&idx, &cfg, &git);
    assert_eq!(rels.len(), 1);
    assert_eq!(rels[0].kind, "same_project_as");
}

#[test]
fn status_counts_what_is_used() {
    let idx = indexed(
        None,
        &[
            ("schema.prisma", "model Widget {\n  id Int\n}\nmodel Gadget {\n  id Int\n}\n"),
            ("a.ts", "prisma.widget.findMany()"),
        ],
    );
    let s = status(&idx);
    assert_eq!(s.concepts_declared, 2);
    assert_eq!(s.concepts_with_observed_usage, 1);
    assert_eq!(s.declared_but_never_observed_in_use, ["Gadget"]);
    assert_ne!(index_freshness(true), index_freshness(false));
}

// --- build contexts ---

fn built_from(cfg: &PermissionConfig, compose: &str, places: &TextMap<Place>) -> Vec<Relationship> {
    let files = TextMap::new().with("docker-compose.yml".to_string(), compose.to_string());
    let docker = docker_domain::scan_if_allowed(cfg, "/p", &files);
    built_from_relationships(cfg, Some("/p"), &docker, places)
}

fn docker_enabled() -> PermissionConfig {
    load(None, Some("[domains]\ndocker = \"enabled\"\n"))
}

fn place(context: &str, path: &str) -> TextMap<Place> {
    TextMap::new().with(context.to_string(), Place { path: path.to_string(), is_dir: true })
}

const BACKEND: &str = "services:\n  api:\n    build:\n      context: ./backend\n";

#[test]
fn built_from_relationship_appears_for_a_real_distinct_build_context() {
    let rels = built_from(&docker_enabled(), BACKEND, &place("./backend", "/p/backend"));
    let rel = rels.iter().find(|r| r.kind == "built_from").expect("expected a built_from relationship");
    assert_eq!(rel.to.0, "backend");
    assert_eq!(rel.evidence.tier, Tier::Declared);
    let what = &rel.evidence.what;
    assert!(what.contains("./backend"), "evidence must cite the literal declared context, got: {what}");
}

#[test]
fn no_relationship_when_build_context_does_not_exist() {
    let compose = "services:\n  api:\n    build:\n      context: ./does-not-exist\n";
    let rels = built_from(&docker_enabled(), compose, &TextMap::new());
    assert!(rels.is_empty(), "a non-existent build context must never produce a relationship");
}

#[test]
fn no_built_from_relationship_for_trivial_root_context() {
    let compose = "services:\n  api:\n    build:\n      context: .\n";
    let rels = built_from(&docker_enabled(), compose, &place(".", "/p"));
    assert!(rels.is_empty(), "context: . (the project's own root) must not produce a redundant relationship");
}

#[test]
fn no_built_from_relationship_when_docker_domain_disabled() {
    let rels = built_from(&PermissionConfig::default(), BACKEND, &place("./backend", "/p/backend"));
    assert!(rels.is_empty(), "docker disabled by default must yield no built_from relationship");
}

// --- concepts ---

#[test]
fn a_used_concept_is_active() {
    let idx = indexed(None, &[("schema.prisma", WIDGET), ("a.ts", "prisma.widget.findMany()")]);
    let a = ask(&idx, " widgets ");
    assert_eq!(a.verdict, Verdict::Active);
    assert_eq!(a.verdict.label(), "ACTIVE");
    assert_eq!(a.concept, "widgets");
    assert_eq!(a.canonical.as_deref(), Some("Widget"));
    assert_eq!(a.evidence.len(), 2);
    assert_eq!(a.evidence[0].what, "prisma declaration in schema.prisma");
    assert_eq!(a.evidence[1].what, "orm-client access in a.ts");
    assert_eq!(a.confidence, "high");
    assert!(a.recommendation.contains("already exists as 'Widget'"));
}

#[test]
fn an_unused_concept_is_declared_only() {
    let a = ask(&indexed(None, &[("schema.prisma", WIDGET)]), "Widget");
    assert_eq!(a.verdict, Verdict::DeclaredOnly);
    match a.detail {
        Detail::Declared(card) => {
            assert_eq!(card.table.as_deref(), Some("Widget"));
            assert_eq!(card.fields, ["id", "name"]);
            assert!(card.competing.is_empty());
        }
        other => panic!("{other:?}"),
    }
}

#[test]
fn an_alias_beats_a_name() {
    let idx = indexed(
        Some("[aliases]\ntheory = \"causal_hypotheses\"\n"),
        &[
            ("a.sql", "CREATE TABLE causal_hypotheses (id int);"),
            ("b.rs", "pub struct GameTheoryEngine {\n    pub x: u8,\n}\n"),
        ],
    );
    let a = ask(&idx, "theory");
    assert_eq!(a.canonical.as_deref(), Some("causal_hypotheses"));
    assert!(a.resolved_via_alias);
    assert!(a.evidence[0].what.contains("archietect.toml declares 'theory' = 'causal_hypotheses'"));
}

#[test]
fn an_alias_of_nothing_is_a_finding() {
    let idx = indexed(Some("[aliases]\nepisode = \"Nowhere\"\n"), &[]);
    let a = ask(&idx, "episode");
    assert_eq!(a.verdict, Verdict::Unknown);
    assert_eq!(a.canonical, None);
    assert!(a.recommendation.contains("Fix archietect.toml"));
}

#[test]
fn a_symbol_answers_where_no_concept_does() {
    let g = graph_of(vec![class("DashboardPage", "a.ts", 1), class("dashboardApi", "b.ts", 9)]);
    let a = concept(&Index::default(), &g, &alone(), "dashboardApi");
    assert_eq!(a.verdict, Verdict::InSource);
    assert_eq!(a.verdict.label(), "STRUCTURAL");
    assert_eq!(a.canonical.as_deref(), Some("dashboardApi"));
    assert_eq!(a.evidence[0].what, "Class declared in b.ts:9");
}

#[test]
fn a_route_answers_where_no_symbol_does() {
    let mut g = no_graph();
    g.routes.push(Route {
        method: "RPC".to_string(),
        path: "/Greeter/SayHello".to_string(),
        handler: "SayHello".to_string(),
        file: "hello.proto".to_string(),
        linked_concept: None,
    });
    let a = concept(&Index::default(), &g, &alone(), "SayHello");
    assert_eq!(a.verdict, Verdict::InSource);
    assert_eq!(a.canonical.as_deref(), Some("SayHello"));
    assert_eq!(a.evidence[0].what, "RPC /Greeter/SayHello route declared in hello.proto");
}

#[test]
fn resemblance_is_no_knowledge() {
    let around = Surroundings {
        files: names(&["src/payment.ts", "node_modules/payment/payment.js"]),
        unclassified: vec![],
        unsupported_exts: vec![],
    };
    let a = concept(&Index::default(), &no_graph(), &around, "payment");
    assert_eq!(a.verdict, Verdict::Unknown);
    assert_eq!(a.canonical, None);
    assert_eq!(a.evidence.len(), 1);
    assert_eq!(a.evidence[0].tier, Tier::Named);
    assert_eq!(a.evidence[0].what, "filename resemblance only: src/payment.ts");
}

#[test]
fn a_blind_spot_is_no_absence() {
    let around = Surroundings {
        files: vec![],
        unclassified: names(&["handler.lua"]),
        unsupported_exts: vec![],
    };
    let a = concept(&Index::default(), &no_graph(), &around, "payment");
    assert_eq!(a.verdict, Verdict::InsufficientCoverage);
    assert_eq!(a.verdict.label(), "INSUFFICIENT_COVERAGE");
    match a.detail {
        Detail::Reading(files, _) => assert_eq!(files, ["handler.lua"]),
        other => panic!("{other:?}"),
    }
}

#[test]
fn absent_where_nothing_was_missed() {
    let a = ask(&Index::default(), "payment");
    assert_eq!(a.verdict, Verdict::Absent);
    assert_eq!(a.canonical, None);
    assert!(a.evidence.is_empty());
}

#[test]
fn a_card_is_given_for_exact_names_only() {
    let idx = indexed(None, &[("schema.prisma", WIDGET)]);
    assert!(concept_card(&idx, &no_graph(), "Widget", "w").is_some());
    assert!(concept_card(&idx, &no_graph(), "widget", "w").is_none());
}

#[test]
fn a_few_lines_of_source() {
    let text = "a\nb\nc\nd\n";
    assert_eq!(source_snippet(text, 2, 1).as_deref(), Some("1: a\n2: b\n3: c"));
    assert_eq!(source_snippet(text, 4, 2).as_deref(), Some("2: b\n3: c\n4: d"));
    assert_eq!(source_snippet(text, 0, 2), None);
    assert_eq!(source_snippet(text, 5, 2), None);
}

// --- advice ---

#[test]
fn an_intent_is_sorted_by_what_exists() {
    let idx = indexed(None, &[("schema.prisma", WIDGET), ("a.ts", "prisma.widget.findMany()")]);
    assert_eq!(intent_terms("Add a rating to the widget, and a rating!"), ["rating", "widget"]);
    let i = intent(&idx, &alone(), "add rating to widget");
    assert_eq!(i.recognised, ["rating", "widget"]);
    assert_eq!(i.extend[0].canonical.as_deref(), Some("Widget"));
    assert_eq!(i.extend.len(), 1);
    assert_eq!(i.create, ["rating"]);
    assert!(i.needs_confirmation.is_empty());
}

#[test]
fn impact_on_structural_only_concept_does_not_panic() {
    let idx = indexed(None, &[("service.ts", "export class GovernanceClient {\n  doSomething() {}\n}\n")]);
    assert!(
        !idx.concepts.has("GovernanceClient"),
        "sanity: must be structural-only, not a schema concept"
    );
    let g = graph_of(vec![class("GovernanceClient", "service.ts", 1)]);
    match impact(&idx, &g, &alone(), "GovernanceClient", &TextMap::new()) {
        Impact::Known(reach) => {
            assert_eq!(reach.target, "GovernanceClient");
            assert!(reach.used_by_files.is_empty());
            assert!(reach.declared_dependents.is_empty());
            assert_eq!(reach.severity, Severity::NoneObserved);
        }
        other => panic!("{other:?}"),
    }
}

#[test]
fn impact_names_users_and_relations() {
    let idx = indexed(
        None,
        &[
            ("schema.prisma", "model Widget {\n  id Int\n}\nmodel Cart {\n  w Widget\n}\n"),
            ("a.ts", "prisma.widget.findMany()"),
        ],
    );
    let reach = TextMap::new().with(
        "Widget".to_string(),
        vec![Dependent { file: "b.ts".to_string(), depth: 1, via_symbols: names(&["load"]) }],
    );
    match impact(&idx, &no_graph(), &alone(), "widget", &reach) {
        Impact::Known(r) => {
            assert_eq!(r.target, "Widget");
            assert_eq!(r.used_by_files, ["a.ts"]);
            assert_eq!(r.declared_dependents, ["Cart"]);
            assert_eq!(r.structural_dependents.len(), 1);
        }
        other => panic!("{other:?}"),
    }
    assert!(matches!(
        impact(&idx, &no_graph(), &alone(), "payment", &TextMap::new()),
        Impact::Undeclared(_)
    ));
}

#[test]
fn imports_of_a_file_go_both_ways() {
    let mut g = no_graph();
    g.files = names(&["a.ts", "b.ts"]);
    g.imports.push(Import {
        from_file: "a.ts".to_string(),
        to_module: "./b".to_string(),
        names: names(&["x"]),
        resolved: Some(Relationship {
            from: Identity("a.ts".to_string()),
            kind: "imports".to_string(),
            to: Identity("b.ts".to_string()),
            evidence: archietect::model::Evidence {
                tier: Tier::Declared,
                what: "import in a.ts".to_string(),
            },
        }),
    });
    let a = imports(&g, "a.ts");
    assert!(a.known_to_this_scan);
    assert_eq!(a.imports.len(), 1);
    assert!(a.imported_by.is_empty());
    let b = imports(&g, "b.ts");
    assert_eq!(b.imported_by.len(), 1);
    assert_eq!(b.imported_by[0].0, "a.ts");
    assert!(!imports(&g, "c.ts").known_to_this_scan);
}

// --- ownership ---

#[test]
fn owner_on_structural_only_concept_finds_its_real_declaring_directory() {
    let idx = Index::default();
    let g = graph_of(vec![class("GovernanceClient", "services/governance-client.ts", 1)]);
    match owner(&idx, &g, &alone(), "GovernanceClient") {
        Owner::Known(o) => {
            assert_eq!(o.target, "GovernanceClient");
            assert_eq!(
                o.owner_directory.as_deref(),
                Some("services"),
                "must find the real declaring directory, not silently report null"
            );
        }
        other => panic!("{other:?}"),
    }
}

#[test]
fn owner_on_schema_concept_is_unaffected() {
    let idx = indexed(None, &[("schema.prisma", "model Widget {\n  id Int @id\n  name String\n}\n")]);
    match owner(&idx, &no_graph(), &alone(), "Widget") {
        Owner::Known(o) => assert_eq!(o.owner_directory.as_deref(), Some("schema.prisma")),
        other => panic!("{other:?}"),
    }
}

#[test]
fn the_first_segment_of_a_path() {
    assert_eq!(top_segment("src/a/b.rs"), "src");
    assert_eq!(top_segment("b.rs"), "b.rs");
    assert!(matches!(owner(&Index::default(), &no_graph(), &alone(), "payment"), Owner::Unowned(_)));
}

// --- the guard ---

#[test]
fn a_second_table_is_refused() {
    let idx = indexed(None, &[("schema.prisma", WIDGET), ("a.ts", "prisma.widget.findMany()")]);
    let r = guard(&idx, &alone(), "CREATE TABLE new_widgets (id int);");
    assert!(!r.allowed, "{r:?}");
    assert!(r.reason.contains("new_widgets"));
    assert_eq!(r.findings.len(), 1);
    assert_eq!(r.findings[0].canonical.as_deref(), Some("Widget"));
    let r = guard(&idx, &alone(), "CREATE TABLE Widget (id int);");
    assert!(r.allowed, "{r:?}");
    let r = guard(&idx, &alone(), "CREATE TABLE payments (id int);");
    assert!(r.allowed, "{r:?}");
    assert!(guard(&idx, &alone(), "SELECT 1").allowed);
}

#[test]
fn a_gate_stops_tables_and_warns_of_names() {
    let idx = indexed(None, &[("schema.prisma", WIDGET), ("a.ts", "prisma.widget.findMany()")]);
    let g = ci(&idx, &alone(), "+CREATE TABLE new_widgets (id int);\n", false);
    assert!(!g.pass);
    assert!(g.violation.is_some());
    assert_eq!(gate_event(&g).0, "ci_blocked");

    let g = ci(&idx, &alone(), "+class WidgetTwo(models.Model):\n", false);
    assert!(g.pass, "{g:?}");
    assert_eq!(g.warnings.len(), 1);
    assert_eq!(g.warnings[0].collides_with, "Widget");
    assert_eq!(gate_event(&g).0, "ci_passed");

    let g = ci(&idx, &alone(), "+class WidgetTwo(models.Model):\n", true);
    assert!(!g.pass);

    let g = ci(&idx, &alone(), "-CREATE TABLE new_widgets (id int);\n", true);
    assert!(g.pass && g.warnings.is_empty());
}

// --- surveys ---

#[test]
fn a_checkup_groups_what_is_declared() {
    let idx = indexed(
        Some("[[decision]]\nid = 'd1'\ndecision = 'x'\nbecause = 'y'\nlinks = []\n"),
        &[
            ("db/schema.prisma", "model Widget {\n  id Int\n}\nmodel Gadget {\n  id Int\n}\n"),
            ("a.ts", "prisma.widget.findMany()"),
        ],
    );
    let d = doctor(&idx);
    assert_eq!(d.domains.get("db").unwrap().n, 1);
    assert_eq!(d.top_concepts[0].name, "Widget");
    assert_eq!(d.top_concepts[0].uses, 1);
    assert_eq!(d.declared_but_never_observed_in_use, ["Gadget"]);
    let t = tour(&idx);
    assert_eq!(t.important_concepts[0].name, "Widget");
    assert_eq!(t.probably_ignorable, ["Gadget"]);
    assert_eq!(t.decisions_to_read.len(), 1);
}

#[test]
fn near_names_are_suspected() {
    let idx = indexed(
        None,
        &[
            ("a.prisma", "model Payment {\n  id Int\n}\n"),
            ("b.sql", "CREATE TABLE payment_records (id int);"),
        ],
    );
    let d = duplicates(&idx);
    let all = d.suspected_duplicates.len() + d.likely_same_concept_needs_alias.len();
    assert_eq!(all, 1, "{d:?}");
}

#[test]
fn a_glance_counts() {
    let idx = indexed(None, &[("schema.prisma", WIDGET)]);
    let g = glance(&idx, false);
    assert_eq!(g.concepts, 1);
    assert_eq!(g.declared_decisions, 0);
    assert_eq!(g.index, index_freshness(false));
}

#[test]
fn a_plan_extends_what_exists() {
    let idx = indexed(
        Some("[[decision]]\nid = 'd1'\ndecision = 'keep widgets small'\nbecause = 'y'\nlinks = ['Widget']\n"),
        &[("schema.prisma", WIDGET), ("a.ts", "prisma.widget.findMany()")],
    );
    let p = plan(&idx, &no_graph(), &alone(), "add rating to widget", &TextMap::new());
    assert_eq!(p.extend.len(), 1);
    assert_eq!(p.extend[0].canonical, "Widget");
    assert_eq!(p.extend[0].canonical_location.as_deref(), Some("schema.prisma"));
    assert_eq!(p.extend[0].affected_files, ["a.ts"]);
    assert_eq!(p.extend[0].existing_decisions.len(), 1);
    assert_eq!(p.genuinely_new, ["rating"]);
}

#[test]
fn a_glance_on_a_terminal() {
    let idx = indexed(None, &[("schema.prisma", WIDGET)]);
    let g = glance(&idx, true);
    let shown = glance_shown(&g, "demo", &vec![("ci_passed".to_string(), "commit".to_string())]);
    assert!(shown.starts_with("Repository: demo\n  1 concepts · 0 decisions · "), "{shown}");
    assert!(shown.contains("\nRecent architectural changes\n  ci_passed commit\n"), "{shown}");
    let quiet = glance_shown(&g, "demo", &vec![]);
    assert!(quiet.contains("(none recorded"), "{quiet}");
}

#[test]
fn users_elsewhere_move_no_owner() {
    let used = |files: &[&str]| {
        let c = Concept {
            name: "Widget".to_string(),
            declared_in: vec![("db/a.prisma".to_string(), "prisma".to_string())],
            usage: files.iter().map(|f| (f.to_string(), "orm-client".to_string())).collect(),
            ..Concept::default()
        };
        Index { concepts: TextMap::new().with("Widget".to_string(), c), ..Index::default() }
    };
    let owner_of = |idx: &Index| match owner(idx, &no_graph(), &alone(), "Widget") {
        Owner::Known(o) => o.owner_directory,
        Owner::Unowned(_) => None,
    };
    assert_eq!(owner_of(&used(&[])).as_deref(), Some("db"));
    assert_eq!(owner_of(&used(&["api/a", "api/b", "api/c", "api/d"])).as_deref(), Some("db"));
}

#[test]
fn shared_words_are_told_in_small_letters() {
    let table = |name: &str| Concept {
        name: name.to_string(),
        table: Some(name.to_string()),
        declared_in: vec![("f".to_string(), "prisma".to_string())],
        ..Concept::default()
    };
    let idx = Index {
        concepts: TextMap::new()
            .with("LedgerEntry".to_string(), table("LedgerEntry"))
            .with("LedgerLine".to_string(), table("LedgerLine")),
        ..Index::default()
    };
    assert_eq!(duplicates(&idx).suspected_duplicates[0].shared_token, "ledger");
    let g = ci(&idx, &alone(), "+class LedgerBook(models.Model):\n", false);
    assert_eq!(g.warnings[0].via_token, "ledger");
    assert!(g.warnings[0].advice.contains("`archietect concept ledger`"));
}
