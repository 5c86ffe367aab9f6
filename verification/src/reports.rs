//! Surveys, records and rulings as trees.
use vstd::prelude::*;
use crate::glance::Glance;
use crate::model::{DeclFragment, DeclFragmentView};
use crate::mutation::{
    Breach, BreachView, Evaluation, EvaluationView, Mutation, MutationView, SeenSymbol,
    SeenSymbolView, Thing, ThingView,
};
use crate::ownership::Count;
use crate::permissions::{
    is_denied, is_forbidden_component, is_secret_name, DomainReport, DomainReportView,
};
use crate::proposal::{acceptance_note, acceptance_words, Record, RecordView};
use crate::register::{DomainLine, DomainLineView, Gap, GapView, Register, RegisterView};
use crate::resource::{Relationship, RelationshipView, Resource};
use crate::seed::{Candidate, CandidateView, Seeding, SeedingView};
use crate::shown::{age_tree, blank, natural, text_or_nothing, whole};
use crate::shown::{age_shown, count_tree, text_tree, whole_tree, wide_tree, Page, Shown};
use crate::store::{Digest, DigestView, Event, EventView, Snapshot, SnapshotView};
use crate::survey::{
    Checkup, CheckupView, Duplicates, DuplicatesView, Pair, PairView, Section, Status, StatusView, Tour,
    TourView, UseCount, UseCountView,
};
use crate::table::TextMap;
use crate::text::{contains, decimal, lowered, split};
use crate::text::{number, owned, same};
use crate::tree::{lemma_list_view, Tree, TreeView};

verus! {

// ---------------------------------------------------------------------------
// The state of a repository
// ---------------------------------------------------------------------------

/// A domain's part of the status.
pub open spec fn section_tree(s: &Section) -> TreeView {
    let all = blank()
        .push(("enabled"@, TreeView::Flag(s.enabled)))
        .push(("resources"@, Vec::<Resource>::tree_of(s.resources.deep_view())));
    TreeView::Table(
        match s.note {
            Some(n) => all.push(("note"@, TreeView::Text(n@))),
            None => all,
        },
    )
}

/// Shows what a domain says.
pub fn section_shown(s: &Section) -> (r: Tree)
    ensures
        r.deep_view() == section_tree(s),
{
    let all = Page::new()
        .with("enabled", Tree::Flag(s.enabled))
        .with("resources", s.resources.shown());
    match &s.note {
        Some(n) => all.with_text("note", n.as_str()).done(),
        None => all.done(),
    }
}

/// The state of a repository, with what its domains say.
pub open spec fn status_tree(
    v: StatusView,
    coverage: TreeView,
    git: TreeView,
    docker: TreeView,
    links: Seq<RelationshipView>,
) -> TreeView {
    TreeView::Table(
        blank()
            .push(("root"@, TreeView::Text(v.root)))
            .push(("files_scanned"@, whole(v.files_scanned)))
            .push(
                (
                    "declaration_files"@,
                    Vec::<(String, String)>::tree_of(v.declaration_files),
                ),
            )
            .push(("concepts_declared"@, whole(v.concepts_declared)))
            .push(("concepts_with_observed_usage"@, whole(v.concepts_with_observed_usage)))
            .push(
                (
                    "declared_but_never_observed_in_use"@,
                    Vec::<String>::tree_of(v.declared_but_never_observed_in_use),
                ),
            )
            .push(("structural_coverage"@, coverage))
            .push(("git"@, git))
            .push(("docker"@, docker))
            .push(("relationships"@, Vec::<Relationship>::tree_of(links)))
            .push(
                (
                    "note"@,
                    TreeView::Text("'never observed in use' is evidence of absence at USED tier only — access styles v0 doesn't parse (raw drivers, GraphQL resolvers, services in other repos) are invisible. Stated so it cannot be mistaken for proof of death. See structural_coverage for which languages/frameworks in THIS repo Archietect can actually see structurally."@),
                ),
            ),
    )
}

/// Shows the state of a repository; `coverage` says which of its languages can be
/// read.
pub fn status_shown(
    s: &Status,
    coverage: &Tree,
    git: &Section,
    docker: &Section,
    links: &Vec<Relationship>,
) -> (r: Tree)
    ensures
        r.deep_view() == status_tree(
            s.deep_view(),
            coverage.deep_view(),
            section_tree(git),
            section_tree(docker),
            links.deep_view(),
        ),
{
    Page::new()
        .with_text("root", s.root.as_str())
        .with("files_scanned", count_tree(s.files_scanned))
        .with("declaration_files", s.declaration_files.shown())
        .with("concepts_declared", count_tree(s.concepts_declared))
        .with("concepts_with_observed_usage", count_tree(s.concepts_with_observed_usage))
        .with("declared_but_never_observed_in_use", s.declared_but_never_observed_in_use.shown())
        .with("structural_coverage", coverage.copy())
        .with("git", section_shown(git))
        .with("docker", section_shown(docker))
        .with("relationships", links.shown())
        .with_text("note", "'never observed in use' is evidence of absence at USED tier only — access styles v0 doesn't parse (raw drivers, GraphQL resolvers, services in other repos) are invisible. Stated so it cannot be mistaken for proof of death. See structural_coverage for which languages/frameworks in THIS repo Archietect can actually see structurally.")
        .done()
}

// ---------------------------------------------------------------------------
// Time
// ---------------------------------------------------------------------------

impl Shown for Event {
    open spec fn tree_of(v: EventView) -> TreeView {
        let all = blank()
            .push(("ts_ms"@, whole(v.ts_ms)))
            .push(("kind"@, TreeView::Text(v.kind)))
            .push(("concept"@, TreeView::Text(v.concept)))
            .push(("detail"@, v.detail));
        TreeView::Table(
            if v.archived {
                all.push(("archived"@, TreeView::Flag(true)))
            } else {
                all
            },
        )
    }

    fn shown(&self) -> Tree {
        let all = Page::new()
            .with("ts_ms", whole_tree(self.ts_ms))
            .with_text("kind", self.kind.as_str())
            .with_text("concept", self.concept.as_str())
            .with("detail", self.detail.copy());
        if self.archived {
            all.with("archived", Tree::Flag(true)).done()
        } else {
            all.done()
        }
    }
}

/// The timeline, or the part of it that touches a concept.
pub open spec fn history_tree(root: Seq<char>, concept: Option<Seq<char>>, events: Seq<EventView>) -> TreeView {
    TreeView::Table(
        blank()
            .push(("root"@, TreeView::Text(root)))
            .push(("concept"@, text_or_nothing(concept)))
            .push(("events"@, Vec::<Event>::tree_of(events)))
            .push(
                (
                    "note"@,
                    TreeView::Text("Append-only architectural timeline, newest first, written only by the daemon. Pass --include-archived to also see events moved by `history-archive`."@),
                ),
            ),
    )
}

/// Shows a timeline.
pub fn history_shown(root: &str, concept: &Option<String>, events: &Vec<Event>) -> (r: Tree)
    ensures
        r.deep_view() == history_tree(root@, concept.deep_view(), events.deep_view()),
{
    Page::new()
        .with_text("root", root)
        .with("concept", concept.shown())
        .with("events", events.shown())
        .with_text("note", "Append-only architectural timeline, newest first, written only by the daemon. Pass --include-archived to also see events moved by `history-archive`.")
        .done()
}

/// The timeline alone.
pub open spec fn events_tree(events: Seq<EventView>) -> TreeView {
    TreeView::Table(blank().push(("events"@, Vec::<Event>::tree_of(events))))
}

/// Shows a timeline alone.
pub fn events_shown(events: &Vec<Event>) -> (r: Tree)
    ensures
        r.deep_view() == events_tree(events.deep_view()),
{
    Page::new().with("events", events.shown()).done()
}

/// The timeline as a tool is told it: with a note on who writes it.
pub open spec fn tool_history_tree(events: Seq<EventView>) -> TreeView {
    TreeView::Table(
        blank().push(("events"@, Vec::<Event>::tree_of(events))).push(
            (
                "note"@,
                TreeView::Text("Append-only architectural timeline, newest first, written by the daemon, `archietect ci`, or an MCP client (mcp_client_connected on first tool call, mcp_client_active as a roughly-60s heartbeat thereafter)."@),
            ),
        ),
    )
}

/// Shows a timeline to a tool.
pub fn tool_history_shown(events: &Vec<Event>) -> (r: Tree)
    ensures
        r.deep_view() == tool_history_tree(events.deep_view()),
{
    Page::new()
        .with("events", events.shown())
        .with_text("note", "Append-only architectural timeline, newest first, written by the daemon, `archietect ci`, or an MCP client (mcp_client_connected on first tool call, mcp_client_active as a roughly-60s heartbeat thereafter).")
        .done()
}

/// The story of a time that something is known of.
pub open spec fn story_tree(v: DigestView, ages: Seq<(Seq<char>, Seq<char>)>) -> TreeView {
    TreeView::Table(
        blank()
            .push(("available"@, TreeView::Flag(true)))
            .push(("event_count"@, whole(v.event_count)))
            .push(("oldest_ms"@, whole(v.oldest_ms)))
            .push(("oldest_label"@, age_tree(ages, v.oldest_ms)))
            .push(("newest_ms"@, whole(v.newest_ms)))
            .push(("newest_label"@, age_tree(ages, v.newest_ms)))
            .push(("narrative"@, Vec::<String>::tree_of(v.narrative)))
            .push(("by_kind_count"@, TextMap::<Count>::tree_of(v.by_kind_count))),
    )
}

fn story(d: &Digest, ages: &TextMap<String>) -> (r: Tree)
    ensures
        r.deep_view() == story_tree(d.deep_view(), ages.deep_view()),
{
    Page::new()
        .with("available", Tree::Flag(true))
        .with("event_count", count_tree(d.event_count))
        .with("oldest_ms", whole_tree(d.oldest_ms))
        .with("oldest_label", age_shown(ages, d.oldest_ms))
        .with("newest_ms", whole_tree(d.newest_ms))
        .with("newest_label", age_shown(ages, d.newest_ms))
        .with("narrative", d.narrative.shown())
        .with("by_kind_count", d.by_kind_count.shown())
        .done()
}

/// The story of a time, or that there is none.
pub open spec fn digest_tree(d: Option<DigestView>, ages: Seq<(Seq<char>, Seq<char>)>) -> TreeView {
    match d {
        Some(d) => story_tree(d, ages),
        None => TreeView::Table(
            blank()
                .push(("available"@, TreeView::Flag(false)))
                .push(
                    (
                        "reason"@,
                        TreeView::Text(
                            "no history events recorded yet — the watch daemon or a CI run must produce at least one"@,
                        ),
                    ),
                ),
        ),
    }
}

/// Shows the story of a time; `ages` holds the words for moments.
pub fn digest_shown(d: &Option<Digest>, ages: &TextMap<String>) -> (r: Tree)
    ensures
        r.deep_view() == digest_tree(d.deep_view(), ages.deep_view()),
{
    match d {
        Some(d) => story(d, ages),
        None => Page::new()
            .with("available", Tree::Flag(false))
            .with_text(
                "reason",
                "no history events recorded yet — the watch daemon or a CI run must produce at least one",
            )
            .done(),
    }
}

/// What was recorded of a concept at a version, or last before it.
pub open spec fn snapshot_tree(
    v: SnapshotView,
    version: int,
    ages: Seq<(Seq<char>, Seq<char>)>,
) -> TreeView {
    TreeView::Table(
        blank()
            .push(("concept"@, TreeView::Text(v.concept)))
            .push(("requested_version"@, whole(version)))
            .push(("snapshot_version"@, whole(v.version)))
            .push(("exact_version_match"@, TreeView::Flag(v.version == version)))
            .push(("ts_ms"@, whole(v.ts_ms)))
            .push(("ts_label"@, age_tree(ages, v.ts_ms)))
            .push(("verdict"@, TreeView::Text(v.verdict.label_text())))
            .push(("table"@, text_or_nothing(v.table)))
            .push(("fields"@, Vec::<String>::tree_of(v.fields)))
            .push(("first_seen_ms"@, whole(v.first_seen_ms))),
    )
}

/// Shows what was recorded of a concept, to one who asked for a version.
pub fn snapshot_shown(s: &Snapshot, version: i64, ages: &TextMap<String>) -> (r: Tree)
    ensures
        r.deep_view() == snapshot_tree(s.deep_view(), version as int, ages.deep_view()),
{
    Page::new()
        .with_text("concept", s.concept.as_str())
        .with("requested_version", whole_tree(version))
        .with("snapshot_version", whole_tree(s.version))
        .with("exact_version_match", Tree::Flag(s.version == version))
        .with("ts_ms", whole_tree(s.ts_ms))
        .with("ts_label", age_shown(ages, s.ts_ms))
        .with_text("verdict", s.verdict.label())
        .with("table", s.table.shown())
        .with("fields", s.fields.shown())
        .with("first_seen_ms", whole_tree(s.first_seen_ms))
        .done()
}

// ---------------------------------------------------------------------------
// For newcomers
// ---------------------------------------------------------------------------

impl Shown for UseCount {
    open spec fn tree_of(v: UseCountView) -> TreeView {
        TreeView::Table(
            blank()
                .push(("concept"@, TreeView::Text(v.name)))
                .push(("observed_uses"@, natural(v.uses))),
        )
    }

    fn shown(&self) -> Tree {
        Page::new()
            .with_text("concept", self.name.as_str())
            .with("observed_uses", count_tree(self.uses))
            .done()
    }
}

pub open spec fn each_title() -> spec_fn((Seq<char>, Seq<char>)) -> TreeView {
    |e: (Seq<char>, Seq<char>)|
        TreeView::Table(
            blank()
                .push(("id"@, TreeView::Text(e.0)))
                .push(("decision"@, TreeView::Text(e.1))),
        )
}

fn titles(list: &Vec<(String, String)>) -> (r: Tree)
    ensures
        r.deep_view() == TreeView::List(list.deep_view().map_values(each_title())),
{
    let ghost all = list.deep_view().map_values(each_title());
    let mut out: Vec<Tree> = Vec::new();
    let mut i: usize = 0;
    while i < list.len()
        invariant
            i <= list.len(),
            all == list.deep_view().map_values(each_title()),
            out.deep_view() =~= all.take(i as int),
        decreases list.len() - i,
    {
        let ghost so_far = out.deep_view();
        let e = &list[i];
        assert(list.deep_view()[i as int] == e.deep_view());
        out.push(
            Page::new()
                    .with_text("id", e.0.as_str())
                    .with_text("decision", e.1.as_str())
                .done(),
        );
        assert(out.deep_view() =~= so_far.push(all[i as int]));
        i += 1;
    }
    assert(all.take(i as int) =~= all);
    proof {
        lemma_list_view(out);
    }
    Tree::List(out)
}

/// A summary of a repository, with what changed last.
pub open spec fn checkup_tree(v: CheckupView, recent: Seq<EventView>, coverage: TreeView) -> TreeView {
    TreeView::Table(
        blank()
            .push(("domains"@, TextMap::<Count>::tree_of(v.domains)))
            .push(("top_concepts"@, Vec::<UseCount>::tree_of(v.top_concepts)))
            .push(
                (
                    "declared_but_never_observed_in_use"@,
                    Vec::<String>::tree_of(v.declared_but_never_observed_in_use),
                ),
            )
            .push(("recent_architectural_changes"@, Vec::<Event>::tree_of(recent)))
            .push(
                (
                    "things_to_read"@,
                    TreeView::List(v.things_to_read.map_values(each_title())),
                ),
            )
            .push(("structural_coverage"@, coverage))
            .push(
                (
                    "counts"@,
                    TreeView::Table(
                    blank()
                        .push(("concepts"@, whole(v.concepts)))
                        .push(("files_scanned"@, whole(v.files_scanned)))
                        .push(("declared_decisions"@, whole(v.declared_decisions)))
                        .push(("declared_aliases"@, whole(v.declared_aliases))),
                ),
                ),
            )
            .push(
                (
                    "note"@,
                    TreeView::Text("Everything above is derived from declarations, usage, decisions and the timeline — nothing is generated prose. 'never observed in use' is evidence of absence at the USED tier only; verify before treating it as dead."@),
                ),
            ),
    )
}

/// Shows a summary of a repository.
pub fn checkup_shown(s: &Checkup, recent: &Vec<Event>, coverage: &Tree) -> (r: Tree)
    ensures
        r.deep_view() == checkup_tree(s.deep_view(), recent.deep_view(), coverage.deep_view()),
{
    let counts = Page::new()
        .with("concepts", count_tree(s.concepts))
        .with("files_scanned", count_tree(s.files_scanned))
        .with("declared_decisions", count_tree(s.declared_decisions))
        .with("declared_aliases", count_tree(s.declared_aliases));
    Page::new()
        .with("domains", s.domains.shown())
        .with("top_concepts", s.top_concepts.shown())
        .with("declared_but_never_observed_in_use", s.declared_but_never_observed_in_use.shown())
        .with("recent_architectural_changes", recent.shown())
        .with("things_to_read", titles(&s.things_to_read))
        .with("structural_coverage", coverage.copy())
        .with("counts", counts.done())
        .with_text("note", "Everything above is derived from declarations, usage, decisions and the timeline — nothing is generated prose. 'never observed in use' is evidence of absence at the USED tier only; verify before treating it as dead.")
        .done()
}

/// The concepts of a count, without their uses.
pub open spec fn each_counted() -> spec_fn(UseCountView) -> TreeView {
    |u: UseCountView| TreeView::Text(u.name)
}

/// The ids of decisions, without their texts.
pub open spec fn each_id() -> spec_fn((Seq<char>, Seq<char>)) -> TreeView {
    |d: (Seq<char>, Seq<char>)| TreeView::Text(d.0)
}

fn counted(list: &Vec<UseCount>) -> (r: Tree)
    ensures
        r.deep_view() == TreeView::List(list.deep_view().map_values(each_counted())),
{
    let ghost all = list.deep_view().map_values(each_counted());
    let mut out: Vec<Tree> = Vec::new();
    let mut i: usize = 0;
    while i < list.len()
        invariant
            i <= list.len(),
            all == list.deep_view().map_values(each_counted()),
            out.deep_view() =~= all.take(i as int),
        decreases list.len() - i,
    {
        let ghost so_far = out.deep_view();
        let e = &list[i];
        assert(list.deep_view()[i as int] == e.deep_view());
        out.push(text_tree(e.name.as_str()));
        assert(out.deep_view() =~= so_far.push(all[i as int]));
        i += 1;
    }
    assert(all.take(i as int) =~= all);
    proof {
        lemma_list_view(out);
    }
    Tree::List(out)
}

fn ids(list: &Vec<(String, String)>) -> (r: Tree)
    ensures
        r.deep_view() == TreeView::List(list.deep_view().map_values(each_id())),
{
    let ghost all = list.deep_view().map_values(each_id());
    let mut out: Vec<Tree> = Vec::new();
    let mut i: usize = 0;
    while i < list.len()
        invariant
            i <= list.len(),
            all == list.deep_view().map_values(each_id()),
            out.deep_view() =~= all.take(i as int),
        decreases list.len() - i,
    {
        let ghost so_far = out.deep_view();
        let e = &list[i];
        assert(list.deep_view()[i as int] == e.deep_view());
        out.push(text_tree(e.0.as_str()));
        assert(out.deep_view() =~= so_far.push(all[i as int]));
        i += 1;
    }
    assert(all.take(i as int) =~= all);
    proof {
        lemma_list_view(out);
    }
    Tree::List(out)
}

/// A tour of a repository.
pub open spec fn tour_tree(v: TourView, coverage: TreeView) -> TreeView {
    TreeView::Table(
        blank()
            .push(
                (
                    "important_concepts"@,
                    TreeView::List(v.important_concepts.map_values(each_counted())),
                ),
            )
            .push(("probably_ignorable"@, Vec::<String>::tree_of(v.probably_ignorable)))
            .push(("common_mistakes"@, Vec::<String>::tree_of(v.common_mistakes)))
            .push(
                (
                    "decisions_to_read"@,
                    TreeView::List(v.decisions_to_read.map_values(each_id())),
                ),
            )
            .push(("estimated_reading_minutes"@, whole(v.estimated_reading_minutes)))
            .push(("structural_coverage"@, coverage))
            .push(
                (
                    "note"@,
                    TreeView::Text("Derived entirely from declarations, usage, aliases and decisions — no generated prose, nothing to hallucinate. 'probably_ignorable' means no observed use at the USED tier; confirm before deleting anything."@),
                ),
            ),
    )
}

/// Shows a tour of a repository.
pub fn tour_shown(t: &Tour, coverage: &Tree) -> (r: Tree)
    ensures
        r.deep_view() == tour_tree(t.deep_view(), coverage.deep_view()),
{
    Page::new()
        .with("important_concepts", counted(&t.important_concepts))
        .with("probably_ignorable", t.probably_ignorable.shown())
        .with("common_mistakes", t.common_mistakes.shown())
        .with("decisions_to_read", ids(&t.decisions_to_read))
        .with("estimated_reading_minutes", wide_tree(t.estimated_reading_minutes))
        .with("structural_coverage", coverage.copy())
        .with_text("note", "Derived entirely from declarations, usage, aliases and decisions — no generated prose, nothing to hallucinate. 'probably_ignorable' means no observed use at the USED tier; confirm before deleting anything.")
        .done()
}

/// Two trees in a list.
pub open spec fn two(a: TreeView, b: TreeView) -> TreeView {
    TreeView::List(Seq::empty().push(a).push(b))
}

fn both(a: Tree, b: Tree) -> (r: Tree)
    ensures
        r.deep_view() == two(a.deep_view(), b.deep_view()),
{
    let mut out: Vec<Tree> = Vec::new();
    out.push(a);
    out.push(b);
    proof {
        lemma_list_view(out);
        assert(out.deep_view() =~= Seq::empty().push(a.deep_view()).push(b.deep_view()));
    }
    Tree::List(out)
}

impl Shown for Pair {
    open spec fn tree_of(v: PairView) -> TreeView {
        TreeView::Table(
            blank()
                .push(("concepts"@, two(TreeView::Text(v.first), TreeView::Text(v.second))))
                .push(("shared_token"@, TreeView::Text(v.shared_token)))
                .push(
                    (
                        "declared_in"@,
                        two(
                            Option::<(String, String)>::tree_of(v.first_declared),
                            Option::<(String, String)>::tree_of(v.second_declared),
                        ),
                    ),
                ),
        )
    }

    fn shown(&self) -> Tree {
        Page::new()
            .with("concepts", both(self.first.shown(), self.second.shown()))
            .with_text("shared_token", self.shared_token.as_str())
            .with("declared_in", both(self.first_declared.shown(), self.second_declared.shown()))
            .done()
    }
}

impl Shown for Duplicates {
    open spec fn tree_of(v: DuplicatesView) -> TreeView {
        TreeView::Table(
            blank()
                .push(("suspected_duplicates"@, Vec::<Pair>::tree_of(v.suspected_duplicates)))
                .push(
                    (
                        "likely_same_concept_needs_alias"@,
                        Vec::<Pair>::tree_of(v.likely_same_concept_needs_alias),
                    ),
                )
                .push(
                    (
                        "note"@,
                        TreeView::Text("suspected_duplicates: name-token overlap is evidence of RISK, not proof — related concepts legitimately share vocabulary (Article/ArticleComment); the pairs worth investigating are the ones that surprise you. likely_same_concept_needs_alias: an ORM model beside an sql-tier table sharing its name is probably ONE concept the merge law cannot fold without a declared table name — declare the mapping in archietect.toml [aliases] to link them."@),
                    ),
                ),
        )
    }

    fn shown(&self) -> Tree {
        Page::new()
            .with("suspected_duplicates", self.suspected_duplicates.shown())
            .with("likely_same_concept_needs_alias", self.likely_same_concept_needs_alias.shown())
            .with_text("note", "suspected_duplicates: name-token overlap is evidence of RISK, not proof — related concepts legitimately share vocabulary (Article/ArticleComment); the pairs worth investigating are the ones that surprise you. likely_same_concept_needs_alias: an ORM model beside an sql-tier table sharing its name is probably ONE concept the merge law cannot fold without a declared table name — declare the mapping in archietect.toml [aliases] to link them.")
            .done()
    }
}

/// The state of the architecture at a glance, with what changed last.
pub open spec fn glance_tree(
    g: &Glance,
    repository: Seq<char>,
    recent: Seq<EventView>,
    coverage: TreeView,
) -> TreeView {
    TreeView::Table(
        blank()
            .push(("repository"@, TreeView::Text(repository)))
            .push(
                (
                    "status"@,
                    TreeView::Table(
                    blank()
                        .push(("index"@, TreeView::Text(g.index@)))
                        .push(("concepts"@, whole(g.concepts as int)))
                        .push(("duplicate_storage_risks"@, whole(g.duplicate_storage_risks as int)))
                        .push(("ontology_warnings"@, whole(g.ontology_warnings as int)))
                        .push(("declared_decisions"@, whole(g.declared_decisions as int))),
                ),
                ),
            )
            .push(
                (
                    "onboarding"@,
                    match g.onboarding {
                    Some(t) => TreeView::Text(t@),
                    None => TreeView::Nothing,
                },
                ),
            )
            .push(("recent_changes"@, Vec::<Event>::tree_of(recent)))
            .push(("suggestions"@, Vec::<String>::tree_of(g.suggestions.deep_view())))
            .push(("structural_coverage"@, coverage))
            .push(
                (
                    "note"@,
                    TreeView::Text("No health score, deliberately: a composite nobody measured is an unmeasured number wearing a measured one's clothes. Every line above is a fact or derived from one."@),
                ),
            ),
    )
}

/// Shows the state of the architecture at a glance.
pub fn glance_page(g: &Glance, repository: &str, recent: &Vec<Event>, coverage: &Tree) -> (r: Tree)
    ensures
        r.deep_view() == glance_tree(g, repository@, recent.deep_view(), coverage.deep_view()),
{
    let status = Page::new()
        .with_text("index", g.index)
        .with("concepts", count_tree(g.concepts))
        .with("duplicate_storage_risks", count_tree(g.duplicate_storage_risks))
        .with("ontology_warnings", count_tree(g.ontology_warnings))
        .with("declared_decisions", count_tree(g.declared_decisions));
    let onboarding = match g.onboarding {
        Some(t) => text_tree(t),
        None => Tree::Nothing,
    };
    Page::new()
        .with_text("repository", repository)
        .with("status", status.done())
        .with("onboarding", onboarding)
        .with("recent_changes", recent.shown())
        .with("suggestions", g.suggestions.shown())
        .with("structural_coverage", coverage.copy())
        .with_text("note", "No health score, deliberately: a composite nobody measured is an unmeasured number wearing a measured one's clothes. Every line above is a fact or derived from one.")
        .done()
}

// ---------------------------------------------------------------------------
// What is not known
// ---------------------------------------------------------------------------

/// The entries of a gap beside its kind and what to do about it.
pub open spec fn gap_entries(v: GapView) -> Seq<(Seq<char>, TreeView)> {
    let head = blank().push(("kind"@, TreeView::Text(v.kind)));
    if v.kind == "unsupported_language"@ {
        head
            .push(("languages"@, Vec::<String>::tree_of(v.languages)))
            .push(("files"@, Vec::<String>::tree_of(v.items)))
            .push(("file_count"@, natural(v.count)))
    } else if v.kind == "usage_unobserved"@ {
        head
            .push(("concept_count"@, natural(v.count)))
            .push(("concepts"@, Vec::<String>::tree_of(v.items)))
    } else {
        let head = head.push(("domain"@, text_or_nothing(v.domain)));
        if v.kind == "tier_not_producible"@ {
            head.push(
                (
                    "tier"@,
                    match v.tier {
                        Some(t) => TreeView::Text(t.label_text()),
                        None => TreeView::Nothing,
                    },
                ),
            )
        } else if v.kind == "unstructured_domain_unconfirmed"@ {
            head
                .push(("configured"@, text_or_nothing(v.source)))
                .push(("confirmed"@, TreeView::Nothing))
        } else {
            head.push(("source"@, text_or_nothing(v.source)))
        }
    }
}

fn gap_page(g: &Gap) -> (r: Page)
    ensures
        r@ == gap_entries(g.deep_view()),
{
    let head = Page::new().with_text("kind", g.kind);
    if same(g.kind, "unsupported_language") {
        return head
            .with("languages", g.languages.shown())
            .with("files", g.items.shown())
            .with("file_count", count_tree(g.count));
    }
    if same(g.kind, "usage_unobserved") {
        return head.with("concept_count", count_tree(g.count)).with("concepts", g.items.shown());
    }
    let head = head.with("domain", g.domain.shown());
    if same(g.kind, "tier_not_producible") {
        let tier = match g.tier {
            Some(t) => text_tree(t.label()),
            None => Tree::Nothing,
        };
        return head.with("tier", tier);
    }
    if same(g.kind, "unstructured_domain_unconfirmed") {
        return head.with("configured", g.source.shown()).with("confirmed", Tree::Nothing);
    }
    head.with("source", g.source.shown())
}

impl Shown for Gap {
    open spec fn tree_of(v: GapView) -> TreeView {
        TreeView::Table(
            gap_entries(v)
                .push(("why"@, TreeView::Text(v.why)))
                .push(("how_to_establish"@, TreeView::Text(v.how_to_establish))),
        )
    }

    fn shown(&self) -> Tree {
        gap_page(self)
            .with_text("why", self.why)
            .with_text("how_to_establish", self.how_to_establish.as_str())
            .done()
    }
}

impl Shown for DomainReport {
    open spec fn tree_of(v: DomainReportView) -> TreeView {
        TreeView::Table(
            blank()
                .push(("domain"@, TreeView::Text(v.domain)))
                .push(("structured"@, TreeView::Flag(v.structured)))
                .push(("allowed"@, TreeView::Flag(v.allowed)))
                .push(("source"@, TreeView::Text(v.source.label_text()))),
        )
    }

    fn shown(&self) -> Tree {
        Page::new()
            .with_text("domain", self.domain.as_str())
            .with("structured", Tree::Flag(self.structured))
            .with("allowed", Tree::Flag(self.allowed))
            .with_text("source", self.source.label())
            .done()
    }
}

impl Shown for DomainLine {
    open spec fn tree_of(v: DomainLineView) -> TreeView {
        TreeView::Table(
            blank()
                .push(("domain"@, TreeView::Text(v.report.domain)))
                .push(("structured"@, TreeView::Flag(v.report.structured)))
                .push(("allowed"@, TreeView::Flag(v.report.allowed)))
                .push(("source"@, TreeView::Text(v.report.source.label_text())))
                .push(("confirmed"@, Option::<bool>::tree_of(v.confirmed))),
        )
    }

    fn shown(&self) -> Tree {
        Page::new()
            .with_text("domain", self.report.domain.as_str())
            .with("structured", Tree::Flag(self.report.structured))
            .with("allowed", Tree::Flag(self.report.allowed))
            .with_text("source", self.report.source.label())
            .with("confirmed", self.confirmed.shown())
            .done()
    }
}

/// Directories of keys.
pub open spec fn denied_components() -> Seq<Seq<char>> {
    Seq::empty()
        .push(".ssh"@)
        .push(".aws"@)
        .push(".gnupg"@)
}

/// Profiles of browsers.
pub open spec fn denied_profiles() -> Seq<Seq<char>> {
    Seq::empty()
        .push(".mozilla"@)
        .push("google-chrome"@)
        .push("chromium"@)
        .push("brave-browser"@)
        .push("BraveSoftware"@)
}

/// Parts of the names of secrets.
pub open spec fn denied_patterns() -> Seq<Seq<char>> {
    Seq::empty()
        .push("credential"@)
        .push("secret"@)
        .push(".pem"@)
        .push(".pfx"@)
        .push("id_rsa"@)
        .push("id_ed25519"@)
        .push("id_ecdsa"@)
}

/// The denials that no configuration lifts.
pub open spec fn denials_tree() -> TreeView {
    TreeView::Table(
        blank()
            .push(("path_components"@, Vec::<String>::tree_of(denied_components())))
            .push(("prefix_dirs"@, Vec::<String>::tree_of(denied_profiles())))
            .push(("filename_patterns"@, Vec::<String>::tree_of(denied_patterns()))),
    )
}

fn denials() -> (r: Tree)
    ensures
        r.deep_view() == denials_tree(),
{
    let mut path_components: Vec<String> = Vec::new();
    path_components.push(owned(".ssh"));
    path_components.push(owned(".aws"));
    path_components.push(owned(".gnupg"));
    assert(path_components.deep_view() =~= denied_components());
    let mut prefix_dirs: Vec<String> = Vec::new();
    prefix_dirs.push(owned(".mozilla"));
    prefix_dirs.push(owned("google-chrome"));
    prefix_dirs.push(owned("chromium"));
    prefix_dirs.push(owned("brave-browser"));
    prefix_dirs.push(owned("BraveSoftware"));
    assert(prefix_dirs.deep_view() =~= denied_profiles());
    let mut filename_patterns: Vec<String> = Vec::new();
    filename_patterns.push(owned("credential"));
    filename_patterns.push(owned("secret"));
    filename_patterns.push(owned(".pem"));
    filename_patterns.push(owned(".pfx"));
    filename_patterns.push(owned("id_rsa"));
    filename_patterns.push(owned("id_ed25519"));
    filename_patterns.push(owned("id_ecdsa"));
    assert(filename_patterns.deep_view() =~= denied_patterns());
    Page::new()
        .with("path_components", path_components.shown())
        .with("prefix_dirs", prefix_dirs.shown())
        .with("filename_patterns", filename_patterns.shown())
        .done()
}

/// The list of denials says what is denied: no path through a listed directory
/// may be read, nor a file with a listed part in its name.
pub proof fn law_listed_denials_hold(path: Seq<char>, i: int)
    requires
        0 <= i < split(path, '/').len(),
        denied_components().contains(split(path, '/')[i]) || denied_profiles().contains(
            split(path, '/')[i],
        ),
    ensures
        is_denied(path),
{
    let c = split(path, '/')[i];
    reveal_strlit(".ssh");
    reveal_strlit(".aws");
    reveal_strlit(".gnupg");
    reveal_strlit(".mozilla");
    reveal_strlit("google-chrome");
    reveal_strlit("chromium");
    reveal_strlit("brave-browser");
    reveal_strlit("BraveSoftware");
    reveal_strlit("bravesoftware");
    assert(is_forbidden_component(lowered(c))) by {
        assert(c == ".ssh"@ ==> lowered(c) =~= ".ssh"@);
        assert(c == ".aws"@ ==> lowered(c) =~= ".aws"@);
        assert(c == ".gnupg"@ ==> lowered(c) =~= ".gnupg"@);
        assert(c == ".mozilla"@ ==> lowered(c) =~= ".mozilla"@);
        assert(c == "google-chrome"@ ==> lowered(c) =~= "google-chrome"@);
        assert(c == "chromium"@ ==> lowered(c) =~= "chromium"@);
        assert(c == "brave-browser"@ ==> lowered(c) =~= "brave-browser"@);
        assert(c == "BraveSoftware"@ ==> lowered(c) =~= "bravesoftware"@);
    }
}

/// A name that holds a listed pattern is that of a secret.
pub proof fn law_listed_patterns_hold(name: Seq<char>, i: int)
    requires
        0 <= i < denied_patterns().len(),
        contains(name, denied_patterns()[i]),
    ensures
        is_secret_name(name),
{
}

/// What may be looked at.
pub open spec fn report_tree(list: Seq<DomainReportView>) -> TreeView {
    TreeView::Table(
        blank()
            .push(("domains"@, Vec::<DomainReport>::tree_of(list)))
            .push(("hardcoded_denials"@, denials_tree()))
            .push(
                (
                    "note"@,
                    TreeView::Text("Hardcoded denials are never overridable by any config, project or global — same pattern as proposal.rs's FORBIDDEN_EXACT/FORBIDDEN_PREFIX applied to the proposal protocol. An unstructured domain shown here as 'default-disabled' with no config entry may still be enabled at runtime via a one-time interactive confirmation (see domain_allowed_with_confirmation) — this report reflects config state only, not whether that confirmation has already happened."@),
                ),
            ),
    )
}

/// Shows what may be looked at.
pub fn report_shown(list: &Vec<DomainReport>) -> (r: Tree)
    ensures
        r.deep_view() == report_tree(list.deep_view()),
{
    Page::new()
        .with("domains", list.shown())
        .with("hardcoded_denials", denials())
        .with_text("note", "Hardcoded denials are never overridable by any config, project or global — same pattern as proposal.rs's FORBIDDEN_EXACT/FORBIDDEN_PREFIX applied to the proposal protocol. An unstructured domain shown here as 'default-disabled' with no config entry may still be enabled at runtime via a one-time interactive confirmation (see domain_allowed_with_confirmation) — this report reflects config state only, not whether that confirmation has already happened.")
        .done()
}

impl Shown for Register {
    open spec fn tree_of(v: RegisterView) -> TreeView {
        TreeView::Table(
            blank()
                .push(
                    (
                        "as_of"@,
                        TreeView::Table(
                            blank()
                                .push(("index"@, TreeView::Text(v.index)))
                                .push(
                                    (
                                        "newest_verification_ms"@,
                                        match v.newest_verification_ms {
                                            Some(t) => whole(t),
                                            None => TreeView::Nothing,
                                        },
                                    ),
                                ),
                        ),
                    ),
                )
                .push(
                    (
                        "known"@,
                        TreeView::Table(
                            blank()
                                .push(("files_scanned"@, whole(v.status.files_scanned)))
                                .push(("concepts_declared"@, whole(v.status.concepts_declared)))
                                .push(
                                    (
                                        "concepts_with_observed_usage"@,
                                        whole(v.status.concepts_with_observed_usage),
                                    ),
                                )
                                .push(
                                    ("domains_enabled"@, Vec::<String>::tree_of(v.domains_enabled)),
                                )
                                .push(
                                    (
                                        "see"@,
                                        TreeView::Text(
                                            "archietect status — this register summarizes; it does not duplicate"@,
                                        ),
                                    ),
                                ),
                        ),
                    ),
                )
                .push(("not_known"@, Vec::<Gap>::tree_of(v.not_known)))
                .push(
                    (
                        "boundary"@,
                        TreeView::Table(
                            blank()
                                .push(("hardcoded_denials"@, denials_tree()))
                                .push(("domains"@, Vec::<DomainLine>::tree_of(v.boundary))),
                        ),
                    ),
                )
                .push(
                    (
                        "note"@,
                        TreeView::Text("Read `not_known` before trusting any ABSENT: an entry here means a category of evidence was never looked at or cannot be produced, which is a boundary of this memory, not a fact about the world. Every entry names how to establish the fact without archietect."@),
                    ),
                ),
        )
    }

    fn shown(&self) -> Tree {
        let newest = match self.newest_verification_ms {
            Some(t) => whole_tree(t),
            None => Tree::Nothing,
        };
        let as_of = Page::new().with_text("index", self.index).with("newest_verification_ms", newest);
        let known = Page::new()
            .with("files_scanned", count_tree(self.status.files_scanned))
            .with("concepts_declared", count_tree(self.status.concepts_declared))
            .with(
                "concepts_with_observed_usage",
                count_tree(self.status.concepts_with_observed_usage),
            )
            .with("domains_enabled", self.domains_enabled.shown())
            .with_text("see", "archietect status — this register summarizes; it does not duplicate");
        let boundary = Page::new().with("hardcoded_denials", denials()).with(
            "domains",
            self.boundary.shown(),
        );
        Page::new()
            .with("as_of", as_of.done())
            .with("known", known.done())
            .with("not_known", self.not_known.shown())
            .with("boundary", boundary.done())
            .with_text("note", "Read `not_known` before trusting any ABSENT: an entry here means a category of evidence was never looked at or cannot be produced, which is a boundary of this memory, not a fact about the world. Every entry names how to establish the fact without archietect.")
            .done()
    }
}

// ---------------------------------------------------------------------------
// Seeds
// ---------------------------------------------------------------------------

impl Shown for Candidate {
    open spec fn tree_of(v: CandidateView) -> TreeView {
        TreeView::Table(
            blank()
                .push(("id"@, TreeView::Text(v.id)))
                .push(("decision"@, TreeView::Text(v.decision)))
                .push(("because"@, TreeView::Text(v.because))),
        )
    }

    fn shown(&self) -> Tree {
        Page::new()
            .with_text("id", self.id.as_str())
            .with_text("decision", self.decision.as_str())
            .with_text("because", self.because.as_str())
            .done()
    }
}

/// What seeding came to. `write` says whether it was to be written down, and
/// `proposed_by` who asked.
pub open spec fn seeding_tree(s: SeedingView, write: bool, proposed_by: Option<Seq<char>>) -> TreeView {
    match s {
        SeedingView::NoReadme => TreeView::Table(
            blank()
                .push(("available"@, TreeView::Flag(false)))
                .push(
                    (
                        "reason"@,
                        TreeView::Text("no README.md (or readme.md) found at this project's root"@),
                    ),
                ),
        ),
        SeedingView::NothingNew => TreeView::Table(
            blank()
                .push(("available"@, TreeView::Flag(true)))
                .push(("found"@, whole(0)))
                .push(("written"@, TreeView::Flag(false)))
                .push(
                    (
                        "note"@,
                        TreeView::Text(
                            "no new constraint/decision-shaped bullets found in README.md (or everything found is already declared)"@,
                        ),
                    ),
                ),
        ),
        SeedingView::Found(list, _) => TreeView::Table(
            blank()
                .push(("available"@, TreeView::Flag(true)))
                .push(("found"@, whole(list.len() as int)))
                .push(("written"@, TreeView::Flag(write)))
                .push(("proposed_by"@, text_or_nothing(proposed_by)))
                .push(("candidates"@, Vec::<Candidate>::tree_of(list)))
                .push(
                    (
                        "note"@,
                        TreeView::Text(
                            if write {
                                "appended to archietect.toml as new [[decision]] entries — re-run `archietect tour`/`register` to see them, and edit or delete any that don't hold up."@
                            } else {
                                "dry run — nothing written. Re-run with --write to append these to archietect.toml."@
                            },
                        ),
                    ),
                ),
        ),
    }
}

/// Shows what seeding came to.
pub fn seeding_shown(s: &Seeding, write: bool, proposed_by: &Option<String>) -> (r: Tree)
    ensures
        r.deep_view() == seeding_tree(s.deep_view(), write, proposed_by.deep_view()),
{
    match s {
        Seeding::NoReadme => Page::new()
            .with("available", Tree::Flag(false))
            .with_text("reason", "no README.md (or readme.md) found at this project's root")
            .done(),
        Seeding::NothingNew => Page::new()
            .with("available", Tree::Flag(true))
            .with("found", count_tree(0))
            .with("written", Tree::Flag(false))
            .with_text(
                "note",
                "no new constraint/decision-shaped bullets found in README.md (or everything found is already declared)",
            )
            .done(),
        Seeding::Found(list, _) => {
            let note = if write {
                "appended to archietect.toml as new [[decision]] entries — re-run `archietect tour`/`register` to see them, and edit or delete any that don't hold up."
            } else {
                "dry run — nothing written. Re-run with --write to append these to archietect.toml."
            };
            Page::new()
                .with("available", Tree::Flag(true))
                .with("found", count_tree(list.len()))
                .with("written", Tree::Flag(write))
                .with("proposed_by", proposed_by.shown())
                .with("candidates", list.shown())
                .with_text("note", note)
                .done()
        },
    }
}

// ---------------------------------------------------------------------------
// Patches
// ---------------------------------------------------------------------------

impl Shown for DeclFragment {
    open spec fn tree_of(v: DeclFragmentView) -> TreeView {
        TreeView::Table(
            blank()
                .push(("name"@, TreeView::Text(v.name)))
                .push(("kind"@, TreeView::Text(v.kind)))
                .push(("table"@, text_or_nothing(v.table)))
                .push(("fields"@, Vec::<String>::tree_of(v.fields)))
                .push(("relations"@, Vec::<String>::tree_of(v.relations))),
        )
    }

    fn shown(&self) -> Tree {
        Page::new()
            .with_text("name", self.name.as_str())
            .with_text("kind", self.kind.as_str())
            .with("table", self.table.shown())
            .with("fields", self.fields.shown())
            .with("relations", self.relations.shown())
            .done()
    }
}

impl Shown for SeenSymbol {
    open spec fn tree_of(v: SeenSymbolView) -> TreeView {
        TreeView::Table(
            blank()
                .push(("name"@, TreeView::Text(v.name)))
                .push(("kind"@, TreeView::Text(v.kind)))
                .push(("source"@, text_or_nothing(v.source)))
                .push(("observation_source"@, TreeView::Text(v.observation_source))),
        )
    }

    fn shown(&self) -> Tree {
        Page::new()
            .with_text("name", self.name.as_str())
            .with_text("kind", self.kind.as_str())
            .with("source", self.source.shown())
            .with_text("observation_source", self.observation_source.as_str())
            .done()
    }
}

impl Shown for Thing {
    open spec fn tree_of(v: ThingView) -> TreeView {
        match v {
            ThingView::Concept(d) => DeclFragment::tree_of(d),
            ThingView::Symbol(s) => SeenSymbol::tree_of(s),
            ThingView::Relationship(module, names) => TreeView::Table(
                blank()
                    .push(("module"@, TreeView::Text(module)))
                    .push(("names"@, Vec::<String>::tree_of(names))),
            ),
            ThingView::Route(r) => TreeView::Table(
                blank()
                    .push(("file"@, TreeView::Text(r.file)))
                    .push(("handler"@, TreeView::Text(r.handler)))
                    .push(("linked_concept"@, text_or_nothing(r.linked_concept)))
                    .push(("method"@, TreeView::Text(r.method)))
                    .push(("path"@, TreeView::Text(r.path))),
            ),
        }
    }

    fn shown(&self) -> Tree {
        match self {
            Thing::Concept(d) => d.shown(),
            Thing::Symbol(s) => s.shown(),
            Thing::Relationship(module, names) => Page::new()
                .with_text("module", module.as_str())
                .with("names", names.shown())
                .done(),
            Thing::Route(r) => Page::new()
                .with_text("file", r.file.as_str())
                .with_text("handler", r.handler.as_str())
                .with("linked_concept", r.linked_concept.shown())
                .with_text("method", r.method.as_str())
                .with_text("path", r.path.as_str())
                .done(),
        }
    }
}

impl Shown for Mutation {
    open spec fn tree_of(v: MutationView) -> TreeView {
        TreeView::Table(
            blank()
                .push(("resource"@, TreeView::Text(v.resource)))
                .push(("file"@, TreeView::Text(v.file)))
                .push(("object"@, TreeView::Text(v.object)))
                .push(("kind"@, TreeView::Text(v.kind.label_text())))
                .push(("before"@, Option::<Thing>::tree_of(v.before)))
                .push(("after"@, Option::<Thing>::tree_of(v.after)))
                .push(("evidence"@, Vec::<String>::tree_of(v.evidence)))
                .push(("dependent_files"@, Vec::<String>::tree_of(v.dependent_files)))
                .push(("decision_required"@, TreeView::Flag(v.decision_required)))
                .push(("governing_decisions"@, Vec::<String>::tree_of(v.governing_decisions)))
                .push(("supplied_decisions"@, Vec::<String>::tree_of(v.supplied_decisions))),
        )
    }

    fn shown(&self) -> Tree {
        Page::new()
            .with_text("resource", self.resource.as_str())
            .with_text("file", self.file.as_str())
            .with_text("object", self.object)
            .with_text("kind", self.kind.label())
            .with("before", self.before.shown())
            .with("after", self.after.shown())
            .with("evidence", self.evidence.shown())
            .with("dependent_files", self.dependent_files.shown())
            .with("decision_required", Tree::Flag(self.decision_required))
            .with("governing_decisions", self.governing_decisions.shown())
            .with("supplied_decisions", self.supplied_decisions.shown())
            .done()
    }
}

/// A change that stands against a patch.
pub open spec fn blocked_tree(kind: Seq<char>, m: MutationView) -> TreeView {
    TreeView::Table(
        blank()
            .push(("kind"@, TreeView::Text(kind)))
            .push(("resource"@, TreeView::Text(m.resource)))
            .push(("file"@, TreeView::Text(m.file)))
            .push(("mutation"@, TreeView::Text(m.kind.label_text())))
            .push(("evidence"@, Vec::<String>::tree_of(m.evidence)))
            .push(("governing_decisions"@, Vec::<String>::tree_of(m.governing_decisions)))
            .push(
                (
                    "required"@,
                    TreeView::Text(
                        "A changed decision in archietect.toml linked to this exact resource"@,
                    ),
                ),
            )
            .push(("next_command"@, TreeView::Text("archietect plan '"@ + m.resource + "'"@))),
    )
}

fn blocked(kind: &str, m: &Mutation) -> (r: Tree)
    ensures
        r.deep_view() == blocked_tree(kind@, m.deep_view()),
{
    let mut next = owned("archietect plan '");
    next.append(m.resource.as_str());
    next.append("'");
    Page::new()
        .with_text("kind", kind)
        .with_text("resource", m.resource.as_str())
        .with_text("file", m.file.as_str())
        .with_text("mutation", m.kind.label())
        .with("evidence", m.evidence.shown())
        .with("governing_decisions", m.governing_decisions.shown())
        .with_text("required", "A changed decision in archietect.toml linked to this exact resource")
        .with_text("next_command", next.as_str())
        .done()
}

/// Why a patch may not pass; `changes` are those that it makes.
pub open spec fn each_breach(changes: Seq<MutationView>) -> spec_fn(BreachView) -> TreeView {
    |b: BreachView|
        match b {
            BreachView::Unreadable => TreeView::Table(
                blank()
                    .push(("kind"@, TreeView::Text(Breach::label_of(b))))
                    .push(("reason"@, TreeView::Text("Cannot establish patch contents"@)))
                    .push(
                        (
                            "next_command"@,
                            TreeView::Text("git diff --full-index --no-ext-diff --no-textconv"@),
                        ),
                    ),
            ),
            BreachView::InvalidUpdate(e) => TreeView::Table(
                blank()
                    .push(("kind"@, TreeView::Text(Breach::label_of(b))))
                    .push(("reason"@, TreeView::Text(e))),
            ),
            BreachView::Unknown(i) => if 0 <= i < changes.len() {
                blocked_tree(Breach::label_of(b), changes[i])
            } else {
                TreeView::Nothing
            },
            BreachView::Undecided(i) => if 0 <= i < changes.len() {
                blocked_tree(Breach::label_of(b), changes[i])
            } else {
                TreeView::Nothing
            },
        }
}

fn breach(b: &Breach, changes: &Vec<Mutation>) -> (r: Tree)
    ensures
        r.deep_view() == each_breach(changes.deep_view())(b.deep_view()),
{
    match b {
        Breach::Unreadable => Page::new()
            .with_text("kind", b.label())
            .with_text("reason", "Cannot establish patch contents")
            .with_text("next_command", "git diff --full-index --no-ext-diff --no-textconv")
            .done(),
        Breach::InvalidUpdate(e) => Page::new()
            .with_text("kind", b.label())
            .with_text("reason", e.as_str())
            .done(),
        Breach::Unknown(i) => if *i < changes.len() {
            assert(changes.deep_view()[*i as int] == changes[*i as int].deep_view());
            blocked(b.label(), &changes[*i])
        } else {
            Tree::Nothing
        },
        Breach::Undecided(i) => if *i < changes.len() {
            assert(changes.deep_view()[*i as int] == changes[*i as int].deep_view());
            blocked(b.label(), &changes[*i])
        } else {
            Tree::Nothing
        },
    }
}

fn breaches(list: &Vec<Breach>, changes: &Vec<Mutation>) -> (r: Tree)
    ensures
        r.deep_view() == TreeView::List(
            list.deep_view().map_values(each_breach(changes.deep_view())),
        ),
{
    let ghost f = each_breach(changes.deep_view());
    let ghost all = list.deep_view().map_values(f);
    let mut out: Vec<Tree> = Vec::new();
    let mut i: usize = 0;
    while i < list.len()
        invariant
            i <= list.len(),
            f == each_breach(changes.deep_view()),
            all == list.deep_view().map_values(f),
            out.deep_view() =~= all.take(i as int),
        decreases list.len() - i,
    {
        let ghost so_far = out.deep_view();
        assert(list.deep_view()[i as int] == list[i as int].deep_view());
        out.push(breach(&list[i], changes));
        assert(out.deep_view() =~= so_far.push(all[i as int]));
        i += 1;
    }
    assert(all.take(i as int) =~= all);
    proof {
        lemma_list_view(out);
    }
    Tree::List(out)
}

impl Shown for Evaluation {
    open spec fn tree_of(v: EvaluationView) -> TreeView {
        TreeView::Table(
            blank()
                .push(
                    (
                        "status"@,
                        TreeView::Text(
                            if v.unknown {
                                "UNKNOWN"@
                            } else {
                                "OBSERVED"@
                            },
                        ),
                    ),
                )
                .push(("mutations"@, Vec::<Mutation>::tree_of(v.mutations)))
                .push(
                    (
                        "violations"@,
                        TreeView::List(v.violations.map_values(each_breach(v.mutations))),
                    ),
                ),
        )
    }

    fn shown(&self) -> Tree {
        let status = if self.unknown {
            "UNKNOWN"
        } else {
            "OBSERVED"
        };
        Page::new()
            .with_text("status", status)
            .with("mutations", self.mutations.shown())
            .with("violations", breaches(&self.violations, &self.mutations))
            .done()
    }
}

// ---------------------------------------------------------------------------
// Proposals
// ---------------------------------------------------------------------------

/// A proposal that was taken in, and what to do next.
pub open spec fn submitted_tree(r: RecordView, dir: Seq<char>) -> TreeView {
    TreeView::Table(
        blank()
            .push(("id"@, natural(r.id)))
            .push(("kind"@, TreeView::Text(r.kind.label_text())))
            .push(("status"@, TreeView::Text(r.status.label_text())))
            .push(("dir"@, TreeView::Text(dir)))
            .push(("next"@, TreeView::Text("archietect proposal test "@ + decimal(r.id))))
            .push(
                (
                    "note"@,
                    TreeView::Text(
                        "Recommend adding .archietect/proposals/ to .gitignore — these are local, pending artifacts, not committed source, until `accept` applies one to the working tree."@,
                    ),
                ),
            ),
    )
}

/// Shows a proposal that was taken in and is kept in `dir`.
pub fn submitted_shown(r: &Record, dir: &str) -> (out: Tree)
    ensures
        out.deep_view() == submitted_tree(r.deep_view(), dir@),
{
    let mut next = owned("archietect proposal test ");
    next.append(number(r.id).as_str());
    Page::new()
        .with("id", Tree::Number(number(r.id)))
        .with_text("kind", r.kind.label())
        .with_text("status", r.status.label())
        .with_text("dir", dir)
        .with_text("next", next.as_str())
        .with_text(
            "note",
            "Recommend adding .archietect/proposals/ to .gitignore — these are local, pending artifacts, not committed source, until `accept` applies one to the working tree.",
        )
        .done()
}

/// A proposal as it is listed.
#[derive(Debug)]
pub struct Listed {
    pub record: Record,
    pub title: String,
    pub language: Option<String>,
}

pub struct ListedView {
    pub record: RecordView,
    pub title: Seq<char>,
    pub language: Option<Seq<char>>,
}

impl DeepView for Listed {
    type V = ListedView;

    open spec fn deep_view(&self) -> ListedView {
        ListedView {
            record: self.record.deep_view(),
            title: self.title@,
            language: self.language.deep_view(),
        }
    }
}

impl Shown for Listed {
    open spec fn tree_of(v: ListedView) -> TreeView {
        TreeView::Table(
            blank()
                .push(("id"@, natural(v.record.id)))
                .push(("kind"@, TreeView::Text(v.record.kind.label_text())))
                .push(("status"@, TreeView::Text(v.record.status.label_text())))
                .push(("title"@, TreeView::Text(v.title)))
                .push(("language"@, text_or_nothing(v.language))),
        )
    }

    fn shown(&self) -> Tree {
        Page::new()
            .with("id", Tree::Number(number(self.record.id)))
            .with_text("kind", self.record.kind.label())
            .with_text("status", self.record.status.label())
            .with_text("title", self.title.as_str())
            .with("language", self.language.shown())
            .done()
    }
}

/// A proposal that was applied, and what is left to do.
pub open spec fn accepted_tree(r: RecordView) -> TreeView {
    TreeView::Table(
        blank()
            .push(("id"@, natural(r.id)))
            .push(("status"@, TreeView::Text(r.status.label_text())))
            .push(("note"@, TreeView::Text(acceptance_words(r.kind)))),
    )
}

/// Shows a proposal that was applied.
pub fn accepted_shown(r: &Record) -> (out: Tree)
    ensures
        out.deep_view() == accepted_tree(r.deep_view()),
{
    Page::new()
        .with("id", Tree::Number(number(r.id)))
        .with_text("status", r.status.label())
        .with_text("note", acceptance_note(r.kind).as_str())
        .done()
}

/// A proposal that was turned down, and whether its files are gone.
pub open spec fn rejected_tree(r: RecordView, purged: bool) -> TreeView {
    TreeView::Table(
        blank()
            .push(("id"@, natural(r.id)))
            .push(("status"@, TreeView::Text(r.status.label_text())))
            .push(("purged"@, TreeView::Flag(purged))),
    )
}

/// Shows a proposal that was turned down.
pub fn rejected_shown(r: &Record, purged: bool) -> (out: Tree)
    ensures
        out.deep_view() == rejected_tree(r.deep_view(), purged),
{
    Page::new()
        .with("id", Tree::Number(number(r.id)))
        .with_text("status", r.status.label())
        .with("purged", Tree::Flag(purged))
        .done()
}

} // verus!
