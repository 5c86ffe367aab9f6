//! Answers about terms, as trees.
use vstd::prelude::*;
use crate::advice::{
    Dependent, DependentView, Edges, EdgesView, Extension, ExtensionView, Impact, ImpactView, Intent,
    IntentView, Reach, ReachView,
};
use crate::glance::{Governing, GoverningView, Plan, PlanView, Step, StepView};
use crate::guard::{
    Finding, FindingView, Gate, GateView, Ruling, RulingView, Warning, WarningView,
};
use crate::model::Evidence;
use crate::ownership::{Owner, OwnerView, Ownership, OwnershipView, Weighted, WeightedView};
use crate::query::{excerpt, source_snippet};
use crate::query::{Answer, AnswerView, Card, CardView, Detail, DetailView, Verdict};
use crate::resource::{Relationship, RelationshipView};
use crate::shown::{age_tree, blank, natural, text_or_nothing, whole};
use crate::shown::{age_shown, count_tree, whole_tree, wide_tree, Page, Shown};
use crate::structural::{Route, Symbol, SymbolView};
use crate::table::{lookup, TextMap};
use crate::tree::{lemma_list_view, Tree, TreeView};

verus! {

// ---------------------------------------------------------------------------
// One term
// ---------------------------------------------------------------------------

/// The lines round a symbol, where the text of its file is at hand.
pub open spec fn each_excerpt(texts: Seq<(Seq<char>, Seq<char>)>) -> spec_fn(SymbolView) -> Option<
    TreeView,
> {
    |s: SymbolView|
        match lookup(texts, s.file) {
            Some(text) => match excerpt(text, s.line as int, 2) {
                Some(e) => Some(
                    TreeView::Table(
                        blank()
                            .push(("file"@, TreeView::Text(s.file)))
                            .push(("line"@, natural(s.line)))
                            .push(("excerpt"@, TreeView::Text(e))),
                    ),
                ),
                None => None,
            },
            None => None,
        }
}

fn excerpt_of(s: &Symbol, texts: &TextMap<String>) -> (r: Option<Tree>)
    ensures
        match r {
            Some(t) => each_excerpt(texts.deep_view())(s.deep_view()) == Some(t.deep_view()),
            None => each_excerpt(texts.deep_view())(s.deep_view()) is None,
        },
{
    match texts.get(s.file.as_str()) {
        Some(text) => match source_snippet(text.as_str(), s.line, 2) {
            Some(e) => Some(
                Page::new()
                    .with_text("file", s.file.as_str())
                    .with("line", count_tree(s.line))
                    .with_text("excerpt", e.as_str())
                    .done(),
            ),
            None => None,
        },
        None => None,
    }
}

fn excerpts(list: &Vec<Symbol>, texts: &TextMap<String>) -> (r: Tree)
    ensures
        r.deep_view() == TreeView::List(
            list.deep_view().filter_map(each_excerpt(texts.deep_view())),
        ),
{
    let ghost lv = list.deep_view();
    let ghost f = each_excerpt(texts.deep_view());
    let mut out: Vec<Tree> = Vec::new();
    let mut i: usize = 0;
    proof {
        assert(lv.take(0) =~= seq![]);
        reveal(Seq::filter_map);
    }
    while i < list.len()
        invariant
            i <= list.len(),
            lv == list.deep_view(),
            f == each_excerpt(texts.deep_view()),
            out.deep_view() =~= lv.take(i as int).filter_map(f),
        decreases list.len() - i,
    {
        let ghost so_far = out.deep_view();
        proof {
            lv.lemma_filter_map_take_succ(f, i as int);
        }
        assert(lv[i as int] == list[i as int].deep_view());
        match excerpt_of(&list[i], texts) {
            Some(t) => {
                let ghost tv = t.deep_view();
                out.push(t);
                assert(out.deep_view() =~= so_far.push(tv));
            },
            None => {},
        }
        i += 1;
    }
    assert(lv.take(i as int) =~= lv);
    proof {
        lemma_list_view(out);
    }
    Tree::List(out)
}

/// What to do about files that only a reader can judge.
pub open spec fn next_action(verdict: Verdict, read: Seq<Seq<char>>, question: Seq<char>) -> TreeView {
    let (escalation, universal) = if verdict == Verdict::InsufficientCoverage {
        (
            "If this language has no structural extractor at all, propose one via `archietect proposal submit --kind extractor` — it will be validated against the existing laws + invariants suite before anyone applies it."@,
            "That's for a missing extractor — a coverage gap, fixable locally. If instead this looks like a defect in Archietect itself (it should have understood this and didn't, in a way that would misfire on any codebase, not just this one), a local fix can't correct that. Report it: https://github.com/Neville777/Archietect/issues, with this query and its evidence attached."@,
        )
    } else {
        (
            "If this reflects a structural pattern rather than a one-off, propose an extractor or decision via `archietect proposal submit` instead of a one-off finding."@,
            "That proposal path is for LOCAL fixes (this project's own archietect.toml, or a new extractor only you run). If instead the actual problem looks like a defect in Archietect's own matching/ranking logic — something that would misfire on any codebase, not just this one — a local fix can't correct that. Report it instead: https://github.com/Neville777/Archietect/issues, with this query and its evidence attached."@,
        )
    };
    TreeView::Table(
        blank()
            .push(("type"@, TreeView::Text("ai_investigation"@)))
            .push(("read"@, Vec::<String>::tree_of(read)))
            .push(("question"@, TreeView::Text(question)))
            .push(
                (
                    "note"@,
                    TreeView::Text(
                        "Any finding from reading these files is provisional. It is not an Archietect fact, is not persisted, and does not change this verdict — that only happens if a human adds an extractor, an alias, or a decision."@,
                    ),
                ),
            )
            .push(("escalation"@, TreeView::Text(escalation)))
            .push(("if_universal_defect"@, TreeView::Text(universal))),
    )
}

fn reading(verdict: Verdict, read: &Vec<String>, question: &str) -> (r: Tree)
    ensures
        r.deep_view() == next_action(verdict, read.deep_view(), question@),
{
    let (escalation, universal) = match verdict {
        Verdict::InsufficientCoverage => (
            "If this language has no structural extractor at all, propose one via `archietect proposal submit --kind extractor` — it will be validated against the existing laws + invariants suite before anyone applies it.",
            "That's for a missing extractor — a coverage gap, fixable locally. If instead this looks like a defect in Archietect itself (it should have understood this and didn't, in a way that would misfire on any codebase, not just this one), a local fix can't correct that. Report it: https://github.com/Neville777/Archietect/issues, with this query and its evidence attached.",
        ),
        _ => (
            "If this reflects a structural pattern rather than a one-off, propose an extractor or decision via `archietect proposal submit` instead of a one-off finding.",
            "That proposal path is for LOCAL fixes (this project's own archietect.toml, or a new extractor only you run). If instead the actual problem looks like a defect in Archietect's own matching/ranking logic — something that would misfire on any codebase, not just this one — a local fix can't correct that. Report it instead: https://github.com/Neville777/Archietect/issues, with this query and its evidence attached.",
        ),
    };
    Page::new()
        .with_text("type", "ai_investigation")
        .with("read", read.shown())
        .with_text("question", question)
        .with_text(
            "note",
            "Any finding from reading these files is provisional. It is not an Archietect fact, is not persisted, and does not change this verdict — that only happens if a human adds an extractor, an alias, or a decision.",
        )
        .with_text("escalation", escalation)
        .with_text("if_universal_defect", universal)
        .done()
}

/// The entries of an answer about a declared concept.
pub open spec fn card_entries(
    head: Seq<(Seq<char>, TreeView)>,
    c: CardView,
    ages: Seq<(Seq<char>, Seq<char>)>,
) -> Seq<(Seq<char>, TreeView)> {
    let all = head
        .push(("table"@, text_or_nothing(c.table)))
        .push(("fields"@, Vec::<String>::tree_of(c.fields)))
        .push(("relations"@, Vec::<String>::tree_of(c.relations)))
        .push(("competing"@, Vec::<String>::tree_of(c.competing)))
        .push(("used_by_files"@, Vec::<String>::tree_of(c.used_by_files)))
        .push(("first_seen_ms"@, whole(c.first_seen_ms)))
        .push(("first_seen_label"@, age_tree(ages, c.first_seen_ms)))
        .push(("last_verified_ms"@, whole(c.last_verified_ms)))
        .push(("last_verified_label"@, age_tree(ages, c.last_verified_ms)));
    match c.linked {
        Some(l) => all
            .push(("structural_symbols"@, Vec::<Symbol>::tree_of(l.0)))
            .push(("structural_routes"@, Vec::<Route>::tree_of(l.1))),
        None => all,
    }
}

fn card_page(head: Page, c: &Card, ages: &TextMap<String>) -> (r: Page)
    ensures
        r@ == card_entries(head@, c.deep_view(), ages.deep_view()),
{
    let all = head
        .with("table", c.table.shown())
        .with("fields", c.fields.shown())
        .with("relations", c.relations.shown())
        .with("competing", c.competing.shown())
        .with("used_by_files", c.used_by_files.shown())
        .with("first_seen_ms", whole_tree(c.first_seen_ms))
        .with("first_seen_label", age_shown(ages, c.first_seen_ms))
        .with("last_verified_ms", whole_tree(c.last_verified_ms))
        .with("last_verified_label", age_shown(ages, c.last_verified_ms));
    match &c.linked {
        Some(l) => all.with("structural_symbols", l.0.shown()).with(
            "structural_routes",
            l.1.shown(),
        ),
        None => all,
    }
}

/// The entries of every answer.
pub open spec fn answer_head(a: AnswerView) -> Seq<(Seq<char>, TreeView)> {
    let all = blank()
        .push(("concept"@, TreeView::Text(a.concept)))
        .push(("verdict"@, TreeView::Text(a.verdict.label_text())))
        .push(("canonical"@, text_or_nothing(a.canonical)))
        .push(("evidence"@, Vec::<Evidence>::tree_of(a.evidence)))
        .push(("confidence"@, TreeView::Text(a.confidence)))
        .push(("recommendation"@, TreeView::Text(a.recommendation)));
    if a.resolved_via_alias {
        all.push(("resolved_via"@, TreeView::Text("alias"@)))
    } else {
        all
    }
}

/// An answer as a tree; `texts` holds the texts of files, from which the source
/// of symbols is quoted, and `ages` the words for moments.
pub open spec fn answer_tree(
    a: AnswerView,
    texts: Seq<(Seq<char>, Seq<char>)>,
    ages: Seq<(Seq<char>, Seq<char>)>,
) -> TreeView {
    let head = answer_head(a);
    TreeView::Table(
        match a.detail {
            DetailView::Nothing => head,
            DetailView::Declared(c) => card_entries(head, c, ages),
            DetailView::Routes(routes) => head.push(("routes"@, Vec::<Route>::tree_of(routes))),
            DetailView::Symbols(symbols, routes) => head
                .push(("routes"@, Vec::<Route>::tree_of(routes)))
                .push(("source"@, TreeView::List(symbols.filter_map(each_excerpt(texts))))),
            DetailView::Reading(files, question) => head.push(
                ("next_action"@, next_action(a.verdict, files, question)),
            ),
        },
    )
}

/// Shows an answer; `texts` holds the texts of the files whose symbols it quotes,
/// and `ages` the words for moments.
pub fn answer_shown(a: &Answer, texts: &TextMap<String>, ages: &TextMap<String>) -> (r: Tree)
    ensures
        r.deep_view() == answer_tree(a.deep_view(), texts.deep_view(), ages.deep_view()),
{
    let head = Page::new()
        .with_text("concept", a.concept.as_str())
        .with_text("verdict", a.verdict.label())
        .with("canonical", a.canonical.shown())
        .with("evidence", a.evidence.shown())
        .with_text("confidence", a.confidence)
        .with_text("recommendation", a.recommendation.as_str());
    let head = if a.resolved_via_alias {
        head.with_text("resolved_via", "alias")
    } else {
        head
    };
    let page = match &a.detail {
        Detail::Nothing => head,
        Detail::Declared(c) => card_page(head, c, ages),
        Detail::Routes(routes) => head.with("routes", routes.shown()),
        Detail::Symbols(symbols, routes) => head.with("routes", routes.shown()).with(
            "source",
            excerpts(symbols, texts),
        ),
        Detail::Reading(files, question) => head.with(
            "next_action",
            reading(a.verdict, files, question.as_str()),
        ),
    };
    page.done()
}

// ---------------------------------------------------------------------------
// Advice
// ---------------------------------------------------------------------------

impl Shown for Extension {
    open spec fn tree_of(v: ExtensionView) -> TreeView {
        TreeView::Table(
            blank()
                .push(("concept"@, TreeView::Text(v.concept)))
                .push(("canonical"@, text_or_nothing(v.canonical)))
                .push(("verdict"@, TreeView::Text(v.verdict.label_text())))
                .push(("relations"@, Vec::<String>::tree_of(v.relations))),
        )
    }

    fn shown(&self) -> Tree {
        Page::new()
            .with_text("concept", self.concept.as_str())
            .with("canonical", self.canonical.shown())
            .with_text("verdict", self.verdict.label())
            .with("relations", self.relations.shown())
            .done()
    }
}

pub open spec fn each_unconfirmed() -> spec_fn(Seq<char>) -> TreeView {
    |t: Seq<char>|
        TreeView::Table(
            blank()
                .push(("concept"@, TreeView::Text(t)))
                .push(("note"@, TreeView::Text("name-resemblance only — confirm by hand"@))),
        )
}

fn unconfirmed(list: &Vec<String>) -> (r: Tree)
    ensures
        r.deep_view() == TreeView::List(list.deep_view().map_values(each_unconfirmed())),
{
    let ghost all = list.deep_view().map_values(each_unconfirmed());
    let mut out: Vec<Tree> = Vec::new();
    let mut i: usize = 0;
    while i < list.len()
        invariant
            i <= list.len(),
            all == list.deep_view().map_values(each_unconfirmed()),
            out.deep_view() =~= all.take(i as int),
        decreases list.len() - i,
    {
        let ghost so_far = out.deep_view();
        assert(list.deep_view()[i as int] == list[i as int]@);
        out.push(
            Page::new()
                .with_text("concept", list[i].as_str())
                .with_text("note", "name-resemblance only — confirm by hand")
                .done(),
        );
        assert(out.deep_view() =~= so_far.push(all[i as int]));
        i += 1;
    }
    assert(all.take(i as int) =~= all);
    proof {
        lemma_list_view(out);
    }
    Tree::List(out)
}

impl Shown for Intent {
    open spec fn tree_of(v: IntentView) -> TreeView {
        TreeView::Table(
            blank()
                .push(("intent"@, TreeView::Text(v.intent)))
                .push(("recognised"@, Vec::<String>::tree_of(v.recognised)))
                .push(("extend"@, Vec::<Extension>::tree_of(v.extend)))
                .push(("create"@, Vec::<String>::tree_of(v.create)))
                .push(
                    (
                        "needs_confirmation"@,
                        TreeView::List(v.needs_confirmation.map_values(each_unconfirmed())),
                    ),
                )
                .push(("smallest_correct_change"@, TreeView::Text(v.smallest_correct_change))),
        )
    }

    fn shown(&self) -> Tree {
        Page::new()
            .with_text("intent", self.intent.as_str())
            .with("recognised", self.recognised.shown())
            .with("extend", self.extend.shown())
            .with("create", self.create.shown())
            .with("needs_confirmation", unconfirmed(&self.needs_confirmation))
            .with_text("smallest_correct_change", self.smallest_correct_change.as_str())
            .done()
    }
}

impl Shown for Dependent {
    open spec fn tree_of(v: DependentView) -> TreeView {
        TreeView::Table(
            blank()
                .push(("file"@, TreeView::Text(v.file)))
                .push(("depth"@, natural(v.depth)))
                .push(("via_symbols"@, Vec::<String>::tree_of(v.via_symbols))),
        )
    }

    fn shown(&self) -> Tree {
        Page::new()
            .with_text("file", self.file.as_str())
            .with("depth", count_tree(self.depth))
            .with("via_symbols", self.via_symbols.shown())
            .done()
    }
}

impl Shown for Reach {
    open spec fn tree_of(v: ReachView) -> TreeView {
        TreeView::Table(
            blank()
                .push(("target"@, TreeView::Text(v.target)))
                .push(("severity"@, TreeView::Text(v.severity.label_text())))
                .push(("used_by_files"@, Vec::<String>::tree_of(v.used_by_files)))
                .push(("declared_dependents"@, Vec::<String>::tree_of(v.declared_dependents)))
                .push(
                    (
                        "structural_dependents"@,
                        Vec::<Dependent>::tree_of(v.structural_dependents),
                    ),
                )
                .push(
                    (
                        "evidence_note"@,
                        TreeView::Text("used_by = observed ORM/SQL access (USED tier); dependents = schema-declared relations (DECLARED tier); structural_dependents = files that import an owner of this concept, via the structural graph (transitive, capped at depth 3)."@),
                    ),
                ),
        )
    }

    fn shown(&self) -> Tree {
        Page::new()
            .with_text("target", self.target.as_str())
            .with_text("severity", self.severity.label())
            .with("used_by_files", self.used_by_files.shown())
            .with("declared_dependents", self.declared_dependents.shown())
            .with("structural_dependents", self.structural_dependents.shown())
            .with_text("evidence_note", "used_by = observed ORM/SQL access (USED tier); dependents = schema-declared relations (DECLARED tier); structural_dependents = files that import an owner of this concept, via the structural graph (transitive, capped at depth 3).")
            .done()
    }
}

/// What a change to a target reaches; of a target that nothing declares, that
/// it is not known, and why.
pub open spec fn impact_tree(
    i: ImpactView,
    target: Seq<char>,
    texts: Seq<(Seq<char>, Seq<char>)>,
    ages: Seq<(Seq<char>, Seq<char>)>,
) -> TreeView {
    match i {
        ImpactView::Known(r) => Reach::tree_of(r),
        ImpactView::Undeclared(a) => TreeView::Table(
            blank()
                .push(("target"@, TreeView::Text(target)))
                .push(
                    ("impact"@, TreeView::Text("unknown — concept not declared in this project"@)),
                )
                .push(("detail"@, answer_tree(a, texts, ages))),
        ),
    }
}

/// Shows what a change to `target` reaches.
pub fn impact_shown(
    i: &Impact,
    target: &str,
    texts: &TextMap<String>,
    ages: &TextMap<String>,
) -> (r: Tree)
    ensures
        r.deep_view() == impact_tree(i.deep_view(), target@, texts.deep_view(), ages.deep_view()),
{
    match i {
        Impact::Known(r) => r.shown(),
        Impact::Undeclared(a) => Page::new()
            .with_text("target", target)
            .with_text("impact", "unknown — concept not declared in this project")
            .with("detail", answer_shown(a, texts, ages))
            .done(),
    }
}

pub open spec fn each_leaving() -> spec_fn(RelationshipView) -> TreeView {
    |e: RelationshipView|
        TreeView::Table(
            blank()
                .push(("to"@, TreeView::Text(e.to)))
                .push(("kind"@, TreeView::Text(e.kind)))
                .push(("evidence"@, Evidence::tree_of(e.evidence))),
        )
}

fn leavings(list: &Vec<Relationship>) -> (r: Tree)
    ensures
        r.deep_view() == TreeView::List(list.deep_view().map_values(each_leaving())),
{
    let ghost all = list.deep_view().map_values(each_leaving());
    let mut out: Vec<Tree> = Vec::new();
    let mut i: usize = 0;
    while i < list.len()
        invariant
            i <= list.len(),
            all == list.deep_view().map_values(each_leaving()),
            out.deep_view() =~= all.take(i as int),
        decreases list.len() - i,
    {
        let ghost so_far = out.deep_view();
        let e = &list[i];
        assert(list.deep_view()[i as int] == e.deep_view());
        out.push(
            Page::new()
                    .with_text("to", e.to.0.as_str())
                    .with_text("kind", e.kind.as_str())
                    .with("evidence", e.evidence.shown())
                .done(),
        );
        assert(out.deep_view() =~= so_far.push(all[i as int]));
        i += 1;
    }
    assert(all.take(i as int) =~= all);
    proof {
        lemma_list_view(out);
    }
    Tree::List(out)
}

pub open spec fn each_arriving() -> spec_fn((Seq<char>, RelationshipView)) -> TreeView {
    |e: (Seq<char>, RelationshipView)|
        TreeView::Table(
            blank()
                .push(("from"@, TreeView::Text(e.0)))
                .push(("kind"@, TreeView::Text(e.1.kind)))
                .push(("evidence"@, Evidence::tree_of(e.1.evidence))),
        )
}

fn arrivings(list: &Vec<(String, Relationship)>) -> (r: Tree)
    ensures
        r.deep_view() == TreeView::List(list.deep_view().map_values(each_arriving())),
{
    let ghost all = list.deep_view().map_values(each_arriving());
    let mut out: Vec<Tree> = Vec::new();
    let mut i: usize = 0;
    while i < list.len()
        invariant
            i <= list.len(),
            all == list.deep_view().map_values(each_arriving()),
            out.deep_view() =~= all.take(i as int),
        decreases list.len() - i,
    {
        let ghost so_far = out.deep_view();
        let e = &list[i];
        assert(list.deep_view()[i as int] == e.deep_view());
        out.push(
            Page::new()
                    .with_text("from", e.0.as_str())
                    .with_text("kind", e.1.kind.as_str())
                    .with("evidence", e.1.evidence.shown())
                .done(),
        );
        assert(out.deep_view() =~= so_far.push(all[i as int]));
        i += 1;
    }
    assert(all.take(i as int) =~= all);
    proof {
        lemma_list_view(out);
    }
    Tree::List(out)
}

impl Shown for Edges {
    open spec fn tree_of(v: EdgesView) -> TreeView {
        TreeView::Table(
            blank()
                .push(("file"@, TreeView::Text(v.file)))
                .push(("known_to_this_scan"@, TreeView::Flag(v.known_to_this_scan)))
                .push(("imports"@, TreeView::List(v.imports.map_values(each_leaving()))))
                .push(("imported_by"@, TreeView::List(v.imported_by.map_values(each_arriving()))))
                .push(
                    (
                        "note"@,
                        TreeView::Text("Only exact, unambiguous relative-import resolutions are reported — see Import::relationship in structural.rs. A file with real imports that don't appear here either targets an external package (out of scope: no reliable exact-resolution strategy without a language-specific package resolver) or resolved ambiguously (more than one scanned file matched, so nothing is claimed)."@),
                    ),
                ),
        )
    }

    fn shown(&self) -> Tree {
        Page::new()
            .with_text("file", self.file.as_str())
            .with("known_to_this_scan", Tree::Flag(self.known_to_this_scan))
            .with("imports", leavings(&self.imports))
            .with("imported_by", arrivings(&self.imported_by))
            .with_text("note", "Only exact, unambiguous relative-import resolutions are reported — see Import::relationship in structural.rs. A file with real imports that don't appear here either targets an external package (out of scope: no reliable exact-resolution strategy without a language-specific package resolver) or resolved ambiguously (more than one scanned file matched, so nothing is claimed).")
            .done()
    }
}

// ---------------------------------------------------------------------------
// Ownership
// ---------------------------------------------------------------------------

impl Shown for Weighted {
    open spec fn tree_of(v: WeightedView) -> TreeView {
        TreeView::Table(
            blank()
                .push(("dir"@, TreeView::Text(v.dir)))
                .push(("weight"@, whole(v.weight))),
        )
    }

    fn shown(&self) -> Tree {
        Page::new()
            .with_text("dir", self.dir.as_str())
            .with("weight", wide_tree(self.weight))
            .done()
    }
}

pub open spec fn each_site() -> spec_fn((Seq<char>, Seq<char>)) -> TreeView {
    |e: (Seq<char>, Seq<char>)|
        TreeView::Table(
            blank()
                .push(("file"@, TreeView::Text(e.0)))
                .push(("kind"@, TreeView::Text(e.1))),
        )
}

fn sites(list: &Vec<(String, String)>) -> (r: Tree)
    ensures
        r.deep_view() == TreeView::List(list.deep_view().map_values(each_site())),
{
    let ghost all = list.deep_view().map_values(each_site());
    let mut out: Vec<Tree> = Vec::new();
    let mut i: usize = 0;
    while i < list.len()
        invariant
            i <= list.len(),
            all == list.deep_view().map_values(each_site()),
            out.deep_view() =~= all.take(i as int),
        decreases list.len() - i,
    {
        let ghost so_far = out.deep_view();
        let e = &list[i];
        assert(list.deep_view()[i as int] == e.deep_view());
        out.push(
            Page::new()
                    .with_text("file", e.0.as_str())
                    .with_text("kind", e.1.as_str())
                .done(),
        );
        assert(out.deep_view() =~= so_far.push(all[i as int]));
        i += 1;
    }
    assert(all.take(i as int) =~= all);
    proof {
        lemma_list_view(out);
    }
    Tree::List(out)
}

impl Shown for Ownership {
    open spec fn tree_of(v: OwnershipView) -> TreeView {
        TreeView::Table(
            blank()
                .push(("target"@, TreeView::Text(v.target)))
                .push(("owner_directory"@, text_or_nothing(v.owner_directory)))
                .push(("because"@, text_or_nothing(v.because)))
                .push(
                    (
                        "declared_in"@,
                        if v.in_source {
                            TreeView::List(v.declared_in.map_values(each_site()))
                        } else {
                            Vec::<(String, String)>::tree_of(v.declared_in)
                        },
                    ),
                )
                .push(("ranked_directories"@, Vec::<Weighted>::tree_of(v.ranked_directories))),
        )
    }

    fn shown(&self) -> Tree {
        let declared_in = if self.in_source {
            sites(&self.declared_in)
        } else {
            self.declared_in.shown()
        };
        Page::new()
            .with_text("target", self.target.as_str())
            .with("owner_directory", self.owner_directory.shown())
            .with("because", self.because.shown())
            .with("declared_in", declared_in)
            .with("ranked_directories", self.ranked_directories.shown())
            .done()
    }
}

/// Who owns a target; of one that nobody owns, why.
pub open spec fn owner_tree(
    o: OwnerView,
    target: Seq<char>,
    texts: Seq<(Seq<char>, Seq<char>)>,
    ages: Seq<(Seq<char>, Seq<char>)>,
) -> TreeView {
    match o {
        OwnerView::Known(k) => Ownership::tree_of(k),
        OwnerView::Unowned(a) => TreeView::Table(
            blank()
                .push(("target"@, TreeView::Text(target)))
                .push(("owner"@, TreeView::Nothing))
                .push(("detail"@, answer_tree(a, texts, ages))),
        ),
    }
}

/// Shows who owns `target`.
pub fn owner_shown(
    o: &Owner,
    target: &str,
    texts: &TextMap<String>,
    ages: &TextMap<String>,
) -> (r: Tree)
    ensures
        r.deep_view() == owner_tree(o.deep_view(), target@, texts.deep_view(), ages.deep_view()),
{
    match o {
        Owner::Known(k) => k.shown(),
        Owner::Unowned(a) => Page::new()
            .with_text("target", target)
            .with("owner", Tree::Nothing)
            .with("detail", answer_shown(a, texts, ages))
            .done(),
    }
}

// ---------------------------------------------------------------------------
// Guards
// ---------------------------------------------------------------------------

impl Shown for Finding {
    open spec fn tree_of(v: FindingView) -> TreeView {
        TreeView::Table(
            blank()
                .push(("proposed_table"@, TreeView::Text(v.proposed_table)))
                .push(("concept_checked"@, TreeView::Text(v.concept_checked)))
                .push(("verdict"@, TreeView::Text(v.verdict.label_text())))
                .push(("canonical"@, text_or_nothing(v.canonical))),
        )
    }

    fn shown(&self) -> Tree {
        Page::new()
            .with_text("proposed_table", self.proposed_table.as_str())
            .with_text("concept_checked", self.concept_checked.as_str())
            .with_text("verdict", self.verdict.label())
            .with("canonical", self.canonical.shown())
            .done()
    }
}

impl Shown for Ruling {
    open spec fn tree_of(v: RulingView) -> TreeView {
        TreeView::Table(
            blank()
                .push(("allowed"@, TreeView::Flag(v.allowed)))
                .push(("reason"@, TreeView::Text(v.reason)))
                .push(("findings"@, Vec::<Finding>::tree_of(v.findings))),
        )
    }

    fn shown(&self) -> Tree {
        Page::new()
            .with("allowed", Tree::Flag(self.allowed))
            .with_text("reason", self.reason.as_str())
            .with("findings", self.findings.shown())
            .done()
    }
}

impl Shown for Warning {
    open spec fn tree_of(v: WarningView) -> TreeView {
        TreeView::Table(
            blank()
                .push(("kind"@, TreeView::Text("possible_duplicate_concept"@)))
                .push(("new_declaration"@, TreeView::Text(v.new_declaration)))
                .push(("collides_with"@, TreeView::Text(v.collides_with)))
                .push(("via_token"@, TreeView::Text(v.via_token)))
                .push(("advice"@, TreeView::Text(v.advice))),
        )
    }

    fn shown(&self) -> Tree {
        Page::new()
            .with_text("kind", "possible_duplicate_concept")
            .with_text("new_declaration", self.new_declaration.as_str())
            .with_text("collides_with", self.collides_with.as_str())
            .with_text("via_token", self.via_token.as_str())
            .with_text("advice", self.advice.as_str())
            .done()
    }
}

/// The violations of a gate: the ruling that refused, if one did.
pub open spec fn violations_tree(v: Option<RulingView>) -> TreeView {
    match v {
        Some(r) => TreeView::List(
            Seq::empty().push(
                TreeView::Table(
                    blank()
                        .push(("kind"@, TreeView::Text("duplicate_storage"@)))
                        .push(("reason"@, TreeView::Text(r.reason)))
                        .push(("findings"@, Vec::<Finding>::tree_of(r.findings))),
                ),
            ),
        ),
        None => TreeView::List(Seq::empty()),
    }
}

fn violations(v: &Option<Ruling>) -> (r: Tree)
    ensures
        r.deep_view() == violations_tree(v.deep_view()),
{
    let mut out: Vec<Tree> = Vec::new();
    match v {
        Some(r) => {
            out.push(
                Page::new()
                    .with_text("kind", "duplicate_storage")
                    .with_text("reason", r.reason.as_str())
                    .with("findings", r.findings.shown())
                    .done(),
            );
        },
        None => {},
    }
    proof {
        lemma_list_view(out);
        assert(out.deep_view() =~= violations_tree(v.deep_view())->List_0);
    }
    Tree::List(out)
}

impl Shown for Gate {
    open spec fn tree_of(v: GateView) -> TreeView {
        TreeView::Table(
            blank()
                .push(("pass"@, TreeView::Flag(v.pass)))
                .push(("violations"@, violations_tree(v.violation)))
                .push(("warnings"@, Vec::<Warning>::tree_of(v.warnings)))
                .push(("strict"@, TreeView::Flag(v.strict)))
                .push(
                    (
                        "note"@,
                        TreeView::Text("violations = CREATE TABLE colliding with an existing canonical (always fails). warnings = new declaration whose NAME collides (name evidence only; fails only under --strict, because related concepts legitimately share vocabulary)."@),
                    ),
                ),
        )
    }

    fn shown(&self) -> Tree {
        Page::new()
            .with("pass", Tree::Flag(self.pass))
            .with("violations", violations(&self.violation))
            .with("warnings", self.warnings.shown())
            .with("strict", Tree::Flag(self.strict))
            .with_text("note", "violations = CREATE TABLE colliding with an existing canonical (always fails). warnings = new declaration whose NAME collides (name evidence only; fails only under --strict, because related concepts legitimately share vocabulary).")
            .done()
    }
}

// ---------------------------------------------------------------------------
// Plans
// ---------------------------------------------------------------------------

impl Shown for Governing {
    open spec fn tree_of(v: GoverningView) -> TreeView {
        TreeView::Table(
            blank()
                .push(("id"@, TreeView::Text(v.id)))
                .push(("decision"@, TreeView::Text(v.decision)))
                .push(("rejected"@, Vec::<String>::tree_of(v.rejected))),
        )
    }

    fn shown(&self) -> Tree {
        Page::new()
            .with_text("id", self.id.as_str())
            .with_text("decision", self.decision.as_str())
            .with("rejected", self.rejected.shown())
            .done()
    }
}

impl Shown for Step {
    open spec fn tree_of(v: StepView) -> TreeView {
        TreeView::Table(
            blank()
                .push(("concept"@, TreeView::Text(v.concept)))
                .push(("canonical"@, TreeView::Text(v.canonical)))
                .push(("canonical_location"@, text_or_nothing(v.canonical_location)))
                .push(("related"@, Vec::<String>::tree_of(v.related)))
                .push(("existing_decisions"@, Vec::<Governing>::tree_of(v.existing_decisions)))
                .push(("impact_if_changed"@, TreeView::Text(v.impact_if_changed.label_text())))
                .push(("affected_files"@, Vec::<String>::tree_of(v.affected_files))),
        )
    }

    fn shown(&self) -> Tree {
        Page::new()
            .with_text("concept", self.concept.as_str())
            .with_text("canonical", self.canonical.as_str())
            .with("canonical_location", self.canonical_location.shown())
            .with("related", self.related.shown())
            .with("existing_decisions", self.existing_decisions.shown())
            .with_text("impact_if_changed", self.impact_if_changed.label())
            .with("affected_files", self.affected_files.shown())
            .done()
    }
}

impl Shown for Plan {
    open spec fn tree_of(v: PlanView) -> TreeView {
        TreeView::Table(
            blank()
                .push(("intent"@, TreeView::Text(v.intent)))
                .push(("extend"@, Vec::<Step>::tree_of(v.extend)))
                .push(("genuinely_new"@, Vec::<String>::tree_of(v.genuinely_new)))
                .push(
                    (
                        "needs_confirmation"@,
                        TreeView::List(v.needs_confirmation.map_values(each_unconfirmed())),
                    ),
                )
                .push(("recommendation"@, TreeView::Text(v.recommendation)))
                .push(("conflicts"@, TreeView::Text(v.conflicts)))
                .push(
                    (
                        "note"@,
                        TreeView::Text("Pure composition of intent/owner/impact/decisions — one call instead of five, because the skipped calls are always the ones that mattered. Deterministic; the guard still rules on the final patch."@),
                    ),
                ),
        )
    }

    fn shown(&self) -> Tree {
        Page::new()
            .with_text("intent", self.intent.as_str())
            .with("extend", self.extend.shown())
            .with("genuinely_new", self.genuinely_new.shown())
            .with("needs_confirmation", unconfirmed(&self.needs_confirmation))
            .with_text("recommendation", self.recommendation.as_str())
            .with_text("conflicts", self.conflicts)
            .with_text("note", "Pure composition of intent/owner/impact/decisions — one call instead of five, because the skipped calls are always the ones that mattered. Deterministic; the guard still rules on the final patch.")
            .done()
    }
}

} // verus!
