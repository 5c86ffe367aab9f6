//! What the project already has under a name: answers that carry their evidence
//! and say so where there is none.
use vstd::prelude::*;
use crate::model::{
    answers_to, concept_evidence, first_of, is_same_word, names_concept, same_word, shortened,
    Concept, ConceptView,
    Evidence, EvidenceView, Index, IndexView, Tier,
};
use crate::order::{
    in_order, insert_stable, is_ranking, law_sorting_orders, lemma_member_sorted,
    lemma_sorted_member, stable_sort, Ranked,
};
use crate::paths::{display_name, extension, lemma_split_nonempty, stem};
use crate::paths::{display_name_of, extension_of, stem_of};
use crate::scan::{is_excluded, skip_excluded};
use crate::scoring::{law_exact_outranks_token, rank, total_score};
use crate::structural::{
    symbol_fact, GraphView, Route, RouteView, StructuralGraph, Symbol, SymbolView,
};
use crate::table::{has_key, lookup, sorted, sorted_list, TextMap};
use crate::text::{before, decimal, join, lines, lowered, split, trim};
use crate::text::{lemma_before_irreflexive, lemma_before_total, lemma_before_transitive};
use crate::text::{
    copied, copied_option, joined, lines_of, listed, lowercase, number, owned, precedes, same,
    split_at_char, trimmed,
};

verus! {

/// How firmly the project has a thing.
#[derive(Clone, Copy, Debug, PartialEq, Eq, Structural)]
pub enum Verdict {
    /// Declared and observably used.
    Active,
    /// Declared, and nothing was seen to touch it.
    DeclaredOnly,
    /// A symbol or a route, no storage model.
    InSource,
    /// Nothing but a resemblance, or a declaration that leads nowhere.
    Unknown,
    /// Not seen, in a repository that holds files nobody can read.
    InsufficientCoverage,
    /// Not declared, not used, nothing resembles it.
    Absent,
}

impl Verdict {
    pub open spec fn label_text(self) -> Seq<char> {
        match self {
            Verdict::Active => "ACTIVE"@,
            Verdict::DeclaredOnly => "DECLARED_ONLY"@,
            Verdict::InSource => "STRUCTURAL"@,
            Verdict::Unknown => "UNKNOWN"@,
            Verdict::InsufficientCoverage => "INSUFFICIENT_COVERAGE"@,
            Verdict::Absent => "ABSENT"@,
        }
    }

    pub fn label(&self) -> (r: &'static str)
        ensures
            r@ == self.label_text(),
    {
        match self {
            Verdict::Active => "ACTIVE",
            Verdict::DeclaredOnly => "DECLARED_ONLY",
            Verdict::InSource => "STRUCTURAL",
            Verdict::Unknown => "UNKNOWN",
            Verdict::InsufficientCoverage => "INSUFFICIENT_COVERAGE",
            Verdict::Absent => "ABSENT",
        }
    }
}

/// What is known of a declared concept beside its evidence.
#[derive(Debug)]
pub struct Card {
    pub table: Option<String>,
    pub fields: Vec<String>,
    pub relations: Vec<String>,
    /// The other names that answer to the term, best first.
    pub competing: Vec<String>,
    pub used_by_files: Vec<String>,
    pub first_seen_ms: i64,
    pub last_verified_ms: i64,
    /// The symbols and routes that belong to the concept; given where it was
    /// reached by its exact name.
    pub linked: Option<(Vec<Symbol>, Vec<Route>)>,
}

pub struct CardView {
    pub table: Option<Seq<char>>,
    pub fields: Seq<Seq<char>>,
    pub relations: Seq<Seq<char>>,
    pub competing: Seq<Seq<char>>,
    pub used_by_files: Seq<Seq<char>>,
    pub first_seen_ms: int,
    pub last_verified_ms: int,
    pub linked: Option<(Seq<SymbolView>, Seq<RouteView>)>,
}

impl DeepView for Card {
    type V = CardView;

    open spec fn deep_view(&self) -> CardView {
        CardView {
            table: self.table.deep_view(),
            fields: self.fields.deep_view(),
            relations: self.relations.deep_view(),
            competing: self.competing.deep_view(),
            used_by_files: self.used_by_files.deep_view(),
            first_seen_ms: self.first_seen_ms as int,
            last_verified_ms: self.last_verified_ms as int,
            linked: self.linked.deep_view(),
        }
    }
}

/// What an answer holds beside its verdict and evidence.
#[derive(Debug)]
pub enum Detail {
    Nothing,
    Declared(Card),
    /// Routes whose handler answers to the term.
    Routes(Vec<Route>),
    /// The first symbols, to quote their source, and the routes beside them.
    Symbols(Vec<Symbol>, Vec<Route>),
    /// Files to read before anything is concluded, and what to ask of them.
    Reading(Vec<String>, String),
}

pub enum DetailView {
    Nothing,
    Declared(CardView),
    Routes(Seq<RouteView>),
    Symbols(Seq<SymbolView>, Seq<RouteView>),
    Reading(Seq<Seq<char>>, Seq<char>),
}

impl DeepView for Detail {
    type V = DetailView;

    open spec fn deep_view(&self) -> DetailView {
        match self {
            Detail::Nothing => DetailView::Nothing,
            Detail::Declared(c) => DetailView::Declared(c.deep_view()),
            Detail::Routes(r) => DetailView::Routes(r.deep_view()),
            Detail::Symbols(s, r) => DetailView::Symbols(s.deep_view(), r.deep_view()),
            Detail::Reading(f, q) => DetailView::Reading(f.deep_view(), q@),
        }
    }
}

/// The answer to a question about one term.
#[derive(Debug)]
pub struct Answer {
    pub concept: String,
    pub verdict: Verdict,
    pub canonical: Option<String>,
    pub resolved_via_alias: bool,
    pub evidence: Vec<Evidence>,
    pub detail: Detail,
    pub confidence: &'static str,
    pub recommendation: String,
}

pub struct AnswerView {
    pub concept: Seq<char>,
    pub verdict: Verdict,
    pub canonical: Option<Seq<char>>,
    pub resolved_via_alias: bool,
    pub evidence: Seq<EvidenceView>,
    pub detail: DetailView,
    pub confidence: Seq<char>,
    pub recommendation: Seq<char>,
}

impl DeepView for Answer {
    type V = AnswerView;

    open spec fn deep_view(&self) -> AnswerView {
        AnswerView {
            concept: self.concept@,
            verdict: self.verdict,
            canonical: self.canonical.deep_view(),
            resolved_via_alias: self.resolved_via_alias,
            evidence: self.evidence.deep_view(),
            detail: self.detail.deep_view(),
            confidence: self.confidence@,
            recommendation: self.recommendation@,
        }
    }
}

/// What lies on disk round an index: the paths of all files below its root, the
/// files in languages that nobody classified, and the endings of languages that
/// are known and not understood.
#[derive(Debug)]
pub struct Surroundings {
    pub files: Vec<String>,
    pub unclassified: Vec<String>,
    pub unsupported_exts: Vec<String>,
}

pub struct SurroundingsView {
    pub files: Seq<Seq<char>>,
    pub unclassified: Seq<Seq<char>>,
    pub unsupported_exts: Seq<Seq<char>>,
}

impl DeepView for Surroundings {
    type V = SurroundingsView;

    open spec fn deep_view(&self) -> SurroundingsView {
        SurroundingsView {
            files: self.files.deep_view(),
            unclassified: self.unclassified.deep_view(),
            unsupported_exts: self.unsupported_exts.deep_view(),
        }
    }
}

// ---------------------------------------------------------------------------
// Source excerpts
// ---------------------------------------------------------------------------

/// The first line, counted from nought, of an excerpt round `line`.
pub open spec fn excerpt_start(line: int, context: int) -> int {
    if line - 1 < context {
        0
    } else {
        line - 1 - context
    }
}

pub open spec fn excerpt_end(line: int, context: int, total: int) -> int {
    if line + context < total {
        line + context
    } else {
        total
    }
}

pub open spec fn each_numbered(ls: Seq<Seq<char>>) -> spec_fn(int) -> Seq<char> {
    |i: int| decimal((i + 1) as nat) + ": "@ + ls[i]
}

/// The numbered lines round a line of a text; nothing where there is no such line.
pub open spec fn excerpt(text: Seq<char>, line: int, context: int) -> Option<Seq<char>> {
    let ls = lines(text);
    if line < 1 || line > ls.len() {
        None
    } else {
        let from = excerpt_start(line, context);
        let to = excerpt_end(line, context, ls.len() as int);
        Some(join(Seq::new((to - from) as nat, |k: int| each_numbered(ls)(from + k)), "\n"@))
    }
}

/// The lines of `text` round `line`, each with its number.
pub fn source_snippet(text: &str, line: usize, context: usize) -> (r: Option<String>)
    ensures
        r.deep_view() == excerpt(text@, line as int, context as int),
{
    let ls = lines_of(text);
    let ghost lv = ls.deep_view();
    if line == 0 || line > ls.len() {
        return None;
    }
    let from: usize = if line - 1 < context {
        0
    } else {
        line - 1 - context
    };
    let to: usize = if context < ls.len() - line {
        line + context
    } else {
        ls.len()
    };
    let ghost all = Seq::new((to - from) as nat, |k: int| each_numbered(lv)(from + k));
    let mut out: Vec<String> = Vec::new();
    let mut i: usize = from;
    while i < to
        invariant
            from <= i <= to <= ls.len(),
            lv == ls.deep_view(),
            all == Seq::new((to - from) as nat, |k: int| each_numbered(lv)(from + k)),
            out.deep_view() =~= all.take(i - from),
        decreases to - i,
    {
        let ghost so_far = out.deep_view();
        let mut row = number((i + 1) as u64);
        row.append(": ");
        row.append(ls[i].as_str());
        assert(lv[i as int] == ls[i as int]@);
        assert(row@ == all[i - from]);
        out.push(row);
        assert(out.deep_view() =~= so_far.push(all[i - from]));
        i += 1;
    }
    assert(all.take(i - from) =~= all);
    assert(all =~= Seq::new(
        (excerpt_end(line as int, context as int, lv.len() as int) - excerpt_start(
            line as int,
            context as int,
        )) as nat,
        |k: int| each_numbered(lv)(excerpt_start(line as int, context as int) + k),
    ));
    Some(joined(&out, "\n"))
}

// ---------------------------------------------------------------------------
// Declared concepts
// ---------------------------------------------------------------------------

pub open spec fn verdict_of(c: ConceptView) -> Verdict {
    if c.usage.len() > 0 {
        Verdict::Active
    } else {
        Verdict::DeclaredOnly
    }
}

pub open spec fn confidence_of(c: ConceptView) -> Seq<char> {
    if c.usage.len() > 0 {
        "high"@
    } else {
        "medium — declared but no observed access; may be scaffolding"@
    }
}

pub open spec fn each_first() -> spec_fn((Seq<char>, Seq<char>)) -> Seq<char> {
    |p: (Seq<char>, Seq<char>)| p.0
}

pub open spec fn card_of(
    c: ConceptView,
    competing: Seq<Seq<char>>,
    linked: Option<(Seq<SymbolView>, Seq<RouteView>)>,
) -> CardView {
    CardView {
        table: c.table,
        fields: first_of(c.fields, 15),
        relations: c.relations,
        competing,
        used_by_files: first_of(c.usage.map_values(each_first()), 10),
        first_seen_ms: c.first_seen_ms,
        last_verified_ms: c.last_verified_ms,
        linked,
    }
}

pub open spec fn each_own_symbol(name: Seq<char>) -> spec_fn((Seq<char>, SymbolView)) -> Option<
    SymbolView,
> {
    |e: (Seq<char>, SymbolView)|
        if e.1.linked_concept == Some(name) {
            Some(e.1)
        } else {
            None
        }
}

pub open spec fn each_own_route(name: Seq<char>) -> spec_fn(RouteView) -> Option<RouteView> {
    |r: RouteView|
        if r.linked_concept == Some(name) {
            Some(r)
        } else {
            None
        }
}

pub open spec fn extend_advice(term: Seq<char>, name: Seq<char>) -> Seq<char> {
    "'"@ + term + "' already exists as '"@ + name
        + "'. Extend it; do not create a second implementation."@
}

pub open spec fn confirm_advice(term: Seq<char>, name: Seq<char>) -> Seq<char> {
    "'"@ + term + "' is declared as '"@ + name
        + "' but nothing observably uses it. Confirm whether it is scaffolding before extending OR replacing."@
}

/// The answer for a concept that is known by its exact name.
pub open spec fn exact_answer(
    idx: IndexView,
    graph: GraphView,
    name: Seq<char>,
    term: Seq<char>,
) -> AnswerView {
    let c = lookup(idx.concepts, name)->Some_0;
    AnswerView {
        concept: term,
        verdict: verdict_of(c),
        canonical: Some(name),
        resolved_via_alias: false,
        evidence: concept_evidence(c),
        detail: DetailView::Declared(
            card_of(
                c,
                seq![],
                Some(
                    (
                        first_of(graph.symbols.filter_map(each_own_symbol(name)), 10),
                        first_of(graph.routes.filter_map(each_own_route(name)), 10),
                    ),
                ),
            ),
        ),
        confidence: confidence_of(c),
        recommendation: extend_advice(term, name),
    }
}

/// A name that answers to a term, with its score.
#[derive(Debug)]
pub struct Scored {
    pub name: String,
    pub score: i32,
}

pub struct ScoredView {
    pub name: Seq<char>,
    pub score: int,
}

impl DeepView for Scored {
    type V = ScoredView;

    open spec fn deep_view(&self) -> ScoredView {
        ScoredView { name: self.name@, score: self.score as int }
    }
}

impl Ranked for Scored {
    open spec fn leads(a: ScoredView, b: ScoredView) -> bool {
        a.score > b.score
    }

    fn goes_before(&self, other: &Self) -> (r: bool) {
        self.score > other.score
    }
}

pub open spec fn each_candidate(term: Seq<char>) -> spec_fn((Seq<char>, ConceptView)) -> Option<
    ScoredView,
> {
    |e: (Seq<char>, ConceptView)|
        if answers_to(e.0, term) {
            Some(ScoredView { name: e.0, score: total_score(e.0, e.1, term) })
        } else {
            None
        }
}

/// The declared concepts that answer to a term, the best first.
pub open spec fn candidates(idx: IndexView, term: Seq<char>) -> Seq<ScoredView> {
    stable_sort::<Scored>(idx.concepts.filter_map(each_candidate(term)))
}

pub open spec fn each_name() -> spec_fn(ScoredView) -> Seq<char> {
    |s: ScoredView| s.name
}

/// The answer where the best of the candidates stands for the term.
pub open spec fn ranked_answer(idx: IndexView, term: Seq<char>, found: Seq<ScoredView>) -> AnswerView {
    let name = found[0].name;
    let c = lookup(idx.concepts, name)->Some_0;
    AnswerView {
        concept: term,
        verdict: verdict_of(c),
        canonical: Some(name),
        resolved_via_alias: false,
        evidence: concept_evidence(c),
        detail: DetailView::Declared(
            card_of(c, first_of(found.skip(1).map_values(each_name()), 5), None),
        ),
        confidence: confidence_of(c),
        recommendation: if c.usage.len() > 0 {
            extend_advice(term, name)
        } else {
            confirm_advice(term, name)
        },
    }
}

/// The first of each pair.
pub fn firsts(list: &Vec<(String, String)>) -> (r: Vec<String>)
    ensures
        r.deep_view() == list.deep_view().map_values(each_first()),
{
    let ghost all = list.deep_view().map_values(each_first());
    let mut out: Vec<String> = Vec::new();
    let mut i: usize = 0;
    while i < list.len()
        invariant
            i <= list.len(),
            all == list.deep_view().map_values(each_first()),
            out.deep_view() =~= all.take(i as int),
        decreases list.len() - i,
    {
        let ghost so_far = out.deep_view();
        assert(list.deep_view()[i as int] == list[i as int].deep_view());
        out.push(owned(list[i].0.as_str()));
        assert(out.deep_view() =~= so_far.push(all[i as int]));
        i += 1;
    }
    assert(all.take(i as int) =~= all);
    out
}

fn card(c: &Concept, competing: Vec<String>, linked: Option<(Vec<Symbol>, Vec<Route>)>) -> (r: Card)
    ensures
        r.deep_view() == card_of(c.deep_view(), competing.deep_view(), linked.deep_view()),
{
    Card {
        table: copied_option(&c.table),
        fields: shortened(copied(&c.fields), 15),
        relations: copied(&c.relations),
        competing,
        used_by_files: shortened(firsts(&c.usage), 10),
        first_seen_ms: c.first_seen_ms,
        last_verified_ms: c.last_verified_ms,
        linked,
    }
}

fn own_symbols(graph: &StructuralGraph, name: &str) -> (r: Vec<Symbol>)
    ensures
        r.deep_view() == graph.deep_view().symbols.filter_map(each_own_symbol(name@)),
{
    let ghost all = graph.symbols.deep_view();
    let ghost f = each_own_symbol(name@);
    let n: usize = graph.symbols.len();
    let mut out: Vec<Symbol> = Vec::new();
    let mut i: usize = 0;
    proof {
        assert(all.take(0) =~= seq![]);
        reveal(Seq::filter_map);
    }
    while i < n
        invariant
            i <= n,
            n == all.len(),
            all == graph.symbols.deep_view(),
            f == each_own_symbol(name@),
            out.deep_view() =~= all.take(i as int).filter_map(f),
        decreases n - i,
    {
        let ghost so_far = out.deep_view();
        proof {
            all.lemma_filter_map_take_succ(f, i as int);
        }
        let s = graph.symbols.value(i);
        if let Some(own) = &s.linked_concept {
            if same(own.as_str(), name) {
                out.push(s.copy());
                assert(out.deep_view() =~= so_far.push(s.deep_view()));
            }
        }
        i += 1;
    }
    assert(all.take(i as int) =~= all);
    out
}

fn own_routes(graph: &StructuralGraph, name: &str) -> (r: Vec<Route>)
    ensures
        r.deep_view() == graph.deep_view().routes.filter_map(each_own_route(name@)),
{
    let ghost all = graph.routes.deep_view();
    let ghost f = each_own_route(name@);
    let mut out: Vec<Route> = Vec::new();
    let mut i: usize = 0;
    proof {
        assert(all.take(0) =~= seq![]);
        reveal(Seq::filter_map);
    }
    while i < graph.routes.len()
        invariant
            i <= graph.routes.len(),
            all == graph.routes.deep_view(),
            f == each_own_route(name@),
            out.deep_view() =~= all.take(i as int).filter_map(f),
        decreases graph.routes.len() - i,
    {
        let ghost so_far = out.deep_view();
        proof {
            all.lemma_filter_map_take_succ(f, i as int);
        }
        let r = &graph.routes[i];
        assert(all[i as int] == r.deep_view());
        if let Some(own) = &r.linked_concept {
            if same(own.as_str(), name) {
                out.push(r.copy());
                assert(out.deep_view() =~= so_far.push(r.deep_view()));
            }
        }
        i += 1;
    }
    assert(all.take(i as int) =~= all);
    out
}

fn extend_text(term: &str, name: &str) -> (r: String)
    ensures
        r@ == extend_advice(term@, name@),
{
    let mut out = owned("'");
    out.append(term);
    out.append("' already exists as '");
    out.append(name);
    out.append("'. Extend it; do not create a second implementation.");
    out
}

fn confirm_text(term: &str, name: &str) -> (r: String)
    ensures
        r@ == confirm_advice(term@, name@),
{
    let mut out = owned("'");
    out.append(term);
    out.append("' is declared as '");
    out.append(name);
    out.append(
        "' but nothing observably uses it. Confirm whether it is scaffolding before extending OR replacing.",
    );
    out
}

fn verdict_for(c: &Concept) -> (r: Verdict)
    ensures
        r == verdict_of(c.deep_view()),
{
    assert(c.deep_view().usage.len() == c.usage@.len());
    if c.usage.len() > 0 {
        Verdict::Active
    } else {
        Verdict::DeclaredOnly
    }
}

fn confidence_for(c: &Concept) -> (r: &'static str)
    ensures
        r@ == confidence_of(c.deep_view()),
{
    assert(c.deep_view().usage.len() == c.usage@.len());
    if c.usage.len() > 0 {
        "high"
    } else {
        "medium — declared but no observed access; may be scaffolding"
    }
}

/// The answer for the concept of exactly this name, where there is one.
pub fn concept_card(idx: &Index, graph: &StructuralGraph, name: &str, term: &str) -> (r: Option<
    Answer,
>)
    ensures
        r.deep_view() == (if has_key(idx.deep_view().concepts, name@) {
            Some(exact_answer(idx.deep_view(), graph.deep_view(), name@, term@))
        } else {
            None
        }),
{
    match idx.concepts.get(name) {
        None => None,
        Some(c) => {
            let linked = (
                shortened(own_symbols(graph, name), 10),
                shortened(own_routes(graph, name), 10),
            );
            let none: Vec<String> = Vec::new();
            assert(none.deep_view() =~= seq![]);
            Some(
                Answer {
                    concept: owned(term),
                    verdict: verdict_for(c),
                    canonical: Some(owned(name)),
                    resolved_via_alias: false,
                    evidence: c.evidence(),
                    detail: Detail::Declared(card(c, none, Some(linked))),
                    confidence: confidence_for(c),
                    recommendation: extend_text(term, name),
                },
            )
        },
    }
}

fn candidates_for(idx: &Index, term: &str) -> (r: Vec<Scored>)
    ensures
        r.deep_view() == candidates(idx.deep_view(), term@),
{
    let ghost all = idx.concepts.deep_view();
    let ghost f = each_candidate(term@);
    let n: usize = idx.concepts.len();
    let mut out: Vec<Scored> = Vec::new();
    let mut i: usize = 0;
    proof {
        assert(all.take(0) =~= seq![]);
        reveal(Seq::filter_map);
    }
    while i < n
        invariant
            i <= n,
            n == all.len(),
            all == idx.concepts.deep_view(),
            f == each_candidate(term@),
            out.deep_view() =~= all.take(i as int).filter_map(f),
        decreases n - i,
    {
        let ghost so_far = out.deep_view();
        proof {
            all.lemma_filter_map_take_succ(f, i as int);
        }
        let name = idx.concepts.key(i);
        if names_concept(name, term) {
            let x = Scored { name: owned(name), score: rank(name, idx.concepts.value(i), term) };
            let ghost xv = x.deep_view();
            out.push(x);
            assert(out.deep_view() =~= so_far.push(xv));
        }
        i += 1;
    }
    assert(all.take(i as int) =~= all);
    in_order(out)
}

fn names_behind(found: &Vec<Scored>) -> (r: Vec<String>)
    requires
        found@.len() > 0,
    ensures
        r.deep_view() == found.deep_view().skip(1).map_values(each_name()),
{
    let ghost all = found.deep_view().skip(1).map_values(each_name());
    let mut out: Vec<String> = Vec::new();
    let mut i: usize = 1;
    while i < found.len()
        invariant
            1 <= i <= found.len(),
            all == found.deep_view().skip(1).map_values(each_name()),
            out.deep_view() =~= all.take(i - 1),
        decreases found.len() - i,
    {
        let ghost so_far = out.deep_view();
        assert(found.deep_view()[i as int] == found[i as int].deep_view());
        out.push(owned(found[i].name.as_str()));
        assert(out.deep_view() =~= so_far.push(all[i - 1]));
        i += 1;
    }
    assert(all.take(i - 1) =~= all);
    out
}

/// Every candidate is a declared concept that answers to the term.
pub proof fn lemma_candidate(idx: IndexView, term: Seq<char>, i: int)
    requires
        0 <= i < candidates(idx, term).len(),
    ensures
        has_key(idx.concepts, candidates(idx, term)[i].name),
        answers_to(candidates(idx, term)[i].name, term),
{
    let hits = idx.concepts.filter_map(each_candidate(term));
    let x = candidates(idx, term)[i];
    lemma_sorted_member::<Scored>(hits, i);
    idx.concepts.lemma_filter_map_contains(each_candidate(term), x);
}

fn ranked(idx: &Index, term: &str, found: &Vec<Scored>) -> (r: Answer)
    requires
        found@.len() > 0,
        has_key(idx.deep_view().concepts, found[0].name@),
    ensures
        r.deep_view() == ranked_answer(idx.deep_view(), term@, found.deep_view()),
{
    let name = found[0].name.as_str();
    assert(found.deep_view()[0] == found[0].deep_view());
    let place = idx.concepts.get(name);
    assert(place is Some);
    let c = place.unwrap();
    assert(c.deep_view().usage.len() == c.usage@.len());
    Answer {
        concept: owned(term),
        verdict: verdict_for(c),
        canonical: Some(owned(name)),
        resolved_via_alias: false,
        evidence: c.evidence(),
        detail: Detail::Declared(card(c, shortened(names_behind(found), 5), None)),
        confidence: confidence_for(c),
        recommendation: if c.usage.len() > 0 {
            extend_text(term, name)
        } else {
            confirm_text(term, name)
        },
    }
}

// ---------------------------------------------------------------------------
// Symbols and routes
// ---------------------------------------------------------------------------

/// A symbol that answers to a term, and whether it does so as a whole.
#[derive(Debug)]
pub struct Hit {
    pub symbol: Symbol,
    pub exact: bool,
}

pub struct HitView {
    pub symbol: SymbolView,
    pub exact: bool,
}

impl DeepView for Hit {
    type V = HitView;

    open spec fn deep_view(&self) -> HitView {
        HitView { symbol: self.symbol.deep_view(), exact: self.exact }
    }
}

impl Ranked for Hit {
    /// Exact names lead; then files and names in their order.
    open spec fn leads(a: HitView, b: HitView) -> bool {
        if a.exact != b.exact {
            a.exact
        } else if a.symbol.file != b.symbol.file {
            before(a.symbol.file, b.symbol.file)
        } else {
            before(a.symbol.name, b.symbol.name)
        }
    }

    fn goes_before(&self, other: &Self) -> (r: bool) {
        if self.exact != other.exact {
            self.exact
        } else if !same(self.symbol.file.as_str(), other.symbol.file.as_str()) {
            precedes(self.symbol.file.as_str(), other.symbol.file.as_str())
        } else {
            precedes(self.symbol.name.as_str(), other.symbol.name.as_str())
        }
    }
}

pub open spec fn each_hit(term: Seq<char>) -> spec_fn((Seq<char>, SymbolView)) -> Option<HitView> {
    |e: (Seq<char>, SymbolView)|
        if answers_to(e.1.name, term) {
            Some(HitView { symbol: e.1, exact: is_same_word(e.1.name, term) })
        } else {
            None
        }
}

/// The symbols that answer to a term, the best first.
pub open spec fn symbol_hits(graph: GraphView, term: Seq<char>) -> Seq<HitView> {
    stable_sort::<Hit>(graph.symbols.filter_map(each_hit(term)))
}

pub open spec fn each_handler(term: Seq<char>) -> spec_fn(RouteView) -> Option<RouteView> {
    |r: RouteView|
        if answers_to(r.handler, term) {
            Some(r)
        } else {
            None
        }
}

/// The first ten routes whose handler answers to a term.
pub open spec fn route_hits(graph: GraphView, term: Seq<char>) -> Seq<RouteView> {
    first_of(graph.routes.filter_map(each_handler(term)), 10)
}

pub open spec fn is_hit_file(hits: Seq<HitView>, file: Seq<char>) -> bool {
    exists|i: int| 0 <= i < hits.len() && (#[trigger] hits[i]).symbol.file == file
}

pub open spec fn each_beside(hits: Seq<HitView>, term: Seq<char>) -> spec_fn(RouteView) -> Option<
    RouteView,
> {
    |r: RouteView|
        if is_hit_file(hits, r.file) || answers_to(r.handler, term) {
            Some(r)
        } else {
            None
        }
}

pub open spec fn each_route_fact() -> spec_fn(RouteView) -> EvidenceView {
    |r: RouteView|
        EvidenceView {
            tier: Tier::Declared,
            what: r.method + " "@ + r.path + " route declared in "@ + r.file,
        }
}

pub open spec fn each_symbol_fact() -> spec_fn(HitView) -> EvidenceView {
    |h: HitView| symbol_fact(h.symbol)
}

pub open spec fn each_hit_symbol() -> spec_fn(HitView) -> SymbolView {
    |h: HitView| h.symbol
}

pub open spec fn route_answer(term: Seq<char>, routes: Seq<RouteView>) -> AnswerView {
    AnswerView {
        concept: term,
        verdict: Verdict::InSource,
        canonical: Some(routes[0].handler),
        resolved_via_alias: false,
        evidence: routes.map_values(each_route_fact()),
        detail: DetailView::Routes(routes),
        confidence: "high — found in source as a real route handler, not a declared data/schema model"@,
        recommendation: "'"@ + term
            + "' exists in source as a route/RPC handler but is not a schema/storage concept. Schema-concept ranking does not apply."@,
    }
}

pub open spec fn symbol_answer(graph: GraphView, term: Seq<char>, hits: Seq<HitView>) -> AnswerView {
    AnswerView {
        concept: term,
        verdict: Verdict::InSource,
        canonical: Some(hits[0].symbol.name),
        resolved_via_alias: false,
        evidence: first_of(hits.map_values(each_symbol_fact()), 10),
        detail: DetailView::Symbols(
            first_of(hits.map_values(each_hit_symbol()), 3),
            first_of(graph.routes.filter_map(each_beside(hits, term)), 10),
        ),
        confidence: "high — found in source as a real symbol, not a declared data/schema model"@,
        recommendation: "'"@ + term
            + "' exists in source but is not a schema/storage concept (it's a function, class, route, or similar). Schema-concept ranking does not apply."@,
    }
}

fn hits_for(graph: &StructuralGraph, term: &str) -> (r: Vec<Hit>)
    ensures
        r.deep_view() == symbol_hits(graph.deep_view(), term@),
{
    let ghost all = graph.symbols.deep_view();
    let ghost f = each_hit(term@);
    let n: usize = graph.symbols.len();
    let mut out: Vec<Hit> = Vec::new();
    let mut i: usize = 0;
    proof {
        assert(all.take(0) =~= seq![]);
        reveal(Seq::filter_map);
    }
    while i < n
        invariant
            i <= n,
            n == all.len(),
            all == graph.symbols.deep_view(),
            f == each_hit(term@),
            out.deep_view() =~= all.take(i as int).filter_map(f),
        decreases n - i,
    {
        let ghost so_far = out.deep_view();
        proof {
            all.lemma_filter_map_take_succ(f, i as int);
        }
        let s = graph.symbols.value(i);
        if names_concept(s.name.as_str(), term) {
            let x = Hit { symbol: s.copy(), exact: same_word(s.name.as_str(), term) };
            let ghost xv = x.deep_view();
            out.push(x);
            assert(out.deep_view() =~= so_far.push(xv));
        }
        i += 1;
    }
    assert(all.take(i as int) =~= all);
    in_order(out)
}

fn handlers_for(graph: &StructuralGraph, term: &str) -> (r: Vec<Route>)
    ensures
        r.deep_view() == route_hits(graph.deep_view(), term@),
{
    let ghost all = graph.routes.deep_view();
    let ghost f = each_handler(term@);
    let mut out: Vec<Route> = Vec::new();
    let mut i: usize = 0;
    proof {
        assert(all.take(0) =~= seq![]);
        reveal(Seq::filter_map);
    }
    while i < graph.routes.len()
        invariant
            i <= graph.routes.len(),
            all == graph.routes.deep_view(),
            f == each_handler(term@),
            out.deep_view() =~= all.take(i as int).filter_map(f),
        decreases graph.routes.len() - i,
    {
        let ghost so_far = out.deep_view();
        proof {
            all.lemma_filter_map_take_succ(f, i as int);
        }
        let r = &graph.routes[i];
        assert(all[i as int] == r.deep_view());
        if names_concept(r.handler.as_str(), term) {
            out.push(r.copy());
            assert(out.deep_view() =~= so_far.push(r.deep_view()));
        }
        i += 1;
    }
    assert(all.take(i as int) =~= all);
    shortened(out, 10)
}

fn hit_file(hits: &Vec<Hit>, file: &str) -> (r: bool)
    ensures
        r == is_hit_file(hits.deep_view(), file@),
{
    let mut i: usize = 0;
    while i < hits.len()
        invariant
            i <= hits.len(),
            forall|j: int| 0 <= j < i ==> (#[trigger] hits.deep_view()[j]).symbol.file != file@,
        decreases hits.len() - i,
    {
        assert(hits.deep_view()[i as int] == hits[i as int].deep_view());
        if same(hits[i].symbol.file.as_str(), file) {
            return true;
        }
        i += 1;
    }
    false
}

fn routes_beside(graph: &StructuralGraph, hits: &Vec<Hit>, term: &str) -> (r: Vec<Route>)
    ensures
        r.deep_view() == first_of(
            graph.deep_view().routes.filter_map(each_beside(hits.deep_view(), term@)),
            10,
        ),
{
    let ghost all = graph.routes.deep_view();
    let ghost f = each_beside(hits.deep_view(), term@);
    let mut out: Vec<Route> = Vec::new();
    let mut i: usize = 0;
    proof {
        assert(all.take(0) =~= seq![]);
        reveal(Seq::filter_map);
    }
    while i < graph.routes.len()
        invariant
            i <= graph.routes.len(),
            all == graph.routes.deep_view(),
            f == each_beside(hits.deep_view(), term@),
            out.deep_view() =~= all.take(i as int).filter_map(f),
        decreases graph.routes.len() - i,
    {
        let ghost so_far = out.deep_view();
        proof {
            all.lemma_filter_map_take_succ(f, i as int);
        }
        let r = &graph.routes[i];
        assert(all[i as int] == r.deep_view());
        if hit_file(hits, r.file.as_str()) || names_concept(r.handler.as_str(), term) {
            out.push(r.copy());
            assert(out.deep_view() =~= so_far.push(r.deep_view()));
        }
        i += 1;
    }
    assert(all.take(i as int) =~= all);
    shortened(out, 10)
}

fn route_facts(routes: &Vec<Route>) -> (r: Vec<Evidence>)
    ensures
        r.deep_view() == routes.deep_view().map_values(each_route_fact()),
{
    let ghost all = routes.deep_view().map_values(each_route_fact());
    let mut out: Vec<Evidence> = Vec::new();
    let mut i: usize = 0;
    while i < routes.len()
        invariant
            i <= routes.len(),
            all == routes.deep_view().map_values(each_route_fact()),
            out.deep_view() =~= all.take(i as int),
        decreases routes.len() - i,
    {
        let ghost so_far = out.deep_view();
        let r = &routes[i];
        assert(routes.deep_view()[i as int] == r.deep_view());
        let mut what = owned(r.method.as_str());
        what.append(" ");
        what.append(r.path.as_str());
        what.append(" route declared in ");
        what.append(r.file.as_str());
        out.push(Evidence { tier: Tier::Declared, what });
        assert(out.deep_view() =~= so_far.push(all[i as int]));
        i += 1;
    }
    assert(all.take(i as int) =~= all);
    out
}

fn symbol_facts(hits: &Vec<Hit>) -> (r: Vec<Evidence>)
    ensures
        r.deep_view() == hits.deep_view().map_values(each_symbol_fact()),
{
    let ghost all = hits.deep_view().map_values(each_symbol_fact());
    let mut out: Vec<Evidence> = Vec::new();
    let mut i: usize = 0;
    while i < hits.len()
        invariant
            i <= hits.len(),
            all == hits.deep_view().map_values(each_symbol_fact()),
            out.deep_view() =~= all.take(i as int),
        decreases hits.len() - i,
    {
        let ghost so_far = out.deep_view();
        assert(hits.deep_view()[i as int] == hits[i as int].deep_view());
        out.push(hits[i].symbol.evidence());
        assert(out.deep_view() =~= so_far.push(all[i as int]));
        i += 1;
    }
    assert(all.take(i as int) =~= all);
    out
}

fn hit_symbols(hits: &Vec<Hit>) -> (r: Vec<Symbol>)
    ensures
        r.deep_view() == hits.deep_view().map_values(each_hit_symbol()),
{
    let ghost all = hits.deep_view().map_values(each_hit_symbol());
    let mut out: Vec<Symbol> = Vec::new();
    let mut i: usize = 0;
    while i < hits.len()
        invariant
            i <= hits.len(),
            all == hits.deep_view().map_values(each_hit_symbol()),
            out.deep_view() =~= all.take(i as int),
        decreases hits.len() - i,
    {
        let ghost so_far = out.deep_view();
        assert(hits.deep_view()[i as int] == hits[i as int].deep_view());
        out.push(hits[i].symbol.copy());
        assert(out.deep_view() =~= so_far.push(all[i as int]));
        i += 1;
    }
    assert(all.take(i as int) =~= all);
    out
}

fn answer_by_routes(term: &str, routes: Vec<Route>) -> (r: Answer)
    requires
        routes@.len() > 0,
    ensures
        r.deep_view() == route_answer(term@, routes.deep_view()),
{
    let mut recommendation = owned("'");
    recommendation.append(term);
    recommendation.append(
        "' exists in source as a route/RPC handler but is not a schema/storage concept. Schema-concept ranking does not apply.",
    );
    assert(routes.deep_view()[0] == routes[0].deep_view());
    Answer {
        concept: owned(term),
        verdict: Verdict::InSource,
        canonical: Some(owned(routes[0].handler.as_str())),
        resolved_via_alias: false,
        evidence: route_facts(&routes),
        detail: Detail::Routes(routes),
        confidence: "high — found in source as a real route handler, not a declared data/schema model",
        recommendation,
    }
}

fn answer_by_symbols(graph: &StructuralGraph, term: &str, hits: &Vec<Hit>) -> (r: Answer)
    requires
        hits@.len() > 0,
    ensures
        r.deep_view() == symbol_answer(graph.deep_view(), term@, hits.deep_view()),
{
    let mut recommendation = owned("'");
    recommendation.append(term);
    recommendation.append(
        "' exists in source but is not a schema/storage concept (it's a function, class, route, or similar). Schema-concept ranking does not apply.",
    );
    assert(hits.deep_view()[0] == hits[0].deep_view());
    Answer {
        concept: owned(term),
        verdict: Verdict::InSource,
        canonical: Some(owned(hits[0].symbol.name.as_str())),
        resolved_via_alias: false,
        evidence: shortened(symbol_facts(hits), 10),
        detail: Detail::Symbols(
            shortened(hit_symbols(hits), 3),
            routes_beside(graph, hits, term),
        ),
        confidence: "high — found in source as a real symbol, not a declared data/schema model",
        recommendation,
    }
}

// ---------------------------------------------------------------------------
// Resemblance and blind spots
// ---------------------------------------------------------------------------

/// Directories whose files resemble nothing.
pub open spec fn is_unread_dir(name: Seq<char>) -> bool {
    name == "node_modules"@ || name == ".git"@ || name == "target"@ || name == "dist"@ || name
        == ".next"@ || name == "__pycache__"@
}

pub open spec fn is_hidden_at(parts: Seq<Seq<char>>, k: int, excludes: Seq<Seq<char>>) -> bool {
    is_unread_dir(parts[k]) || is_excluded(join(first_of(parts, k + 1), "/"@), excludes)
}

/// No directory on the way from the root to a file is passed over.
pub open spec fn is_seen(root: Seq<char>, path: Seq<char>, excludes: Seq<Seq<char>>) -> bool {
    let parts = split(path, '/');
    &&& !is_unread_dir(display_name(root))
    &&& !is_excluded(""@, excludes)
    &&& forall|k: int| 0 <= k < parts.len() - 1 ==> !#[trigger] is_hidden_at(parts, k, excludes)
}

pub open spec fn each_named(root: Seq<char>, excludes: Seq<Seq<char>>, term: Seq<char>) -> spec_fn(
    Seq<char>,
) -> Option<Seq<char>> {
    |f: Seq<char>|
        if is_seen(root, f, excludes) && answers_to(stem(f), term) {
            Some(f)
        } else {
            None
        }
}

/// The first ten files whose name answers to a term.
pub open spec fn named_files(idx: IndexView, files: Seq<Seq<char>>, term: Seq<char>) -> Seq<
    Seq<char>,
> {
    first_of(files.filter_map(each_named(idx.root, idx.excludes, term)), 10)
}

pub open spec fn each_resemblance() -> spec_fn(Seq<char>) -> EvidenceView {
    |f: Seq<char>|
        EvidenceView { tier: Tier::Named, what: "filename resemblance only: "@ + f }
}

pub open spec fn reading_question(term: Seq<char>) -> Seq<char> {
    "Do any of these files implement or represent '"@ + term + "'?"@
}

pub open spec fn named_answer(term: Seq<char>, files: Seq<Seq<char>>) -> AnswerView {
    AnswerView {
        concept: term,
        verdict: Verdict::Unknown,
        canonical: None,
        resolved_via_alias: false,
        evidence: files.map_values(each_resemblance()),
        detail: DetailView::Reading(files, reading_question(term)),
        confidence: "low — name resemblance is not an architectural fact"@,
        recommendation: "Needs human confirmation. Similarly named files exist but no schema declares this concept — inspect them before building anything."@,
    }
}

pub open spec fn each_unsupported(exts: Seq<Seq<char>>) -> spec_fn(Seq<char>) -> Option<Seq<char>> {
    |f: Seq<char>|
        match extension(f) {
            Some(e) => if exts.contains(lowered(e)) {
                Some(f)
            } else {
                None
            },
            None => None,
        }
}

/// The files that nothing here can read.
pub open spec fn blind_spots(graph: GraphView, around: SurroundingsView) -> Seq<Seq<char>> {
    graph.files.filter_map(each_unsupported(around.unsupported_exts)) + around.unclassified
}

pub open spec fn coverage_answer(term: Seq<char>, blind: Seq<Seq<char>>) -> AnswerView {
    AnswerView {
        concept: term,
        verdict: Verdict::InsufficientCoverage,
        canonical: None,
        resolved_via_alias: false,
        evidence: seq![],
        detail: DetailView::Reading(first_of(sorted(blind), 15), reading_question(term)),
        confidence: "unknown — this repository contains files in a language with no structural extractor; absence of evidence there is not evidence of absence"@,
        recommendation: "No declared, structural, or named evidence for '"@ + term
            + "' — but Archietect cannot see into some of this repo's source at all. This is not a confirmed absence; see next_action."@,
    }
}

pub open spec fn absent_answer(term: Seq<char>) -> AnswerView {
    AnswerView {
        concept: term,
        verdict: Verdict::Absent,
        canonical: None,
        resolved_via_alias: false,
        evidence: seq![],
        detail: DetailView::Nothing,
        confidence: "high — no declaration, no observed usage, no name resemblance"@,
        recommendation: "Genuinely new for this project. Building it is justified."@,
    }
}

/// Whether the files of a directory resemble nothing.
pub fn unread_dir(name: &str) -> (r: bool)
    ensures
        r == is_unread_dir(name@),
{
    same(name, "node_modules") || same(name, ".git") || same(name, "target") || same(name, "dist")
        || same(name, ".next") || same(name, "__pycache__")
}

fn seen(root: &str, path: &str, excludes: &Vec<String>) -> (r: bool)
    ensures
        r == is_seen(root@, path@, excludes.deep_view()),
{
    let parts = split_at_char(path, '/');
    let ghost pv = parts.deep_view();
    proof {
        lemma_split_nonempty(path@, '/');
    }
    if unread_dir(display_name_of(root).as_str()) || skip_excluded("", excludes) {
        return false;
    }
    let mut k: usize = 0;
    while k < parts.len() - 1
        invariant
            parts.len() > 0,
            k <= parts.len() - 1,
            pv == parts.deep_view(),
            pv == split(path@, '/'),
            forall|j: int| 0 <= j < k ==> !#[trigger] is_hidden_at(pv, j, excludes.deep_view()),
        decreases parts.len() - k,
    {
        assert(pv[k as int] == parts[k as int]@);
        let rel = joined(&shortened(copied(&parts), k + 1), "/");
        if unread_dir(parts[k].as_str()) || skip_excluded(rel.as_str(), excludes) {
            assert(is_hidden_at(pv, k as int, excludes.deep_view()));
            return false;
        }
        k += 1;
    }
    true
}

fn named_for(idx: &Index, files: &Vec<String>, term: &str) -> (r: Vec<String>)
    ensures
        r.deep_view() == named_files(idx.deep_view(), files.deep_view(), term@),
{
    let ghost all = files.deep_view();
    let ghost f = each_named(idx.root@, idx.excludes.deep_view(), term@);
    let mut out: Vec<String> = Vec::new();
    let mut i: usize = 0;
    proof {
        assert(all.take(0) =~= seq![]);
        reveal(Seq::filter_map);
    }
    while i < files.len()
        invariant
            i <= files.len(),
            all == files.deep_view(),
            f == each_named(idx.root@, idx.excludes.deep_view(), term@),
            out.deep_view() =~= all.take(i as int).filter_map(f),
        decreases files.len() - i,
    {
        let ghost so_far = out.deep_view();
        proof {
            all.lemma_filter_map_take_succ(f, i as int);
        }
        let file = files[i].as_str();
        assert(all[i as int] == file@);
        if seen(idx.root.as_str(), file, &idx.excludes) && names_concept(
            stem_of(file).as_str(),
            term,
        ) {
            out.push(owned(file));
            assert(out.deep_view() =~= so_far.push(file@));
        }
        i += 1;
    }
    assert(all.take(i as int) =~= all);
    shortened(out, 10)
}

fn resemblances(files: &Vec<String>) -> (r: Vec<Evidence>)
    ensures
        r.deep_view() == files.deep_view().map_values(each_resemblance()),
{
    let ghost all = files.deep_view().map_values(each_resemblance());
    let mut out: Vec<Evidence> = Vec::new();
    let mut i: usize = 0;
    while i < files.len()
        invariant
            i <= files.len(),
            all == files.deep_view().map_values(each_resemblance()),
            out.deep_view() =~= all.take(i as int),
        decreases files.len() - i,
    {
        let ghost so_far = out.deep_view();
        assert(files.deep_view()[i as int] == files[i as int]@);
        let mut what = owned("filename resemblance only: ");
        what.append(files[i].as_str());
        out.push(Evidence { tier: Tier::Named, what });
        assert(out.deep_view() =~= so_far.push(all[i as int]));
        i += 1;
    }
    assert(all.take(i as int) =~= all);
    out
}

fn question(term: &str) -> (r: String)
    ensures
        r@ == reading_question(term@),
{
    let mut out = owned("Do any of these files implement or represent '");
    out.append(term);
    out.append("'?");
    out
}

fn blind_for(graph: &StructuralGraph, around: &Surroundings) -> (r: Vec<String>)
    ensures
        r.deep_view() == blind_spots(graph.deep_view(), around.deep_view()),
{
    let ghost all = graph.files.deep_view();
    let ghost f = each_unsupported(around.unsupported_exts.deep_view());
    let mut out: Vec<String> = Vec::new();
    let mut i: usize = 0;
    proof {
        assert(all.take(0) =~= seq![]);
        reveal(Seq::filter_map);
    }
    while i < graph.files.len()
        invariant
            i <= graph.files.len(),
            all == graph.files.deep_view(),
            f == each_unsupported(around.unsupported_exts.deep_view()),
            out.deep_view() =~= all.take(i as int).filter_map(f),
        decreases graph.files.len() - i,
    {
        let ghost so_far = out.deep_view();
        proof {
            all.lemma_filter_map_take_succ(f, i as int);
        }
        let file = graph.files[i].as_str();
        assert(all[i as int] == file@);
        if let Some(e) = extension_of(file) {
            if listed(&around.unsupported_exts, lowercase(e.as_str()).as_str()) {
                out.push(owned(file));
                assert(out.deep_view() =~= so_far.push(file@));
            }
        }
        i += 1;
    }
    assert(all.take(i as int) =~= all);
    let ghost known = out.deep_view();
    let mut rest = copied(&around.unclassified);
    let ghost rv = rest.deep_view();
    out.append(&mut rest);
    assert(out.deep_view() =~= known + rv);
    out
}

// ---------------------------------------------------------------------------
// The question itself
// ---------------------------------------------------------------------------

/// The answer to a term that no alias claims.
pub open spec fn searched(
    idx: IndexView,
    graph: GraphView,
    around: SurroundingsView,
    term: Seq<char>,
) -> AnswerView {
    let found = candidates(idx, term);
    let hits = symbol_hits(graph, term);
    let routes = route_hits(graph, term);
    let named = named_files(idx, around.files, term);
    let blind = blind_spots(graph, around);
    if found.len() > 0 {
        ranked_answer(idx, term, found)
    } else if hits.len() > 0 {
        symbol_answer(graph, term, hits)
    } else if routes.len() > 0 {
        route_answer(term, routes)
    } else if named.len() > 0 {
        named_answer(term, named)
    } else if blind.len() > 0 {
        coverage_answer(term, blind)
    } else {
        absent_answer(term)
    }
}

/// The first alias from `i` on whose key answers to a term.
pub open spec fn alias_from(aliases: Seq<(Seq<char>, Seq<char>)>, term: Seq<char>, i: int) -> Option<
    int,
>
    decreases aliases.len() - i,
{
    if i < 0 || i >= aliases.len() {
        None
    } else if answers_to(aliases[i].0, term) {
        Some(i)
    } else {
        alias_from(aliases, term, i + 1)
    }
}

pub open spec fn stale_alias(term: Seq<char>, key: Seq<char>, target: Seq<char>) -> AnswerView {
    AnswerView {
        concept: term,
        verdict: Verdict::Unknown,
        canonical: None,
        resolved_via_alias: false,
        evidence: seq![
            EvidenceView {
                tier: Tier::Declared,
                what: "archietect.toml declares '"@ + key + "' = '"@ + target + "', but '"@ + target
                    + "' is not a declared concept — the ontology file is stale or wrong"@,
            },
        ],
        detail: DetailView::Nothing,
        confidence: "low — declaration exists but points at nothing"@,
        recommendation: "Fix archietect.toml: the alias target does not exist in the scanned declarations."@,
    }
}

pub open spec fn alias_fact(key: Seq<char>, target: Seq<char>) -> EvidenceView {
    EvidenceView {
        tier: Tier::Declared,
        what: "archietect.toml declares '"@ + key + "' = '"@ + target
            + "' — the project's own ontology, not an inference"@,
    }
}

/// The answer for an alias, given the one for its target.
pub open spec fn by_alias(
    found: AnswerView,
    term: Seq<char>,
    key: Seq<char>,
    target: Seq<char>,
) -> AnswerView {
    if found.canonical is None {
        stale_alias(term, key, target)
    } else {
        AnswerView {
            concept: term,
            verdict: found.verdict,
            canonical: found.canonical,
            resolved_via_alias: true,
            evidence: seq![alias_fact(key, target)] + found.evidence,
            detail: found.detail,
            confidence: found.confidence,
            recommendation: found.recommendation,
        }
    }
}

/// The answer to a term. A declared alias always comes before any search; its
/// target is a name before it is a term. An alias whose chain of targets takes
/// more than `steps` further aliases leads nowhere.
pub open spec fn answered(
    idx: IndexView,
    graph: GraphView,
    around: SurroundingsView,
    term: Seq<char>,
    steps: nat,
) -> AnswerView
    decreases steps,
{
    let t = trim(term);
    match alias_from(idx.aliases, t, 0) {
        None => searched(idx, graph, around, t),
        Some(i) => {
            let key = idx.aliases[i].0;
            let target = idx.aliases[i].1;
            if has_key(idx.concepts, target) {
                by_alias(exact_answer(idx, graph, target, target), t, key, target)
            } else if steps == 0 {
                stale_alias(t, key, target)
            } else {
                by_alias(
                    answered(idx, graph, around, target, (steps - 1) as nat),
                    t,
                    key,
                    target,
                )
            }
        },
    }
}

fn search(idx: &Index, graph: &StructuralGraph, around: &Surroundings, term: &str) -> (r: Answer)
    ensures
        r.deep_view() == searched(idx.deep_view(), graph.deep_view(), around.deep_view(), term@),
{
    let found = candidates_for(idx, term);
    assert(found.deep_view().len() == found@.len());
    if found.len() > 0 {
        proof {
            lemma_candidate(idx.deep_view(), term@, 0);
            assert(found.deep_view()[0] == found[0].deep_view());
        }
        return ranked(idx, term, &found);
    }
    let hits = hits_for(graph, term);
    assert(hits.deep_view().len() == hits@.len());
    if hits.len() > 0 {
        return answer_by_symbols(graph, term, &hits);
    }
    let routes = handlers_for(graph, term);
    assert(routes.deep_view().len() == routes@.len());
    if routes.len() > 0 {
        return answer_by_routes(term, routes);
    }
    let named = named_for(idx, &around.files, term);
    assert(named.deep_view().len() == named@.len());
    if named.len() > 0 {
        return Answer {
            concept: owned(term),
            verdict: Verdict::Unknown,
            canonical: None,
            resolved_via_alias: false,
            evidence: resemblances(&named),
            detail: Detail::Reading(named, question(term)),
            confidence: "low — name resemblance is not an architectural fact",
            recommendation: owned(
                "Needs human confirmation. Similarly named files exist but no schema declares this concept — inspect them before building anything.",
            ),
        };
    }
    let nothing: Vec<Evidence> = Vec::new();
    assert(nothing.deep_view() =~= seq![]);
    let blind = blind_for(graph, around);
    assert(blind.deep_view().len() == blind@.len());
    if blind.len() > 0 {
        let mut recommendation = owned("No declared, structural, or named evidence for '");
        recommendation.append(term);
        recommendation.append(
            "' — but Archietect cannot see into some of this repo's source at all. This is not a confirmed absence; see next_action.",
        );
        return Answer {
            concept: owned(term),
            verdict: Verdict::InsufficientCoverage,
            canonical: None,
            resolved_via_alias: false,
            evidence: nothing,
            detail: Detail::Reading(shortened(sorted_list(&blind), 15), question(term)),
            confidence: "unknown — this repository contains files in a language with no structural extractor; absence of evidence there is not evidence of absence",
            recommendation,
        };
    }
    Answer {
        concept: owned(term),
        verdict: Verdict::Absent,
        canonical: None,
        resolved_via_alias: false,
        evidence: nothing,
        detail: Detail::Nothing,
        confidence: "high — no declaration, no observed usage, no name resemblance",
        recommendation: owned("Genuinely new for this project. Building it is justified."),
    }
}

fn alias_for(aliases: &TextMap<String>, term: &str) -> (r: Option<usize>)
    ensures
        match r {
            Some(i) => i < aliases.deep_view().len() && alias_from(aliases.deep_view(), term@, 0)
                == Some(i as int),
            None => alias_from(aliases.deep_view(), term@, 0) is None,
        },
{
    let ghost av = aliases.deep_view();
    let n: usize = aliases.len();
    let mut i: usize = 0;
    while i < n
        invariant
            i <= n,
            n == av.len(),
            av == aliases.deep_view(),
            alias_from(av, term@, 0) == alias_from(av, term@, i as int),
        decreases n - i,
    {
        if names_concept(aliases.key(i), term) {
            return Some(i);
        }
        i += 1;
    }
    None
}

fn resolve_alias(found: Answer, term: &str, key: &str, target: &str) -> (r: Answer)
    ensures
        r.deep_view() == by_alias(found.deep_view(), term@, key@, target@),
{
    if found.canonical.is_none() {
        return stale(term, key, target);
    }
    let mut what = owned("archietect.toml declares '");
    what.append(key);
    what.append("' = '");
    what.append(target);
    what.append("' — the project's own ontology, not an inference");
    let ghost fv = found.deep_view();
    let mut evidence: Vec<Evidence> = Vec::new();
    evidence.push(Evidence { tier: Tier::Declared, what });
    assert(evidence.deep_view() =~= seq![alias_fact(key@, target@)]);
    let mut rest = found.evidence;
    let ghost rv = rest.deep_view();
    evidence.append(&mut rest);
    assert(evidence.deep_view() =~= seq![alias_fact(key@, target@)] + rv);
    Answer {
        concept: owned(term),
        verdict: found.verdict,
        canonical: found.canonical,
        resolved_via_alias: true,
        evidence,
        detail: found.detail,
        confidence: found.confidence,
        recommendation: found.recommendation,
    }
}

fn stale(term: &str, key: &str, target: &str) -> (r: Answer)
    ensures
        r.deep_view() == stale_alias(term@, key@, target@),
{
    let mut what = owned("archietect.toml declares '");
    what.append(key);
    what.append("' = '");
    what.append(target);
    what.append("', but '");
    what.append(target);
    what.append("' is not a declared concept — the ontology file is stale or wrong");
    let mut evidence: Vec<Evidence> = Vec::new();
    evidence.push(Evidence { tier: Tier::Declared, what });
    assert(evidence.deep_view() =~= stale_alias(term@, key@, target@).evidence);
    Answer {
        concept: owned(term),
        verdict: Verdict::Unknown,
        canonical: None,
        resolved_via_alias: false,
        evidence,
        detail: Detail::Nothing,
        confidence: "low — declaration exists but points at nothing",
        recommendation: owned(
            "Fix archietect.toml: the alias target does not exist in the scanned declarations.",
        ),
    }
}

fn concept_within(
    idx: &Index,
    graph: &StructuralGraph,
    around: &Surroundings,
    term: &str,
    steps: usize,
) -> (r: Answer)
    ensures
        r.deep_view() == answered(
            idx.deep_view(),
            graph.deep_view(),
            around.deep_view(),
            term@,
            steps as nat,
        ),
    decreases steps,
{
    let t = trimmed(term);
    match alias_for(&idx.aliases, t.as_str()) {
        None => search(idx, graph, around, t.as_str()),
        Some(i) => {
            let key = idx.aliases.key(i);
            let target = idx.aliases.value(i).as_str();
            match concept_card(idx, graph, target, target) {
                Some(card) => resolve_alias(card, t.as_str(), key, target),
                None => {
                    if steps == 0 {
                        stale(t.as_str(), key, target)
                    } else {
                        let found = concept_within(idx, graph, around, target, steps - 1);
                        resolve_alias(found, t.as_str(), key, target)
                    }
                },
            }
        },
    }
}

/// What the project has under a term.
pub fn concept(idx: &Index, graph: &StructuralGraph, around: &Surroundings, term: &str) -> (r: Answer)
    ensures
        r.deep_view() == answered(
            idx.deep_view(),
            graph.deep_view(),
            around.deep_view(),
            term@,
            idx.deep_view().aliases.len(),
        ),
{
    let steps: usize = idx.aliases.len();
    concept_within(idx, graph, around, term, steps)
}

// ---------------------------------------------------------------------------
// Laws
// ---------------------------------------------------------------------------

pub open spec fn best_first(s: Seq<ScoredView>) -> bool {
    forall|i: int, j: int| 0 <= i <= j < s.len() ==> (#[trigger] s[i]).score >= (#[trigger] s[j]).score
}

proof fn lemma_insert_best_first(s: Seq<ScoredView>, x: ScoredView)
    requires
        best_first(s),
    ensures
        best_first(insert_stable::<Scored>(s, x)),
        insert_stable::<Scored>(s, x).len() == s.len() + 1,
        forall|i: int|
            0 <= i <= s.len() ==> (#[trigger] insert_stable::<Scored>(s, x)[i]).score <= x.score || (
            s.len() > 0 && insert_stable::<Scored>(s, x)[i].score <= s[0].score),
    decreases s.len(),
{
    if s.len() > 0 && Scored::leads(x, s.last()) {
        let rest = s.drop_last();
        lemma_insert_best_first(rest, x);
        let r = insert_stable::<Scored>(rest, x);
        lemma_insert_members(rest, x);
        assert forall|i: int| 0 <= i < r.len() implies (#[trigger] r[i]).score >= s.last().score by {
            if r[i] != x {
                let k = choose|k: int| 0 <= k < rest.len() && rest[k] == r[i];
                assert(s[k] == r[i]);
            }
        }
        let whole = insert_stable::<Scored>(s, x);
        assert(whole == r.push(s.last()));
        assert forall|i: int| 0 <= i <= s.len() implies (#[trigger] whole[i]).score <= x.score || (
        s.len() > 0 && whole[i].score <= s[0].score) by {
            if i < s.len() {
                assert(whole[i] == r[i]);
                if rest.len() > 0 {
                    assert(rest[0] == s[0]);
                }
            } else {
                assert(whole[i] == s.last());
                assert(s[s.len() - 1] == s.last());
            }
        }
    } else {
        let whole = insert_stable::<Scored>(s, x);
        assert(whole == s.push(x));
        assert forall|i: int| 0 <= i <= s.len() implies (#[trigger] whole[i]).score <= x.score || (
        s.len() > 0 && whole[i].score <= s[0].score) by {
            if i < s.len() {
                assert(whole[i] == s[i]);
                assert(s[0].score >= s[i].score);
            }
        }
        assert forall|i: int, j: int| 0 <= i <= j < whole.len() implies (#[trigger] whole[i]).score
            >= (#[trigger] whole[j]).score by {
            if j == s.len() && i < s.len() {
                assert(s[i].score >= s[s.len() - 1].score);
            }
        }
    }
}

proof fn lemma_insert_members(s: Seq<ScoredView>, x: ScoredView)
    ensures
        forall|i: int|
            0 <= i < insert_stable::<Scored>(s, x).len() ==> (#[trigger] insert_stable::<Scored>(
                s,
                x,
            )[i]) == x || exists|k: int|
                0 <= k < s.len() && s[k] == insert_stable::<Scored>(s, x)[i],
    decreases s.len(),
{
    let whole = insert_stable::<Scored>(s, x);
    if s.len() > 0 && Scored::leads(x, s.last()) {
        let rest = s.drop_last();
        lemma_insert_members(rest, x);
        let r = insert_stable::<Scored>(rest, x);
        assert forall|i: int| 0 <= i < whole.len() implies (#[trigger] whole[i]) == x || exists|k: int|
            0 <= k < s.len() && s[k] == whole[i] by {
            if i < r.len() {
                assert(whole[i] == r[i]);
                if r[i] != x {
                    let k = choose|k: int| 0 <= k < rest.len() && rest[k] == r[i];
                    assert(s[k] == whole[i]);
                }
            } else {
                assert(s[s.len() - 1] == whole[i]);
            }
        }
    } else {
        assert forall|i: int| 0 <= i < whole.len() implies (#[trigger] whole[i]) == x || exists|k: int|
            0 <= k < s.len() && s[k] == whole[i] by {
            if i < s.len() {
                assert(s[i] == whole[i]);
            }
        }
    }
}

pub proof fn lemma_best_first(s: Seq<ScoredView>)
    ensures
        best_first(stable_sort::<Scored>(s)),
    decreases s.len(),
{
    if s.len() > 0 {
        lemma_best_first(s.drop_last());
        lemma_insert_best_first(stable_sort::<Scored>(s.drop_last()), s.last());
    }
}

/// No candidate scores higher than the one that is named canonical.
pub proof fn law_canonical_scores_highest(idx: IndexView, term: Seq<char>, i: int)
    requires
        0 <= i < candidates(idx, term).len(),
    ensures
        candidates(idx, term)[0].score >= candidates(idx, term)[i].score,
{
    lemma_best_first(idx.concepts.filter_map(each_candidate(term)));
}

/// A declared alias is decided before any search: where its target is declared,
/// the answer is that target, whatever else answers to the term.
pub proof fn law_alias_beats_every_name(
    idx: IndexView,
    graph: GraphView,
    around: SurroundingsView,
    term: Seq<char>,
    steps: nat,
)
    requires
        alias_from(idx.aliases, trim(term), 0) matches Some(i) && has_key(
            idx.concepts,
            idx.aliases[i].1,
        ),
    ensures
        ({
            let a = answered(idx, graph, around, term, steps);
            let target = idx.aliases[alias_from(idx.aliases, trim(term), 0)->Some_0].1;
            &&& a.canonical == Some(target)
            &&& a.resolved_via_alias
            &&& a.verdict == verdict_of(lookup(idx.concepts, target)->Some_0)
        }),
{
}

/// An answer that calls a thing declared names a declared concept, and calls it
/// active exactly where a use of it was seen.
pub proof fn law_declared_means_declared(
    idx: IndexView,
    graph: GraphView,
    around: SurroundingsView,
    term: Seq<char>,
    steps: nat,
)
    ensures
        ({
            let a = answered(idx, graph, around, term, steps);
            a.verdict == Verdict::Active || a.verdict == Verdict::DeclaredOnly ==> {
                &&& a.canonical is Some
                &&& has_key(idx.concepts, a.canonical->Some_0)
                &&& a.verdict == verdict_of(lookup(idx.concepts, a.canonical->Some_0)->Some_0)
            }
        }),
    decreases steps,
{
    let t = trim(term);
    match alias_from(idx.aliases, t, 0) {
        None => {
            if candidates(idx, t).len() > 0 {
                lemma_candidate(idx, t, 0);
            }
        },
        Some(i) => {
            let target = idx.aliases[i].1;
            if !has_key(idx.concepts, target) && steps > 0 {
                law_declared_means_declared(idx, graph, around, target, (steps - 1) as nat);
            }
        },
    }
}

proof fn lemma_no_canonical(
    idx: IndexView,
    graph: GraphView,
    around: SurroundingsView,
    term: Seq<char>,
    steps: nat,
)
    ensures
        ({
            let a = answered(idx, graph, around, term, steps);
            a.verdict == Verdict::Absent || a.verdict == Verdict::InsufficientCoverage || a.verdict
                == Verdict::Unknown <==> a.canonical is None
        }),
    decreases steps,
{
    match alias_from(idx.aliases, trim(term), 0) {
        None => {},
        Some(i) => {
            let target = idx.aliases[i].1;
            if !has_key(idx.concepts, target) && steps > 0 {
                lemma_no_canonical(idx, graph, around, target, (steps - 1) as nat);
            }
        },
    }
}

/// A thing is called absent exactly where no alias claims it, nothing declares
/// it, no symbol, route or file answers to its name, and no file went unread.
pub proof fn law_absent_means_nothing_was_missed(
    idx: IndexView,
    graph: GraphView,
    around: SurroundingsView,
    term: Seq<char>,
    steps: nat,
)
    ensures
        answered(idx, graph, around, term, steps).verdict == Verdict::Absent <==> ({
            let t = trim(term);
            &&& alias_from(idx.aliases, t, 0) is None
            &&& candidates(idx, t).len() == 0
            &&& symbol_hits(graph, t).len() == 0
            &&& route_hits(graph, t).len() == 0
            &&& named_files(idx, around.files, t).len() == 0
            &&& blind_spots(graph, around).len() == 0
        }),
{
    match alias_from(idx.aliases, trim(term), 0) {
        None => {},
        Some(i) => {
            let target = idx.aliases[i].1;
            if !has_key(idx.concepts, target) && steps > 0 {
                lemma_no_canonical(idx, graph, around, target, (steps - 1) as nat);
            }
        },
    }
}

proof fn lemma_no_named_evidence(c: ConceptView)
    ensures
        forall|i: int|
            0 <= i < concept_evidence(c).len() ==> (#[trigger] concept_evidence(c)[i]).tier
                != Tier::Named,
        c.declared_in.len() > 0 ==> concept_evidence(c).len() > 0 && concept_evidence(c)[0].tier
            == Tier::Declared,
{
}

proof fn lemma_evidence_of_search(
    idx: IndexView,
    graph: GraphView,
    around: SurroundingsView,
    term: Seq<char>,
)
    ensures
        ({
            let a = searched(idx, graph, around, term);
            &&& a.canonical is Some ==> forall|i: int|
                0 <= i < a.evidence.len() ==> (#[trigger] a.evidence[i]).tier != Tier::Named
            &&& a.canonical is None ==> forall|i: int|
                0 <= i < a.evidence.len() ==> (#[trigger] a.evidence[i]).tier == Tier::Named
            &&& a.canonical is None && a.evidence.len() > 0 ==> a.verdict == Verdict::Unknown
        }),
{
    let found = candidates(idx, term);
    if found.len() > 0 {
        lemma_no_named_evidence(lookup(idx.concepts, found[0].name)->Some_0);
    }
}

/// A name alone is never knowledge: an answer that rests on the resemblance of a
/// file's name says that it is unknown, and names nothing.
pub proof fn law_resemblance_is_no_knowledge(
    idx: IndexView,
    graph: GraphView,
    around: SurroundingsView,
    term: Seq<char>,
    steps: nat,
    i: int,
)
    requires
        0 <= i < answered(idx, graph, around, term, steps).evidence.len(),
        answered(idx, graph, around, term, steps).evidence[i].tier == Tier::Named,
    ensures
        answered(idx, graph, around, term, steps).verdict == Verdict::Unknown,
        answered(idx, graph, around, term, steps).canonical is None,
    decreases steps,
{
    let t = trim(term);
    match alias_from(idx.aliases, t, 0) {
        None => {
            lemma_evidence_of_search(idx, graph, around, t);
        },
        Some(k) => {
            let target = idx.aliases[k].1;
            if has_key(idx.concepts, target) {
                lemma_no_named_evidence(lookup(idx.concepts, target)->Some_0);
            } else if steps > 0 {
                let inner = answered(idx, graph, around, target, (steps - 1) as nat);
                if inner.canonical is Some {
                    law_resemblance_is_no_knowledge(
                        idx,
                        graph,
                        around,
                        target,
                        (steps - 1) as nat,
                        i - 1,
                    );
                }
            }
        },
    }
}

/// Every answer that names something carries evidence that it was declared, as
/// long as every concept of the index has a place where it is declared.
pub proof fn law_every_answer_carries_evidence(
    idx: IndexView,
    graph: GraphView,
    around: SurroundingsView,
    term: Seq<char>,
    steps: nat,
)
    requires
        forall|k: Seq<char>|
            #[trigger] lookup(idx.concepts, k) matches Some(c) ==> c.declared_in.len() > 0,
    ensures
        ({
            let a = answered(idx, graph, around, term, steps);
            a.canonical is Some ==> a.evidence.len() > 0 && a.evidence[0].tier == Tier::Declared
        }),
    decreases steps,
{
    let t = trim(term);
    match alias_from(idx.aliases, t, 0) {
        None => {
            let found = candidates(idx, t);
            if found.len() > 0 {
                lemma_candidate(idx, t, 0);
                lemma_no_named_evidence(lookup(idx.concepts, found[0].name)->Some_0);
            }
        },
        Some(k) => {
            let target = idx.aliases[k].1;
            if !has_key(idx.concepts, target) && steps > 0 {
                law_every_answer_carries_evidence(idx, graph, around, target, (steps - 1) as nat);
            }
        },
    }
}

proof fn lemma_hits_are_ranked()
    ensures
        is_ranking::<Hit>(),
{
    assert forall|a: HitView, b: HitView| #[trigger] Hit::leads(a, b) implies !Hit::leads(b, a) by {
        lemma_before_not_both(a.symbol.file, b.symbol.file);
        lemma_before_not_both(a.symbol.name, b.symbol.name);
    }
    assert forall|a: HitView, b: HitView, c: HitView|
        !(#[trigger] Hit::leads(b, a)) && !(#[trigger] Hit::leads(c, b)) implies !Hit::leads(
        c,
        a,
    ) by {
        lemma_never_behind(a.symbol.file, b.symbol.file, c.symbol.file);
        lemma_never_behind(a.symbol.name, b.symbol.name, c.symbol.name);
        lemma_before_total(a.symbol.file, b.symbol.file);
        lemma_before_total(b.symbol.file, c.symbol.file);
        lemma_before_not_both(a.symbol.file, b.symbol.file);
        lemma_before_not_both(b.symbol.file, c.symbol.file);
        lemma_before_not_both(a.symbol.file, c.symbol.file);
    }
}

proof fn lemma_before_not_both(a: Seq<char>, b: Seq<char>)
    ensures
        !(before(a, b) && before(b, a)),
{
    if before(a, b) && before(b, a) {
        lemma_before_transitive(a, b, a);
        lemma_before_irreflexive(a);
    }
}

proof fn lemma_never_behind(a: Seq<char>, b: Seq<char>, c: Seq<char>)
    ensures
        !before(b, a) && !before(c, b) ==> !before(c, a),
{
    if !before(b, a) && !before(c, b) && before(c, a) {
        lemma_before_total(a, b);
        lemma_before_total(b, c);
        if a != b {
            lemma_before_transitive(c, a, b);
        }
    }
}

/// A symbol that bears the term as its name is never passed over for one that
/// merely shares a token with it.
pub proof fn law_exact_symbols_win(graph: GraphView, term: Seq<char>, i: int)
    requires
        0 <= i < symbol_hits(graph, term).len(),
        symbol_hits(graph, term)[i].exact,
    ensures
        symbol_hits(graph, term)[0].exact,
{
    lemma_hits_are_ranked();
    let found = graph.symbols.filter_map(each_hit(term));
    law_sorting_orders::<Hit>(found);
    let r = symbol_hits(graph, term);
    if i > 0 {
        assert(!Hit::leads(r[i], r[0]));
    }
}

/// A concept that bears the term as its name is never passed over for one that
/// merely shares a token with it.
pub proof fn law_exact_name_wins(
    idx: IndexView,
    graph: GraphView,
    around: SurroundingsView,
    term: Seq<char>,
    steps: nat,
    i: int,
)
    requires
        alias_from(idx.aliases, trim(term), 0) is None,
        0 <= i < idx.concepts.len(),
        is_same_word(idx.concepts[i].0, trim(term)),
    ensures
        ({
            let a = answered(idx, graph, around, term, steps);
            a.canonical matches Some(name) && is_same_word(name, trim(term))
        }),
{
    let t = trim(term);
    let f = each_candidate(t);
    let hits = idx.concepts.filter_map(f);
    let found = candidates(idx, t);
    let own = f(idx.concepts[i])->Some_0;
    lemma_kept_by_filter_map(idx.concepts, f, i);
    let p = choose|p: int| 0 <= p < hits.len() && hits[p] == own;
    lemma_member_sorted::<Scored>(hits, p);
    let k = choose|k: int| 0 <= k < found.len() && found[k] == own;
    law_canonical_scores_highest(idx, t, k);
    lemma_sorted_member::<Scored>(hits, 0);
    idx.concepts.lemma_filter_map_contains(f, found[0]);
    let j = choose|j: int|
        0 <= j < idx.concepts.len() && #[trigger] f(idx.concepts[j]) == Some(found[0]);
    if !is_same_word(found[0].name, t) {
        law_exact_outranks_token(
            idx.concepts[i].0,
            idx.concepts[i].1,
            idx.concepts[j].0,
            idx.concepts[j].1,
            t,
        );
    }
}

pub proof fn lemma_kept_by_filter_map<A, B>(s: Seq<A>, f: spec_fn(A) -> Option<B>, i: int)
    requires
        0 <= i < s.len(),
        f(s[i]) is Some,
    ensures
        s.filter_map(f).contains(f(s[i])->Some_0),
    decreases s.len(),
{
    s.lemma_filter_map_take_succ(f, s.len() - 1);
    assert(s.take(s.len() as int) =~= s);
    let head = s.take(s.len() - 1).filter_map(f);
    let whole = s.filter_map(f);
    if i < s.len() - 1 {
        lemma_kept_by_filter_map(s.take(s.len() - 1), f, i);
        let k = choose|k: int| 0 <= k < head.len() && head[k] == f(s[i])->Some_0;
        assert(whole[k] == head[k]);
    } else {
        assert(whole[whole.len() - 1] == f(s[i])->Some_0);
    }
}

} // verus!
