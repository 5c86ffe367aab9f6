//! What the details of an answer are: which part of what is known it shows, and
//! what it advises.
use vstd::prelude::*;
use crate::answer_laws::lemma_filtered_from;
use crate::model::{answers_to, is_same_word, ConceptView, IndexView, Tier};
use crate::order::{lemma_member_sorted, lemma_sorted_member};
use crate::paths::{extension, stem};
use crate::query::{
    blind_spots, by_alias, card_of, coverage_answer, each_beside, each_handler, each_hit,
    each_named, each_own_route, each_own_symbol, each_unsupported, exact_answer,
    lemma_kept_by_filter_map, named_answer, named_files, ranked_answer, route_hits, symbol_answer,
    symbol_hits, AnswerView, DetailView, Hit, HitView, ScoredView, SurroundingsView,
};
use crate::structural::{GraphView, RouteView, SymbolView};
use crate::table::lookup;
use crate::text::{contains, lowered, occurs_at};

verus! {

proof fn lemma_holds(a: Seq<char>, b: Seq<char>, c: Seq<char>)
    ensures
        contains(a + b + c, b),
{
    let whole = a + b + c;
    assert(whole.subrange(a.len() as int, (a.len() + b.len()) as int) =~= b);
    assert(occurs_at(whole, b, a.len() as int));
}

/// A card shows a concept's table and relations, its first fifteen fields, the
/// files of its first ten uses and both of its times.
pub proof fn law_cards_show_the_front(
    c: ConceptView,
    competing: Seq<Seq<char>>,
    linked: Option<(Seq<SymbolView>, Seq<RouteView>)>,
    i: int,
)
    ensures
        ({
            let r = card_of(c, competing, linked);
            &&& r.table == c.table && r.relations == c.relations && r.competing == competing
            &&& r.first_seen_ms == c.first_seen_ms && r.last_verified_ms == c.last_verified_ms
            &&& r.linked == linked
            &&& r.fields.len() == if c.fields.len() <= 15 {
                c.fields.len() as int
            } else {
                15
            }
            &&& 0 <= i < r.fields.len() ==> r.fields[i] == c.fields[i]
            &&& r.used_by_files.len() == if c.usage.len() <= 10 {
                c.usage.len() as int
            } else {
                10
            }
            &&& 0 <= i < r.used_by_files.len() ==> r.used_by_files[i] == c.usage[i].0
        }),
{
}

/// An answer is sure of a concept that something uses, and half sure of one that
/// is only declared. Of the first it advises to extend it, of the second to ask,
/// and it names the next five that answered too.
pub proof fn law_advice_follows_the_use(idx: IndexView, term: Seq<char>, found: Seq<ScoredView>, i: int)
    requires
        found.len() > 0,
        lookup(idx.concepts, found[0].name) is Some,
    ensures
        ({
            let a = ranked_answer(idx, term, found);
            let c = lookup(idx.concepts, found[0].name)->0;
            &&& a.canonical == Some(found[0].name)
            &&& a.concept == term && !a.resolved_via_alias
            &&& c.usage.len() > 0 ==> a.confidence == "high"@ && contains(
                a.recommendation,
                "Extend it; do not create a second implementation."@,
            )
            &&& c.usage.len() == 0 ==> "medium"@.is_prefix_of(a.confidence) && contains(
                a.recommendation,
                "Confirm whether it is scaffolding before extending OR replacing."@,
            )
            &&& contains(a.recommendation, found[0].name)
            &&& a.detail matches DetailView::Declared(card) && card.competing.len() == (
            if found.len() <= 6 {
                found.len() - 1
            } else {
                5
            }) && (0 <= i < card.competing.len() ==> card.competing[i] == found[i + 1].name)
                && card.linked is None
        }),
{
    let name = found[0].name;
    let c = lookup(idx.concepts, name)->0;
    let a = ranked_answer(idx, term, found);
    reveal_strlit("medium");
    reveal_strlit("medium — declared but no observed access; may be scaffolding");
    let medium = "medium — declared but no observed access; may be scaffolding"@;
    assert(medium.subrange(0, 6) =~= "medium"@);
    reveal_strlit("'. Extend it; do not create a second implementation.");
    reveal_strlit("Extend it; do not create a second implementation.");
    reveal_strlit(
        "' but nothing observably uses it. Confirm whether it is scaffolding before extending OR replacing.",
    );
    reveal_strlit("Confirm whether it is scaffolding before extending OR replacing.");
    let x = "'. Extend it; do not create a second implementation."@;
    let x2 = "Extend it; do not create a second implementation."@;
    let y =
        "' but nothing observably uses it. Confirm whether it is scaffolding before extending OR replacing."@;
    let y2 = "Confirm whether it is scaffolding before extending OR replacing."@;
    if c.usage.len() > 0 {
        let front = "'"@ + term + "' already exists as '"@;
        lemma_holds(front, name, x);
        let r = a.recommendation;
        let at = r.len() - x2.len();
        assert(x.subrange(x.len() - x2.len(), x.len() as int) =~= x2);
        assert(r.subrange(at, at + x2.len()) =~= x.subrange(x.len() - x2.len(), x.len() as int));
        assert(occurs_at(r, x2, at));
    } else {
        let front = "'"@ + term + "' is declared as '"@;
        lemma_holds(front, name, y);
        let r = a.recommendation;
        let at = r.len() - y2.len();
        assert(y.subrange(y.len() - y2.len(), y.len() as int) =~= y2);
        assert(r.subrange(at, at + y2.len()) =~= y.subrange(y.len() - y2.len(), y.len() as int));
        assert(occurs_at(r, y2, at));
    }
}

/// The answer for an exact name shows the symbols and routes that are linked to
/// it, ten of each at most.
pub proof fn law_exact_answers_show_what_is_linked(
    idx: IndexView,
    graph: GraphView,
    name: Seq<char>,
    term: Seq<char>,
    i: int,
)
    requires
        lookup(idx.concepts, name) is Some,
    ensures
        ({
            let a = exact_answer(idx, graph, name, term);
            &&& a.canonical == Some(name)
            &&& a.detail matches DetailView::Declared(card) && card.linked matches Some(
                (symbols, routes),
            ) && card.competing.len() == 0 && symbols.len() <= 10 && routes.len()
                <= 10 && (0 <= i < symbols.len() ==> symbols[i].linked_concept == Some(name)) && (0
                <= i < routes.len() ==> routes[i].linked_concept == Some(name))
        }),
{
    let f = each_own_symbol(name);
    let g = each_own_route(name);
    if 0 <= i < graph.symbols.filter_map(f).len() {
        let k = lemma_filtered_from(graph.symbols, f, i);
    }
    if 0 <= i < graph.routes.filter_map(g).len() {
        let k = lemma_filtered_from(graph.routes, g, i);
    }
}

/// A linked symbol is shown where there are no more than ten in all.
pub proof fn law_linked_symbols_are_shown(
    idx: IndexView,
    graph: GraphView,
    name: Seq<char>,
    term: Seq<char>,
    k: int,
)
    requires
        lookup(idx.concepts, name) is Some,
        graph.symbols.len() <= 10,
        0 <= k < graph.symbols.len(),
        graph.symbols[k].1.linked_concept == Some(name),
    ensures
        exact_answer(idx, graph, name, term).detail matches DetailView::Declared(card)
            && card.linked matches Some((symbols, routes)) && symbols.contains(graph.symbols[k].1),
{
    let f = each_own_symbol(name);
    lemma_kept_by_filter_map(graph.symbols, f, k);
    lemma_no_longer(graph.symbols, f);
}

proof fn lemma_no_longer<A, B>(s: Seq<A>, f: spec_fn(A) -> Option<B>)
    ensures
        s.filter_map(f).len() <= s.len(),
    decreases s.len(),
{
    if s.len() > 0 {
        let n = s.len() - 1;
        lemma_no_longer(s.take(n), f);
        s.lemma_filter_map_take_succ(f, n);
        assert(s.take(n + 1) =~= s);
    } else {
        reveal(Seq::filter_map);
    }
}

/// The answer for a symbol names the first of those that answer, shows three of
/// them and up to ten routes, each in the file of one of them or handled by what
/// answers, and bears up to ten facts.
pub proof fn law_what_a_symbol_answer_shows(
    graph: GraphView,
    term: Seq<char>,
    hits: Seq<HitView>,
    i: int,
)
    requires
        hits.len() > 0,
    ensures
        ({
            let a = symbol_answer(graph, term, hits);
            &&& a.canonical == Some(hits[0].symbol.name)
            &&& a.evidence.len() == if hits.len() <= 10 {
                hits.len() as int
            } else {
                10
            }
            &&& a.detail matches DetailView::Symbols(symbols, routes) && symbols.len() == (
            if hits.len() <= 3 {
                hits.len() as int
            } else {
                3
            }) && (0 <= i < symbols.len() ==> symbols[i] == hits[i].symbol) && routes.len() <= 10 && (0
                <= i < routes.len() ==> answers_to(routes[i].handler, term) || exists|h: int|
                0 <= h < hits.len() && (#[trigger] hits[h]).symbol.file == routes[i].file)
        }),
{
    let f = each_beside(hits, term);
    if 0 <= i < graph.routes.filter_map(f).len() {
        let k = lemma_filtered_from(graph.routes, f, i);
    }
}

/// A symbol is a hit where its name answers to the term, and an exact one where
/// they are the same word; every hit is kept.
pub proof fn law_which_symbols_are_hits(graph: GraphView, term: Seq<char>, k: int, p: int)
    ensures
        0 <= k < graph.symbols.len() && answers_to(graph.symbols[k].1.name, term) ==> symbol_hits(
            graph,
            term,
        ).contains(
            HitView {
                symbol: graph.symbols[k].1,
                exact: is_same_word(graph.symbols[k].1.name, term),
            },
        ),
        0 <= p < symbol_hits(graph, term).len() ==> answers_to(
            symbol_hits(graph, term)[p].symbol.name,
            term,
        ),
{
    let f = each_hit(term);
    let rows = graph.symbols.filter_map(f);
    if 0 <= k < graph.symbols.len() && f(graph.symbols[k]) is Some {
        lemma_kept_by_filter_map(graph.symbols, f, k);
        let j = choose|j: int| 0 <= j < rows.len() && rows[j] == f(graph.symbols[k])->Some_0;
        lemma_member_sorted::<Hit>(rows, j);
    }
    if 0 <= p < symbol_hits(graph, term).len() {
        lemma_sorted_member::<Hit>(rows, p);
        let j = choose|j: int| 0 <= j < rows.len() && rows[j] == symbol_hits(graph, term)[p];
        let m = lemma_filtered_from(graph.symbols, f, j);
    }
}

/// A route is a hit where its handler answers to the term; ten are kept.
pub proof fn law_which_routes_are_hits(graph: GraphView, term: Seq<char>, k: int, p: int)
    ensures
        route_hits(graph, term).len() <= 10,
        0 <= k < graph.routes.len() <= 10 && answers_to(graph.routes[k].handler, term)
            ==> route_hits(graph, term).contains(graph.routes[k]),
        0 <= p < route_hits(graph, term).len() ==> answers_to(
            route_hits(graph, term)[p].handler,
            term,
        ),
{
    let f = each_handler(term);
    lemma_no_longer(graph.routes, f);
    if 0 <= k < graph.routes.len() && answers_to(graph.routes[k].handler, term) {
        lemma_kept_by_filter_map(graph.routes, f, k);
    }
    if 0 <= p < route_hits(graph, term).len() {
        let m = lemma_filtered_from(graph.routes, f, p);
    }
}

/// A file resembles a term where the name before its ending answers to it; ten
/// are kept, and the answer names them and concludes nothing.
pub proof fn law_resemblance_is_told_as_such(
    idx: IndexView,
    files: Seq<Seq<char>>,
    term: Seq<char>,
    p: int,
)
    ensures
        named_files(idx, files, term).len() <= 10,
        0 <= p < named_files(idx, files, term).len() ==> files.contains(
            named_files(idx, files, term)[p],
        ) && answers_to(stem(named_files(idx, files, term)[p]), term),
        ({
            let a = named_answer(term, files);
            &&& a.canonical is None && a.evidence.len() == files.len()
            &&& 0 <= p < files.len() ==> a.evidence[p].tier == Tier::Named && contains(
                a.evidence[p].what,
                files[p],
            )
            &&& a.detail matches DetailView::Reading(read, question) && read == files && contains(
                question,
                term,
            )
        }),
{
    let f = each_named(idx.root, idx.excludes, term);
    if 0 <= p < named_files(idx, files, term).len() {
        let k = lemma_filtered_from(files, f, p);
        assert(files[k] == named_files(idx, files, term)[p]);
    }
    if 0 <= p < files.len() {
        let head = "filename resemblance only: "@;
        let w = named_answer(term, files).evidence[p].what;
        assert(w.subrange(head.len() as int, (head.len() + files[p].len()) as int) =~= files[p]);
        assert(occurs_at(w, files[p], head.len() as int));
    }
    lemma_holds("Do any of these files implement or represent '"@, term, "'?"@);
}

/// What cannot be read are the files whose ending no extractor knows, in whatever
/// case, and those that nobody classified; fifteen are named.
pub proof fn law_what_cannot_be_read(
    graph: GraphView,
    around: SurroundingsView,
    term: Seq<char>,
    k: int,
    p: int,
)
    ensures
        0 <= k < graph.files.len() ==> (extension(graph.files[k]) matches Some(e) ==> (
        around.unsupported_exts.contains(lowered(e)) ==> blind_spots(graph, around).contains(
            graph.files[k],
        ))),
        0 <= k < around.unclassified.len() ==> blind_spots(graph, around).contains(
            around.unclassified[k],
        ),
        0 <= p < blind_spots(graph, around).len() ==> around.unclassified.contains(
            blind_spots(graph, around)[p],
        ) || (extension(blind_spots(graph, around)[p]) matches Some(e)
            && around.unsupported_exts.contains(lowered(e))),
        coverage_answer(term, blind_spots(graph, around)).canonical is None,
        coverage_answer(term, blind_spots(graph, around)).detail matches DetailView::Reading(read, _)
            && read.len() <= 15,
{
    let f = each_unsupported(around.unsupported_exts);
    let front = graph.files.filter_map(f);
    let all = blind_spots(graph, around);
    if 0 <= k < graph.files.len() && f(graph.files[k]) is Some {
        lemma_kept_by_filter_map(graph.files, f, k);
        let j = choose|j: int| 0 <= j < front.len() && front[j] == graph.files[k];
        assert(all[j] == graph.files[k]);
    }
    if 0 <= k < around.unclassified.len() {
        assert(all[front.len() + k] == around.unclassified[k]);
    }
    if 0 <= p < all.len() {
        if p < front.len() {
            let m = lemma_filtered_from(graph.files, f, p);
        } else {
            assert(all[p] == around.unclassified[p - front.len()]);
        }
    }
}

/// An answer by an alias is that of its target, with the alias as its first
/// evidence; a target that nothing declares makes the alias stale.
pub proof fn law_aliases_answer_for_their_target(
    found: AnswerView,
    term: Seq<char>,
    key: Seq<char>,
    target: Seq<char>,
)
    ensures
        ({
            let a = by_alias(found, term, key, target);
            &&& a.concept == term
            &&& a.evidence.len() > 0 && a.evidence[0].tier == Tier::Declared && contains(
                a.evidence[0].what,
                key,
            ) && contains(a.evidence[0].what, target)
            &&& found.canonical is Some ==> a.resolved_via_alias && a.canonical == found.canonical
                && a.verdict == found.verdict && a.detail == found.detail && a.confidence
                == found.confidence && a.evidence.skip(1) == found.evidence
            &&& found.canonical is None ==> !a.resolved_via_alias && a.canonical is None
                && a.evidence.len() == 1
        }),
{
    let a = by_alias(found, term, key, target);
    let head = "archietect.toml declares '"@;
    let w = a.evidence[0].what;
    assert(w.subrange(head.len() as int, (head.len() + key.len()) as int) =~= key);
    assert(occurs_at(w, key, head.len() as int));
    let at = (head + key + "' = '"@).len() as int;
    assert(w.subrange(at, at + target.len()) =~= target);
    assert(occurs_at(w, target, at));
    if found.canonical is Some {
        assert(a.evidence.skip(1) =~= found.evidence);
    }
}

} // verus!
