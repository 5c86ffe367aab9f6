//! What every answer about a concept satisfies, said of the index, the graph and
//! the files around it.
use vstd::prelude::*;
use crate::model::{answers_to, first_of, is_same_word, ConceptView, IndexView, Tier};
use crate::order::{insert_stable, lemma_member_sorted, lemma_sorted_member, stable_sort, Ranked};
use crate::paths::{display_name, extension, stem};
use crate::query::{
    alias_from, answered, best_first, blind_spots, candidates, each_candidate, each_handler,
    each_hit, each_name, each_named, each_unsupported, is_hidden_at, is_seen, is_unread_dir,
    lemma_best_first, lemma_kept_by_filter_map, named_files, ranked_answer, route_hits, symbol_hits,
    DetailView, Hit, Scored, ScoredView, SurroundingsView, Verdict,
};
use crate::scan::is_excluded;
use crate::scoring::{is_modelled, total_score};
use crate::structural::GraphView;
use crate::table::{has_key, lemma_lookup_at, lookup, ordered, sorted};
use crate::text::{before, join, lowered, split, trim};

verus! {

// ---------------------------------------------------------------------------
// The best of the candidates
// ---------------------------------------------------------------------------

proof fn lemma_insert_head(s: Seq<ScoredView>, x: ScoredView)
    requires
        best_first(s),
        s.len() > 0,
    ensures
        insert_stable::<Scored>(s, x).len() == s.len() + 1,
        insert_stable::<Scored>(s, x)[0] == (if x.score > s[0].score {
            x
        } else {
            s[0]
        }),
    decreases s.len(),
{
    if Scored::leads(x, s.last()) {
        let rest = s.drop_last();
        if rest.len() == 0 {
            assert(insert_stable::<Scored>(rest, x) =~= seq![x]);
        } else {
            lemma_insert_head(rest, x);
        }
    } else {
        assert(s[0].score >= s[s.len() - 1].score);
    }
}

/// The head of a sorted list is the first of those that score highest.
proof fn lemma_sorted_head(s: Seq<ScoredView>) -> (p: int)
    requires
        s.len() > 0,
    ensures
        0 <= p < s.len(),
        stable_sort::<Scored>(s).len() == s.len(),
        stable_sort::<Scored>(s)[0] == s[p],
        forall|j: int| 0 <= j < p ==> (#[trigger] s[j]).score < s[p].score,
        forall|j: int| 0 <= j < s.len() ==> (#[trigger] s[j]).score <= s[p].score,
    decreases s.len(),
{
    let front = s.drop_last();
    let x = s.last();
    if front.len() == 0 {
        assert(stable_sort::<Scored>(front) =~= Seq::<ScoredView>::empty());
        assert(stable_sort::<Scored>(s) =~= seq![x]);
        0
    } else {
        let p = lemma_sorted_head(front);
        lemma_best_first(front);
        lemma_insert_head(stable_sort::<Scored>(front), x);
        assert forall|j: int| 0 <= j < front.len() implies front[j] == s[j] by {}
        if x.score > front[p].score {
            assert forall|j: int| 0 <= j < s.len() - 1 implies (#[trigger] s[j]).score
                < x.score by {
                assert(front[j] == s[j]);
            }
            s.len() - 1
        } else {
            assert forall|j: int| 0 <= j < s.len() implies (#[trigger] s[j]).score
                <= s[p].score by {
                if j < front.len() {
                    assert(front[j] == s[j]);
                }
            }
            assert forall|j: int| 0 <= j < p implies (#[trigger] s[j]).score < s[p].score by {
                assert(front[j] == s[j]);
            }
            p
        }
    }
}

/// Where the entries that pass a filter come from, in their order.
pub proof fn lemma_filtered_from<A, B>(s: Seq<A>, f: spec_fn(A) -> Option<B>, p: int) -> (i: int)
    requires
        0 <= p < s.filter_map(f).len(),
    ensures
        0 <= i < s.len(),
        f(s[i]) == Some(s.filter_map(f)[p]),
        s.take(i).filter_map(f).len() == p,
        s.take(i).filter_map(f) == s.filter_map(f).take(p),
    decreases s.len(),
{
    if s.len() == 0 {
        reveal(Seq::filter_map);
        0
    } else {
        let n = s.len() - 1;
        let front = s.take(n);
        s.lemma_filter_map_take_succ(f, n);
        assert(s.take(s.len() as int) =~= s);
        let head = front.filter_map(f);
        let whole = s.filter_map(f);
        if p < head.len() {
            let i = lemma_filtered_from(front, f, p);
            assert(whole[p] == head[p]);
            assert(front.take(i) =~= s.take(i));
            assert(whole.take(p) =~= head.take(p));
            i
        } else {
            assert(whole =~= head.push(f(s[n])->Some_0));
            assert(whole.take(p) =~= head);
            n
        }
    }
}

proof fn lemma_no_alias(aliases: Seq<(Seq<char>, Seq<char>)>, term: Seq<char>, i: int)
    requires
        0 <= i,
        forall|j: int| 0 <= j < aliases.len() ==> !answers_to((#[trigger] aliases[j]).0, term),
    ensures
        alias_from(aliases, term, i) is None,
    decreases aliases.len() - i,
{
    if i < aliases.len() {
        lemma_no_alias(aliases, term, i + 1);
    }
}

proof fn lemma_first_alias(aliases: Seq<(Seq<char>, Seq<char>)>, term: Seq<char>, from: int, i: int)
    requires
        0 <= from <= i < aliases.len(),
        answers_to(aliases[i].0, term),
        forall|j: int| from <= j < i ==> !answers_to((#[trigger] aliases[j]).0, term),
    ensures
        alias_from(aliases, term, from) == Some(i),
    decreases i - from,
{
    if from < i {
        lemma_first_alias(aliases, term, from + 1, i);
    }
}

/// No alias of the project claims a term.
pub open spec fn is_unclaimed(idx: IndexView, term: Seq<char>) -> bool {
    forall|j: int| 0 <= j < idx.aliases.len() ==> !answers_to((#[trigger] idx.aliases[j]).0, term)
}

/// No declared concept answers to a term.
pub open spec fn is_undeclared(idx: IndexView, term: Seq<char>) -> bool {
    forall|j: int| 0 <= j < idx.concepts.len() ==> !answers_to((#[trigger] idx.concepts[j]).0, term)
}

proof fn lemma_candidates(idx: IndexView, term: Seq<char>)
    ensures
        candidates(idx, term).len() == 0 <==> is_undeclared(idx, term),
        candidates(idx, term).len() == idx.concepts.filter_map(each_candidate(term)).len(),
{
    let f = each_candidate(term);
    let hits = idx.concepts.filter_map(f);
    if hits.len() > 0 {
        let p = lemma_sorted_head(hits);
        let i = lemma_filtered_from(idx.concepts, f, p);
        assert(answers_to(idx.concepts[i].0, term));
    } else {
        assert(stable_sort::<Scored>(hits).len() == 0);
        assert forall|j: int| 0 <= j < idx.concepts.len() implies !answers_to(
            (#[trigger] idx.concepts[j]).0,
            term,
        ) by {
            if answers_to(idx.concepts[j].0, term) {
                lemma_kept_by_filter_map(idx.concepts, f, j);
            }
        }
    }
}

/// Declared by something other than a bare table.
pub open spec fn has_model(c: ConceptView) -> bool {
    exists|i: int| 0 <= i < c.declared_in.len() && (#[trigger] c.declared_in[i]).1 != "sql"@
}

/// Where a declared concept answers to a term that no alias claims, the answer
/// names a declared concept that does, active exactly where something uses it. No
/// other that answers scores higher; of those that score alike it is the first by
/// name; and of those that are as exact, as much a model and as much related, it
/// is the most used. Up to five others are named beside it.
pub proof fn law_the_best_declared_concept_answers(
    idx: IndexView,
    graph: GraphView,
    around: SurroundingsView,
    term: Seq<char>,
    steps: nat,
    i: int,
)
    requires
        ordered(idx.concepts),
        is_unclaimed(idx, trim(term)),
        0 <= i < idx.concepts.len(),
        answers_to(idx.concepts[i].0, trim(term)),
    ensures
        ({
            let t = trim(term);
            let a = answered(idx, graph, around, term, steps);
            let n = a.canonical->Some_0;
            let c = lookup(idx.concepts, n)->Some_0;
            let other = idx.concepts[i];
            &&& a.concept == t
            &&& !a.resolved_via_alias
            &&& a.canonical is Some
            &&& has_key(idx.concepts, n)
            &&& answers_to(n, t)
            &&& a.verdict == Verdict::Active <==> c.usage.len() > 0
            &&& a.verdict == Verdict::DeclaredOnly <==> c.usage.len() == 0
            &&& is_same_word(other.0, t) ==> is_same_word(n, t)
            &&& is_same_word(other.0, t) == is_same_word(n, t) && has_model(other.1) ==> has_model(c)
            &&& is_same_word(other.0, t) == is_same_word(n, t) && has_model(other.1) == has_model(c)
                && other.1.relations.len() == c.relations.len() ==> c.usage.len()
                >= other.1.usage.len() || c.usage.len() >= 500
            &&& total_score(n, c, t) >= total_score(other.0, other.1, t)
            &&& total_score(n, c, t) == total_score(other.0, other.1, t) ==> n == other.0 || before(
                n,
                other.0,
            )
            &&& a.detail matches DetailView::Declared(card) && {
                &&& card.competing.len() <= 5
                &&& card.competing.len() < 5 ==> n == other.0 || card.competing.contains(other.0)
                &&& card.table == c.table
                &&& card.relations == c.relations
                &&& card.fields.is_prefix_of(c.fields)
                &&& card.fields.len() == 15 || card.fields == c.fields
            }
        }),
{
    let t = trim(term);
    lemma_no_alias(idx.aliases, t, 0);
    let f = each_candidate(t);
    let hits = idx.concepts.filter_map(f);
    let found = candidates(idx, t);
    lemma_kept_by_filter_map(idx.concepts, f, i);
    let own = f(idx.concepts[i])->Some_0;
    let q = choose|q: int| 0 <= q < hits.len() && hits[q] == own;
    let p = lemma_sorted_head(hits);
    assert(hits[q].score <= hits[p].score);
    let j = lemma_filtered_from(idx.concepts, f, p);
    let n = found[0].name;
    assert(n == idx.concepts[j].0);
    lemma_lookup_at(idx.concepts, j);
    let c = idx.concepts[j].1;
    assert(lookup(idx.concepts, n) == Some(c));
    let other = idx.concepts[i];
    if total_score(n, c, t) == total_score(other.0, other.1, t) && i < j {
        assert(idx.concepts.take(j)[i] == idx.concepts[i]);
        lemma_kept_by_filter_map(idx.concepts.take(j), f, i);
        let early = idx.concepts.take(j).filter_map(f);
        let z = choose|z: int| 0 <= z < early.len() && early[z] == own;
        assert(hits.take(p)[z] == own);
        assert(hits[z] == own);
        assert(hits[z].score < hits[p].score);
    }
    if j < i {
        assert(before(idx.concepts[j].0, idx.concepts[i].0));
    }
    assert(has_model(c) == is_modelled(c));
    assert(has_model(other.1) == is_modelled(other.1));
    let a = answered(idx, graph, around, term, steps);
    assert(a == ranked_answer(idx, t, found));
    let names = found.skip(1).map_values(each_name());
    lemma_member_sorted::<Scored>(hits, q);
    let r = choose|r: int| 0 <= r < found.len() && found[r] == own;
    let competing = first_of(names, 5);
    if competing.len() < 5 && r > 0 {
        assert(competing == names);
        assert(names[r - 1] == found[r].name);
    }
    assert(first_of(c.fields, 15) =~= c.fields.subrange(0, first_of(c.fields, 15).len() as int));
}

/// An answer of either declared verdict says whether the concept it names is used:
/// active where it is, declared only where it is not.
pub proof fn law_verdicts_tell_of_use(
    idx: IndexView,
    graph: GraphView,
    around: SurroundingsView,
    term: Seq<char>,
    steps: nat,
)
    ensures
        ({
            let a = answered(idx, graph, around, term, steps);
            a.verdict == Verdict::Active || a.verdict == Verdict::DeclaredOnly ==> {
                &&& a.canonical is Some
                &&& has_key(idx.concepts, a.canonical->Some_0)
                &&& a.verdict == Verdict::Active <==> lookup(
                    idx.concepts,
                    a.canonical->Some_0,
                )->Some_0.usage.len() > 0
            }
        }),
{
    crate::query::law_declared_means_declared(idx, graph, around, term, steps);
}

/// A declared name that the first claiming alias leads to is the answer, whatever
/// else answers to the term.
pub proof fn law_the_first_alias_decides(
    idx: IndexView,
    graph: GraphView,
    around: SurroundingsView,
    term: Seq<char>,
    steps: nat,
    i: int,
)
    requires
        0 <= i < idx.aliases.len(),
        answers_to(idx.aliases[i].0, trim(term)),
        forall|j: int| 0 <= j < i ==> !answers_to((#[trigger] idx.aliases[j]).0, trim(term)),
        has_key(idx.concepts, idx.aliases[i].1),
    ensures
        ({
            let a = answered(idx, graph, around, term, steps);
            let c = lookup(idx.concepts, idx.aliases[i].1)->Some_0;
            &&& a.concept == trim(term)
            &&& a.canonical == Some(idx.aliases[i].1)
            &&& a.resolved_via_alias
            &&& a.verdict == Verdict::Active <==> c.usage.len() > 0
            &&& a.verdict == Verdict::DeclaredOnly <==> c.usage.len() == 0
            &&& a.evidence.len() > 0
            &&& a.evidence[0].tier == Tier::Declared
        }),
{
    lemma_first_alias(idx.aliases, trim(term), 0, i);
}

// ---------------------------------------------------------------------------
// What no declaration answers
// ---------------------------------------------------------------------------

/// No symbol answers to a term.
pub open spec fn is_unseen(graph: GraphView, term: Seq<char>) -> bool {
    forall|j: int| 0 <= j < graph.symbols.len() ==> !answers_to((#[trigger] graph.symbols[j]).1.name, term)
}

/// No route's handler answers to a term.
pub open spec fn is_unhandled(graph: GraphView, term: Seq<char>) -> bool {
    forall|j: int| 0 <= j < graph.routes.len() ==> !answers_to((#[trigger] graph.routes[j]).handler, term)
}

/// No file that is looked at bears a term's name.
pub open spec fn is_unnamed(idx: IndexView, around: SurroundingsView, term: Seq<char>) -> bool {
    forall|j: int|
        0 <= j < around.files.len() ==> !(is_seen(
            idx.root,
            #[trigger] around.files[j],
            idx.excludes,
        ) && answers_to(stem(around.files[j]), term))
}

/// Every file is in a language that can be read.
pub open spec fn is_covered(graph: GraphView, around: SurroundingsView) -> bool {
    &&& around.unclassified.len() == 0
    &&& forall|j: int|
        0 <= j < graph.files.len() ==> !(extension(#[trigger] graph.files[j]) matches Some(e)
            && around.unsupported_exts.contains(lowered(e)))
}

pub proof fn lemma_filter_empty<A, B>(s: Seq<A>, f: spec_fn(A) -> Option<B>)
    ensures
        s.filter_map(f).len() == 0 <==> forall|j: int|
            0 <= j < s.len() ==> f(#[trigger] s[j]) is None,
{
    if s.filter_map(f).len() > 0 {
        let i = lemma_filtered_from(s, f, 0);
        assert(f(s[i]) is Some);
    } else {
        assert forall|j: int| 0 <= j < s.len() implies f(#[trigger] s[j]) is None by {
            if f(s[j]) is Some {
                lemma_kept_by_filter_map(s, f, j);
            }
        }
    }
}

proof fn lemma_hits(graph: GraphView, term: Seq<char>)
    ensures
        symbol_hits(graph, term).len() == 0 <==> is_unseen(graph, term),
        symbol_hits(graph, term).len() > 0 ==> exists|i: int|
            0 <= i < graph.symbols.len() && (#[trigger] graph.symbols[i]).1 == symbol_hits(
                graph,
                term,
            )[0].symbol && answers_to(graph.symbols[i].1.name, term),
{
    let f = each_hit(term);
    let all = graph.symbols.filter_map(f);
    lemma_filter_empty(graph.symbols, f);
    if all.len() > 0 {
        lemma_member_sorted::<Hit>(all, 0);
        lemma_sorted_member::<Hit>(all, 0);
        let top = symbol_hits(graph, term)[0];
        let q = choose|q: int| 0 <= q < all.len() && all[q] == top;
        let i = lemma_filtered_from(graph.symbols, f, q);
        assert(graph.symbols[i].1 == top.symbol);
        assert(f(graph.symbols[i]) is Some);
    } else {
        assert(stable_sort::<Hit>(all).len() == 0);
        assert forall|j: int| 0 <= j < graph.symbols.len() implies !answers_to(
            (#[trigger] graph.symbols[j]).1.name,
            term,
        ) by {
            assert(f(graph.symbols[j]) is None);
        }
    }
    if is_unseen(graph, term) {
        assert forall|j: int| 0 <= j < graph.symbols.len() implies f(
            #[trigger] graph.symbols[j],
        ) is None by {}
    }
}

proof fn lemma_routes(graph: GraphView, term: Seq<char>)
    ensures
        route_hits(graph, term).len() == 0 <==> is_unhandled(graph, term),
        route_hits(graph, term).len() > 0 ==> graph.routes.contains(route_hits(graph, term)[0])
            && answers_to(route_hits(graph, term)[0].handler, term),
{
    let f = each_handler(term);
    lemma_filter_empty(graph.routes, f);
    let all = graph.routes.filter_map(f);
    if all.len() > 0 {
        let i = lemma_filtered_from(graph.routes, f, 0);
        assert(graph.routes.contains(graph.routes[i]));
        assert(f(graph.routes[i]) is Some);
    } else {
        assert forall|j: int| 0 <= j < graph.routes.len() implies !answers_to(
            (#[trigger] graph.routes[j]).handler,
            term,
        ) by {
            assert(f(graph.routes[j]) is None);
        }
    }
}

proof fn lemma_named(idx: IndexView, around: SurroundingsView, term: Seq<char>)
    ensures
        named_files(idx, around.files, term).len() == 0 <==> is_unnamed(idx, around, term),
        forall|k: int|
            0 <= k < named_files(idx, around.files, term).len() ==> {
                let file = #[trigger] named_files(idx, around.files, term)[k];
                &&& around.files.contains(file)
                &&& is_seen(idx.root, file, idx.excludes)
                &&& answers_to(stem(file), term)
            },
{
    let f = each_named(idx.root, idx.excludes, term);
    let all = around.files.filter_map(f);
    lemma_filter_empty(around.files, f);
    if all.len() == 0 {
        assert forall|j: int| 0 <= j < around.files.len() implies !(is_seen(
            idx.root,
            #[trigger] around.files[j],
            idx.excludes,
        ) && answers_to(stem(around.files[j]), term)) by {
            assert(f(around.files[j]) is None);
        }
    }
    assert forall|k: int| 0 <= k < named_files(idx, around.files, term).len() implies {
        let file = #[trigger] named_files(idx, around.files, term)[k];
        &&& around.files.contains(file)
        &&& is_seen(idx.root, file, idx.excludes)
        &&& answers_to(stem(file), term)
    } by {
        assert(named_files(idx, around.files, term)[k] == all[k]);
        let i = lemma_filtered_from(around.files, f, k);
        assert(around.files.contains(around.files[i]));
    }
}

proof fn lemma_blind(graph: GraphView, around: SurroundingsView)
    ensures
        blind_spots(graph, around).len() == 0 <==> is_covered(graph, around),
{
    let f = each_unsupported(around.unsupported_exts);
    lemma_filter_empty(graph.files, f);
    if graph.files.filter_map(f).len() == 0 {
        assert forall|j: int| 0 <= j < graph.files.len() implies !(extension(
            #[trigger] graph.files[j],
        ) matches Some(e) && around.unsupported_exts.contains(lowered(e))) by {
            assert(f(graph.files[j]) is None);
        }
    }
    if is_covered(graph, around) {
        assert forall|j: int| 0 <= j < graph.files.len() implies f(
            #[trigger] graph.files[j],
        ) is None by {
            assert(!(extension(graph.files[j]) matches Some(e) && around.unsupported_exts.contains(
                lowered(e),
            )));
        }
    }
}

/// What answers a term that nothing declares: a symbol where one bears the name,
/// else a route's handler, each as a thing of the source that is no storage model;
/// else a file that merely resembles it, which is not known; else nothing, which is
/// an absence only where every file can be read.
pub proof fn law_answers_without_a_declaration(
    idx: IndexView,
    graph: GraphView,
    around: SurroundingsView,
    term: Seq<char>,
    steps: nat,
)
    requires
        is_unclaimed(idx, trim(term)),
        is_undeclared(idx, trim(term)),
    ensures
        ({
            let t = trim(term);
            let a = answered(idx, graph, around, term, steps);
            &&& a.concept == t
            &&& a.verdict == Verdict::InSource <==> !is_unseen(graph, t) || !is_unhandled(graph, t)
            &&& a.verdict == Verdict::Unknown <==> is_unseen(graph, t) && is_unhandled(graph, t)
                && !is_unnamed(idx, around, t)
            &&& a.verdict == Verdict::InsufficientCoverage <==> is_unseen(graph, t) && is_unhandled(
                graph,
                t,
            ) && is_unnamed(idx, around, t) && !is_covered(graph, around)
            &&& a.verdict == Verdict::Absent <==> is_unseen(graph, t) && is_unhandled(graph, t)
                && is_unnamed(idx, around, t) && is_covered(graph, around)
            &&& a.canonical is Some <==> a.verdict == Verdict::InSource
            &&& !is_unseen(graph, t) ==> exists|i: int|
                0 <= i < graph.symbols.len() && (#[trigger] graph.symbols[i]).1.name
                    == a.canonical->Some_0 && answers_to(graph.symbols[i].1.name, t)
            &&& is_unseen(graph, t) && !is_unhandled(graph, t) ==> exists|i: int|
                0 <= i < graph.routes.len() && (#[trigger] graph.routes[i]).handler
                    == a.canonical->Some_0 && answers_to(graph.routes[i].handler, t)
            &&& a.verdict == Verdict::Unknown ==> (a.detail matches DetailView::Reading(files, _)
                && files.len() > 0 && forall|k: int|
                0 <= k < files.len() ==> around.files.contains(#[trigger] files[k]) && answers_to(
                    stem(files[k]),
                    t,
                ))
        }),
{
    let t = trim(term);
    lemma_no_alias(idx.aliases, t, 0);
    lemma_candidates(idx, t);
    lemma_hits(graph, t);
    lemma_routes(graph, t);
    lemma_named(idx, around, t);
    lemma_blind(graph, around);
    let a = answered(idx, graph, around, term, steps);
    if !is_unseen(graph, t) {
        let top = symbol_hits(graph, t)[0];
        let i = choose|i: int|
            0 <= i < graph.symbols.len() && (#[trigger] graph.symbols[i]).1 == top.symbol
                && answers_to(graph.symbols[i].1.name, t);
        assert(graph.symbols[i].1.name == a.canonical->Some_0);
    } else if !is_unhandled(graph, t) {
        let top = route_hits(graph, t)[0];
        let i = choose|i: int| 0 <= i < graph.routes.len() && graph.routes[i] == top;
        assert(graph.routes[i].handler == a.canonical->Some_0);
    } else if !is_unnamed(idx, around, t) {
        let files = named_files(idx, around.files, t);
        assert(a.detail == DetailView::Reading(files, crate::query::reading_question(t)));
        assert forall|k: int| 0 <= k < files.len() implies around.files.contains(
            #[trigger] files[k],
        ) && answers_to(stem(files[k]), t) by {}
    }
}

/// A file is looked at only where no directory on its way holds what others
/// built, and none that the project leaves out.
pub proof fn law_built_files_are_not_looked_at(
    root: Seq<char>,
    path: Seq<char>,
    excludes: Seq<Seq<char>>,
    k: int,
)
    requires
        is_seen(root, path, excludes),
        0 <= k < split(path, '/').len() - 1,
    ensures
        ({
            let dir = split(path, '/')[k];
            &&& dir != "node_modules"@
            &&& dir != ".git"@
            &&& dir != "target"@
            &&& dir != "dist"@
            &&& dir != ".next"@
            &&& dir != "__pycache__"@
            &&& !is_excluded(join(split(path, '/').take(k + 1), "/"@), excludes)
        }),
{
    let parts = split(path, '/');
    assert(!is_hidden_at(parts, k, excludes));
    assert(first_of(parts, k + 1) =~= parts.take(k + 1));
}

/// Where no directory on a file's way holds what others built and the project
/// leaves nothing out, the file is looked at.
pub proof fn law_other_files_are_looked_at(root: Seq<char>, path: Seq<char>)
    requires
        ({
            let dir = display_name(root);
            dir != "node_modules"@ && dir != ".git"@ && dir != "target"@ && dir != "dist"@ && dir
                != ".next"@ && dir != "__pycache__"@
        }),
        forall|k: int|
            0 <= k < split(path, '/').len() - 1 ==> ({
                let dir = #[trigger] split(path, '/')[k];
                dir != "node_modules"@ && dir != ".git"@ && dir != "target"@ && dir != "dist"@ && dir
                    != ".next"@ && dir != "__pycache__"@
            }),
    ensures
        is_seen(root, path, seq![]),
{
    let parts = split(path, '/');
    assert forall|k: int| 0 <= k < parts.len() - 1 implies !#[trigger] is_hidden_at(
        parts,
        k,
        seq![],
    ) by {
        assert(!is_unread_dir(split(path, '/')[k]));
    }
}

// ---------------------------------------------------------------------------
// Evidence
// ---------------------------------------------------------------------------

/// A concept's evidence names every place that declares it, and the uses of it
/// behind them, up to eight.
pub proof fn law_evidence_names_its_places(c: ConceptView, i: int)
    ensures
        ({
            let e = crate::model::concept_evidence(c);
            &&& e.len() == c.declared_in.len() + (if c.usage.len() < 8 {
                c.usage.len() as int
            } else {
                8
            })
            &&& 0 <= i < c.declared_in.len() ==> e[i].tier == Tier::Declared && e[i].what
                == c.declared_in[i].1 + " declaration in "@ + c.declared_in[i].0
            &&& 0 <= i < c.usage.len() && i < 8 ==> e[c.declared_in.len() + i].tier == Tier::Used
                && e[c.declared_in.len() + i].what == c.usage[i].1 + " access in "@ + c.usage[i].0
        }),
{
}

} // verus!
