//! What advice on intents and changes satisfies.
use vstd::prelude::*;
use crate::advice::{
    change_summary, each_canonical, each_extension, each_incoming, each_new, each_outgoing,
    each_related, each_unsure, edges_of, impact_of, intent_of, is_filler, plain_words, reach_of,
    telling, terms_of, DependentView, ExtensionView, ImpactView, Severity,
};
use crate::answer_laws::lemma_filtered_from;
use crate::guard_laws::lemma_join_holds;
use crate::model::{first_of, IndexView};
use crate::query::{answered, each_first, lemma_kept_by_filter_map, SurroundingsView, Verdict};
use crate::structural::{empty_graph, GraphView};
use crate::table::{has_key, lemma_sorted_set, lookup, sorted_set};
use crate::text::{before, contains, decimal, join, lemma_before_irreflexive, lowered};

verus! {

// ---------------------------------------------------------------------------
// Impact
// ---------------------------------------------------------------------------

/// A sorted list without repetition is as long as there are different texts.
pub proof fn lemma_sorted_set_counts(s: Seq<Seq<char>>)
    ensures
        sorted_set(s).no_duplicates(),
        sorted_set(s).len() == s.to_set().len(),
{
    let r = sorted_set(s);
    lemma_sorted_set(s);
    assert(r.no_duplicates()) by {
        assert forall|i: int, j: int| 0 <= i < r.len() && 0 <= j < r.len() && i != j implies r[i]
            != r[j] by {
            lemma_before_irreflexive(r[i]);
            if i < j {
                assert(before(r[i], r[j]));
            } else {
                assert(before(r[j], r[i]));
            }
        }
    }
    r.unique_seq_to_set();
    assert(r.to_set() =~= s.to_set()) by {
        assert forall|y: Seq<char>| #[trigger] r.to_set().contains(y) <==> s.to_set().contains(y) by {
            assert(r.contains(y) <==> s.contains(y));
        }
    }
}

/// The files that use a concept.
pub open spec fn using_files(idx: IndexView, name: Seq<char>) -> Set<Seq<char>> {
    match lookup(idx.concepts, name) {
        Some(c) => c.usage.map_values(|p: (Seq<char>, Seq<char>)| p.0).to_set(),
        None => Set::empty(),
    }
}

/// The files that reach a name by imports.
pub open spec fn importing(reach: Seq<(Seq<char>, Seq<DependentView>)>, name: Seq<char>) -> nat {
    match lookup(reach, name) {
        Some(d) => d.len(),
        None => 0,
    }
}

/// How far a change is felt: widely where more than eight files use the target,
/// more than three concepts relate to it or more than five files reach it by
/// imports; not at all exactly where there is none of these; in between otherwise.
/// The concepts that relate to it are those that name it among their relations,
/// and the files are those that use it, up to twenty of them.
pub proof fn law_severity_is_what_is_touched(
    idx: IndexView,
    name: Seq<char>,
    reach: Seq<(Seq<char>, Seq<DependentView>)>,
)
    ensures
        ({
            let r = reach_of(idx, name, reach);
            let users = using_files(idx, name).len();
            let related = r.declared_dependents.len();
            let importers = importing(reach, name);
            &&& r.target == name
            &&& r.severity == Severity::High <==> users > 8 || related > 3 || importers > 5
            &&& r.severity == Severity::NoneObserved <==> users == 0 && related == 0 && importers
                == 0
            &&& r.severity == Severity::NoneObserved <==> r.used_by_files.len() == 0
                && r.declared_dependents.len() == 0 && r.structural_dependents.len() == 0
            &&& r.used_by_files.len() == (if users < 20 {
                users
            } else {
                20
            })
            &&& r.used_by_files.no_duplicates()
            &&& forall|f: Seq<char>| #[trigger]
                r.used_by_files.contains(f) ==> using_files(idx, name).contains(f)
            &&& has_key(idx.concepts, name) ==> forall|i: int|
                0 <= i < idx.concepts.len() && (#[trigger] idx.concepts[i]).1.relations.contains(
                    name,
                ) ==> r.declared_dependents.contains(idx.concepts[i].0)
            &&& forall|d: Seq<char>| #[trigger]
                r.declared_dependents.contains(d) ==> exists|i: int|
                    0 <= i < idx.concepts.len() && (#[trigger] idx.concepts[i]).0 == d
                        && idx.concepts[i].1.relations.contains(name)
            &&& r.structural_dependents.len() == (if importers < 20 {
                importers
            } else {
                20
            })
            &&& lookup(reach, name) matches Some(d) ==> r.structural_dependents.is_prefix_of(d)
        }),
{
    let r = reach_of(idx, name, reach);
    let f = each_related(name);
    if let Some(c) = lookup(idx.concepts, name) {
        let firsts = c.usage.map_values(each_first());
        assert(firsts =~= c.usage.map_values(|p: (Seq<char>, Seq<char>)| p.0));
        lemma_sorted_set_counts(firsts);
        lemma_sorted_set(firsts);
        let files = sorted_set(firsts);
        assert forall|x: Seq<char>| #[trigger] r.used_by_files.contains(x) implies using_files(
            idx,
            name,
        ).contains(x) by {
            let k = choose|k: int| 0 <= k < r.used_by_files.len() && r.used_by_files[k] == x;
            assert(files[k] == x);
            assert(files.contains(x));
        }
        assert forall|i: int|
            0 <= i < idx.concepts.len() && (#[trigger] idx.concepts[i]).1.relations.contains(
                name,
            ) implies r.declared_dependents.contains(idx.concepts[i].0) by {
            lemma_kept_by_filter_map(idx.concepts, f, i);
        }
    } else {
        assert(r.used_by_files =~= Seq::<Seq<char>>::empty());
    }
    assert forall|d: Seq<char>| #[trigger] r.declared_dependents.contains(d) implies exists|i: int|
        0 <= i < idx.concepts.len() && (#[trigger] idx.concepts[i]).0 == d
            && idx.concepts[i].1.relations.contains(name) by {
        let k = choose|k: int| 0 <= k < r.declared_dependents.len() && r.declared_dependents[k] == d;
        let i = lemma_filtered_from(idx.concepts, f, k);
        assert(idx.concepts[i].0 == d);
    }
    if let Some(d) = lookup(reach, name) {
        assert(first_of(d, 20) =~= d.subrange(0, first_of(d, 20).len() as int));
    }
}

/// How severe one severity is beside another.
pub open spec fn weight(s: Severity) -> int {
    match s {
        Severity::NoneObserved => 0,
        Severity::Moderate => 1,
        Severity::High => 2,
    }
}

/// Severity never falls where users, related concepts or importers are added.
pub proof fn law_severity_never_falls(
    idx: IndexView,
    name: Seq<char>,
    reach: Seq<(Seq<char>, Seq<DependentView>)>,
    later: IndexView,
    later_reach: Seq<(Seq<char>, Seq<DependentView>)>,
)
    requires
        using_files(idx, name).len() <= using_files(later, name).len(),
        reach_of(idx, name, reach).declared_dependents.len() <= reach_of(
            later,
            name,
            later_reach,
        ).declared_dependents.len(),
        importing(reach, name) <= importing(later_reach, name),
    ensures
        weight(reach_of(idx, name, reach).severity) <= weight(
            reach_of(later, name, later_reach).severity,
        ),
{
    law_severity_is_what_is_touched(idx, name, reach);
    law_severity_is_what_is_touched(later, name, later_reach);
}

/// The impact of a declared name is that of the name itself, whatever else answers
/// to it; that of a term is that of the concept that answers; and what nothing
/// answers has none, only the answer that says so.
pub proof fn law_impact_is_of_what_answers(
    idx: IndexView,
    graph: GraphView,
    around: SurroundingsView,
    term: Seq<char>,
    reach: Seq<(Seq<char>, Seq<DependentView>)>,
)
    ensures
        has_key(idx.concepts, term) ==> impact_of(idx, graph, around, term, reach)
            == ImpactView::Known(reach_of(idx, term, reach)),
        !has_key(idx.concepts, term) ==> ({
            let a = answered(idx, graph, around, term, idx.aliases.len());
            impact_of(idx, graph, around, term, reach) == (match a.canonical {
                Some(name) => ImpactView::Known(reach_of(idx, name, reach)),
                None => ImpactView::Undeclared(a),
            })
        }),
{
}

// ---------------------------------------------------------------------------
// Imports
// ---------------------------------------------------------------------------

/// The edges of a file are the resolved imports from it and to it, and no others.
pub proof fn law_edges_touch_their_file(graph: GraphView, file: Seq<char>, i: int)
    ensures
        ({
            let e = edges_of(graph, file);
            &&& e.known_to_this_scan <==> graph.files.contains(file)
            &&& 0 <= i < graph.imports.len() && graph.imports[i].resolved is Some
                && graph.imports[i].from_file == file ==> e.imports.contains(
                graph.imports[i].resolved->Some_0,
            )
            &&& 0 <= i < graph.imports.len() && graph.imports[i].resolved is Some
                && graph.imports[i].resolved->Some_0.to == file ==> e.imported_by.contains(
                (graph.imports[i].from_file, graph.imports[i].resolved->Some_0),
            )
            &&& 0 <= i < e.imports.len() ==> exists|k: int|
                0 <= k < graph.imports.len() && (#[trigger] graph.imports[k]).from_file == file
                    && graph.imports[k].resolved == Some(e.imports[i])
            &&& 0 <= i < e.imported_by.len() ==> e.imported_by[i].1.to == file
        }),
{
    let e = edges_of(graph, file);
    let f = each_outgoing(file);
    let g = each_incoming(file);
    if 0 <= i < graph.imports.len() && graph.imports[i].resolved is Some {
        if graph.imports[i].from_file == file {
            lemma_kept_by_filter_map(graph.imports, f, i);
        }
        if graph.imports[i].resolved->Some_0.to == file {
            lemma_kept_by_filter_map(graph.imports, g, i);
        }
    }
    if 0 <= i < e.imports.len() {
        let k = lemma_filtered_from(graph.imports, f, i);
        assert(graph.imports[k].from_file == file);
    }
    if 0 <= i < e.imported_by.len() {
        let k = lemma_filtered_from(graph.imports, g, i);
    }
}

// ---------------------------------------------------------------------------
// Intents
// ---------------------------------------------------------------------------

proof fn lemma_telling(words: Seq<Seq<char>>, w: Seq<char>)
    ensures
        telling(words).contains(w) <==> words.contains(w) && w.len() >= 4 && !is_filler(w),
    decreases words.len(),
{
    if words.len() > 0 {
        let front = words.drop_last();
        lemma_telling(front, w);
        let r = telling(front);
        let whole = telling(words);
        if words.contains(w) {
            let k = choose|k: int| 0 <= k < words.len() && words[k] == w;
            if k < front.len() {
                assert(front[k] == w);
            }
        }
        if front.contains(w) {
            let k = choose|k: int| 0 <= k < front.len() && front[k] == w;
            assert(words[k] == w);
        }
        if r.contains(w) {
            let k = choose|k: int| 0 <= k < r.len() && r[k] == w;
            assert(whole[k] == w);
        }
        if words.last() == w {
            assert(words[words.len() - 1] == w);
            lemma_telling(front, words.last());
            if w.len() >= 4 && !is_filler(w) && !r.contains(w) {
                assert(whole[r.len() as int] == w);
            }
        }
        if whole.contains(w) && !r.contains(w) {
            let k = choose|k: int| 0 <= k < whole.len() && whole[k] == w;
            if k < r.len() {
                assert(r[k] == w);
            }
        }
    }
}

/// The terms of an intent are its words of four letters or more that are no
/// filler; all of them where there are fewer than eight.
pub proof fn law_terms_are_the_telling_words(text: Seq<char>, w: Seq<char>)
    ensures
        terms_of(text).contains(w) ==> plain_words(lowered(text)).contains(w) && w.len() >= 4
            && !is_filler(w),
        terms_of(text).len() < 8 && plain_words(lowered(text)).contains(w) && w.len() >= 4
            && !is_filler(w) ==> terms_of(text).contains(w),
{
    let all = telling(plain_words(lowered(text)));
    lemma_telling(plain_words(lowered(text)), w);
    if terms_of(text).contains(w) {
        let k = choose|k: int| 0 <= k < terms_of(text).len() && terms_of(text)[k] == w;
        assert(all[k] == w);
    }
}

/// A term of an intent is to be extended where a declared concept answers to it,
/// to be confirmed where what answers is not known, and otherwise new. What is
/// extended is named as the answer names it.
pub proof fn law_intents_follow_the_answers(
    idx: IndexView,
    around: SurroundingsView,
    text: Seq<char>,
    i: int,
)
    requires
        0 <= i < terms_of(text).len(),
    ensures
        ({
            let t = terms_of(text)[i];
            let r = intent_of(idx, around, text);
            let a = answered(idx, empty_graph(), around, t, idx.aliases.len());
            &&& r.recognised == terms_of(text)
            &&& a.verdict == Verdict::Active || a.verdict == Verdict::DeclaredOnly ==> exists|k: int|
                0 <= k < r.extend.len() && (#[trigger] r.extend[k]).concept == t
                    && r.extend[k].canonical == a.canonical && r.extend[k].verdict == a.verdict
            &&& a.verdict == Verdict::Unknown <==> r.needs_confirmation.contains(t)
            &&& a.verdict == Verdict::InSource || a.verdict == Verdict::Absent || a.verdict
                == Verdict::InsufficientCoverage <==> r.create.contains(t)
        }),
{
    let terms = terms_of(text);
    let t = terms[i];
    let r = intent_of(idx, around, text);
    let a = answered(idx, empty_graph(), around, t, idx.aliases.len());
    let e = each_extension(idx, around);
    let n = each_new(idx, around);
    let u = each_unsure(idx, around);
    if a.verdict == Verdict::Active || a.verdict == Verdict::DeclaredOnly {
        lemma_kept_by_filter_map(terms, e, i);
        let k = choose|k: int| 0 <= k < r.extend.len() && r.extend[k] == e(t)->Some_0;
        assert(r.extend[k].concept == t);
    }
    if a.verdict == Verdict::Unknown {
        lemma_kept_by_filter_map(terms, u, i);
    }
    if n(t) is Some {
        lemma_kept_by_filter_map(terms, n, i);
    }
    if r.needs_confirmation.contains(t) {
        let k = choose|k: int| 0 <= k < r.needs_confirmation.len() && r.needs_confirmation[k] == t;
        let j = lemma_filtered_from(terms, u, k);
    }
    if r.create.contains(t) {
        let k = choose|k: int| 0 <= k < r.create.len() && r.create[k] == t;
        let j = lemma_filtered_from(terms, n, k);
    }
}

/// The words that say nothing of what somebody is about.
pub open spec fn empty_words() -> Seq<Seq<char>> {
    seq![
        "want"@,
        "need"@,
        "make"@,
        "build"@,
        "better"@,
        "improve"@,
        "with"@,
        "that"@,
        "this"@,
        "have"@,
        "from"@,
        "into"@,
        "would"@,
        "should"@,
        "could"@,
        "will"@,
        "more"@,
        "less"@,
        "system"@,
        "support"@,
        "please"@,
        "about"@,
        "when"@,
        "then"@,
        "them"@,
        "track"@,
        "tracking"@,
        "show"@,
        "view"@,
        "page"@,
        "data"@,
        "info"@,
        "some"@,
        "every"@,
        "feature"@,
        "the"@,
        "and"@,
        "for"@,
        "add"@,
        "create"@,
        "user"@,
        "users"@,
    ]
}

/// A word says nothing exactly where it is one of these.
pub proof fn law_words_that_say_nothing(w: Seq<char>)
    ensures
        is_filler(w) <==> empty_words().contains(w),
{
    let all = empty_words();
    assert(all[0] == "want"@ && all[1] == "need"@ && all[2] == "make"@ && all[3] == "build"@);
    assert(all[4] == "better"@ && all[5] == "improve"@ && all[6] == "with"@ && all[7] == "that"@);
    assert(all[8] == "this"@ && all[9] == "have"@ && all[10] == "from"@ && all[11] == "into"@);
    assert(all[12] == "would"@ && all[13] == "should"@ && all[14] == "could"@ && all[15] == "will"@);
    assert(all[16] == "more"@ && all[17] == "less"@ && all[18] == "system"@ && all[19] == "support"@);
    assert(all[20] == "please"@ && all[21] == "about"@ && all[22] == "when"@ && all[23] == "then"@);
    assert(all[24] == "them"@ && all[25] == "track"@ && all[26] == "tracking"@ && all[27] == "show"@);
    assert(all[28] == "view"@ && all[29] == "page"@ && all[30] == "data"@ && all[31] == "info"@);
    assert(all[32] == "some"@ && all[33] == "every"@ && all[34] == "feature"@ && all[35] == "the"@);
    assert(all[36] == "and"@ && all[37] == "for"@ && all[38] == "add"@ && all[39] == "create"@);
    assert(all[40] == "user"@ && all[41] == "users"@);
}

/// What is to be done is said by what there is to extend, by number and name, and
/// by what is new; where there is nothing to extend the intent is new ground only
/// where nothing is in doubt.
pub proof fn law_summaries_name_what_is_to_be_done(
    extend: Seq<ExtensionView>,
    create: Seq<Seq<char>>,
    unsure: Seq<Seq<char>>,
    i: int,
)
    ensures
        extend.len() > 0 ==> decimal(extend.len()).is_prefix_of(
            change_summary(extend, create, unsure),
        ),
        0 <= i < extend.len() ==> (extend[i].canonical matches Some(name) ==> contains(
            change_summary(extend, create, unsure),
            name,
        )),
        extend.len() > 0 && 0 <= i < create.len() ==> contains(
            change_summary(extend, create, unsure),
            create[i],
        ),
        extend.len() == 0 && create.len() > 0 && unsure.len() == 0 ==> change_summary(
            extend,
            create,
            unsure,
        ) == "No named concept exists here — this intent is greenfield for this project."@,
        extend.len() == 0 && (create.len() == 0 || unsure.len() > 0) ==> change_summary(
            extend,
            create,
            unsure,
        )
            == "Nothing matched declarations. Either the vocabulary differs from the project's or this is new territory."@,
{
    if extend.len() > 0 {
        let s = change_summary(extend, create, unsure);
        let n = decimal(extend.len());
        let names = extend.filter_map(each_canonical());
        let tail = if create.len() == 0 {
            "Nothing genuinely new required."@
        } else {
            "Only genuinely new: "@ + join(create, ", "@) + "."@
        };
        let middle = " concept(s) already exist: extend "@;
        assert(s =~= n + (middle + join(names, ", "@) + ". "@ + tail));
        assert(s.subrange(0, n.len() as int) =~= n);
        if 0 <= i < extend.len() && extend[i].canonical is Some {
            lemma_kept_by_filter_map(extend, each_canonical(), i);
            let k = choose|k: int| 0 <= k < names.len() && names[k] == extend[i].canonical->0;
            lemma_join_holds(names, ", "@, k);
            assert(s =~= (n + middle) + join(names, ", "@) + (". "@ + tail));
            lemma_stays_within(n + middle, join(names, ", "@), ". "@ + tail, names[k]);
        }
        if 0 <= i < create.len() {
            lemma_join_holds(create, ", "@, i);
            let front = n + middle + join(names, ", "@) + ". "@ + "Only genuinely new: "@;
            assert(s =~= front + join(create, ", "@) + "."@);
            lemma_stays_within(front, join(create, ", "@), "."@, create[i]);
        }
    }
}

proof fn lemma_stays_within(a: Seq<char>, b: Seq<char>, c: Seq<char>, x: Seq<char>)
    requires
        contains(b, x),
    ensures
        contains(a + b + c, x),
{
    let whole = a + b + c;
    let i = choose|i: int| crate::text::occurs_at(b, x, i);
    assert(whole.subrange(a.len() + i, a.len() + i + x.len()) =~= b.subrange(i, i + x.len()));
    assert(crate::text::occurs_at(whole, x, a.len() + i));
}

} // verus!
