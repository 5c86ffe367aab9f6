//! What holds of every scan: nothing is invented, nothing is lost, and what an
//! earlier scan learnt is kept.
use vstd::prelude::*;
use crate::invariants::each_ghost;
use crate::model::{ConceptView, DeclFragmentView, FileFactsView, IndexView};
use crate::scan::{
    absorb, absorb_all, assembled, attached, can_reuse_usage, declares_in, each_dated, each_settled,
    hits_of, merge_all, merge_one, merged, merges, prior_concepts, scanned, scanned_concepts,
    with_sightings, Attaching, ScannableFileView, SettingsView,
};
use crate::table::{
    has_key, lemma_lookup_at, lemma_pair_set, lemma_put, lookup, ordered, pair_set, put, without,
};
use crate::text::{before, lemma_before_irreflexive};

verus! {

// ---------------------------------------------------------------------------
// Tables
// ---------------------------------------------------------------------------

/// A table without a key has all other keys, with their values.
proof fn lemma_without<V>(m: Seq<(Seq<char>, V)>, k: Seq<char>)
    requires
        ordered(m),
    ensures
        ordered(without(m, k)),
        forall|e: (Seq<char>, V)|
            #[trigger] without(m, k).contains(e) <==> m.contains(e) && e.0 != k,
    decreases m.len(),
{
    let r = without(m, k);
    if m.len() == 0 {
    } else if m[0].0 == k {
        let rest = m.skip(1);
        assert forall|e: (Seq<char>, V)| #[trigger] r.contains(e) <==> m.contains(e) && e.0 != k by {
            if r.contains(e) {
                let i = choose|i: int| 0 <= i < rest.len() && rest[i] == e;
                assert(m[i + 1] == e);
                lemma_before_irreflexive(k);
                assert(before(m[0].0, m[i + 1].0));
            }
            if m.contains(e) && e.0 != k {
                let i = choose|i: int| 0 <= i < m.len() && m[i] == e;
                assert(rest[i - 1] == e);
            }
        }
        assert forall|i: int, j: int| 0 <= i < j < r.len() implies before(
            (#[trigger] r[i]).0,
            (#[trigger] r[j]).0,
        ) by {
            assert(r[i] == m[i + 1]);
            assert(r[j] == m[j + 1]);
        }
    } else {
        let rest = m.skip(1);
        assert forall|i: int, j: int| 0 <= i < j < rest.len() implies before(
            (#[trigger] rest[i]).0,
            (#[trigger] rest[j]).0,
        ) by {
            assert(rest[i] == m[i + 1]);
            assert(rest[j] == m[j + 1]);
        }
        lemma_without(rest, k);
        let w = without(rest, k);
        assert(r =~= seq![m[0]] + w);
        assert forall|e: (Seq<char>, V)| #[trigger] r.contains(e) <==> m.contains(e) && e.0 != k by {
            if r.contains(e) {
                let i = choose|i: int| 0 <= i < r.len() && r[i] == e;
                if i == 0 {
                    assert(m[0] == e);
                } else {
                    assert(w[i - 1] == e);
                    assert(w.contains(e));
                    let j = choose|j: int| 0 <= j < rest.len() && rest[j] == e;
                    assert(m[j + 1] == e);
                }
            }
            if m.contains(e) && e.0 != k {
                let i = choose|i: int| 0 <= i < m.len() && m[i] == e;
                if i == 0 {
                    assert(r[0] == e);
                } else {
                    assert(rest[i - 1] == e);
                    assert(rest.contains(e));
                    assert(w.contains(e));
                    let j = choose|j: int| 0 <= j < w.len() && w[j] == e;
                    assert(r[j + 1] == e);
                }
            }
        }
        assert forall|i: int, j: int| 0 <= i < j < r.len() implies before(
            (#[trigger] r[i]).0,
            (#[trigger] r[j]).0,
        ) by {
            if i == 0 {
                assert(w.contains(w[j - 1]));
                let x = choose|x: int| 0 <= x < rest.len() && rest[x] == w[j - 1];
                assert(m[x + 1] == r[j]);
            } else {
                assert(r[i] == w[i - 1]);
                assert(r[j] == w[j - 1]);
            }
        }
    }
}

/// A key has a value in a table exactly where the table holds the two.
proof fn lemma_lookup_contains<V>(m: Seq<(Seq<char>, V)>, k: Seq<char>, v: V)
    requires
        ordered(m),
    ensures
        lookup(m, k) == Some(v) <==> m.contains((k, v)),
{
    if lookup(m, k) == Some(v) {
        assert(has_key(m, k));
        let i = choose|i: int| 0 <= i < m.len() && #[trigger] m[i].0 == k;
        lemma_lookup_at(m, i);
        assert(m[i] == (k, v));
    }
    if m.contains((k, v)) {
        let i = choose|i: int| 0 <= i < m.len() && m[i] == (k, v);
        lemma_lookup_at(m, i);
    }
}

/// Without a key, every other key keeps its value.
pub proof fn lemma_without_lookup<V>(m: Seq<(Seq<char>, V)>, k: Seq<char>)
    requires
        ordered(m),
    ensures
        ordered(without(m, k)),
        lookup(without(m, k), k) is None,
        forall|x: Seq<char>| x != k ==> #[trigger] lookup(without(m, k), x) == lookup(m, x),
{
    lemma_without(m, k);
    let r = without(m, k);
    if lookup(r, k) is Some {
        lemma_lookup_contains(r, k, lookup(r, k)->Some_0);
    }
    assert forall|x: Seq<char>| x != k implies #[trigger] lookup(r, x) == lookup(m, x) by {
        if lookup(r, x) is Some {
            let v = lookup(r, x)->Some_0;
            lemma_lookup_contains(r, x, v);
            lemma_lookup_contains(m, x, v);
        }
        if lookup(m, x) is Some {
            let v = lookup(m, x)->Some_0;
            lemma_lookup_contains(m, x, v);
            lemma_lookup_contains(r, x, v);
        }
    }
}

// ---------------------------------------------------------------------------
// Properties of every concept
// ---------------------------------------------------------------------------

/// A property of the concepts of a table, under their names.
pub open spec fn all_concepts(
    m: Seq<(Seq<char>, ConceptView)>,
    p: spec_fn(Seq<char>, ConceptView) -> bool,
) -> bool {
    ordered(m) && forall|k: Seq<char>| #[trigger] lookup(m, k) matches Some(c) ==> p(k, c)
}

proof fn lemma_put_all(
    m: Seq<(Seq<char>, ConceptView)>,
    p: spec_fn(Seq<char>, ConceptView) -> bool,
    k: Seq<char>,
    c: ConceptView,
)
    requires
        all_concepts(m, p),
        p(k, c),
    ensures
        all_concepts(put(m, k, c), p),
{
    lemma_put(m, k, c);
    assert forall|x: Seq<char>| #[trigger] lookup(put(m, k, c), x) matches Some(d) implies p(
        x,
        lookup(put(m, k, c), x)->Some_0,
    ) by {
        if x != k {
            assert(lookup(put(m, k, c), x) == lookup(m, x));
        }
    }
}

/// What a property must do to hold of everything that a scan assembles.
pub open spec fn survives_absorbing(p: spec_fn(Seq<char>, ConceptView) -> bool, now: int) -> bool {
    forall|c: Option<ConceptView>, rel: Seq<char>, d: DeclFragmentView|
        (c matches Some(x) ==> p(d.name, x)) ==> #[trigger] p(d.name, absorb(c, rel, d, now))
}

proof fn lemma_absorb_all(
    m: Seq<(Seq<char>, ConceptView)>,
    p: spec_fn(Seq<char>, ConceptView) -> bool,
    rel: Seq<char>,
    decls: Seq<DeclFragmentView>,
    now: int,
)
    requires
        all_concepts(m, p),
        survives_absorbing(p, now),
    ensures
        all_concepts(absorb_all(m, rel, decls, now), p),
    decreases decls.len(),
{
    if decls.len() > 0 {
        let d = decls.last();
        let front = absorb_all(m, rel, decls.drop_last(), now);
        lemma_absorb_all(m, p, rel, decls.drop_last(), now);
        let c = lookup(front, d.name);
        assert(p(d.name, absorb(c, rel, d, now)));
        lemma_put_all(front, p, d.name, absorb(c, rel, d, now));
    }
}

pub proof fn lemma_assembled(
    facts: Seq<(Seq<char>, FileFactsView)>,
    p: spec_fn(Seq<char>, ConceptView) -> bool,
    now: int,
)
    requires
        survives_absorbing(p, now),
    ensures
        all_concepts(assembled(facts, now), p),
    decreases facts.len(),
{
    if facts.len() > 0 {
        lemma_assembled(facts.drop_last(), p, now);
        lemma_absorb_all(
            assembled(facts.drop_last(), now),
            p,
            facts.last().0,
            facts.last().1.decls,
            now,
        );
    } else {
        assert forall|k: Seq<char>| lookup(assembled(facts, now), k) is None by {}
    }
}

/// A table whose values are changed key by key.
pub proof fn lemma_mapped_lookup(
    m: Seq<(Seq<char>, ConceptView)>,
    f: spec_fn((Seq<char>, ConceptView)) -> (Seq<char>, ConceptView),
)
    requires
        ordered(m),
        forall|e: (Seq<char>, ConceptView)| (#[trigger] f(e)).0 == e.0,
    ensures
        ordered(m.map_values(f)),
        forall|k: Seq<char>|
            #[trigger] lookup(m.map_values(f), k) == (match lookup(m, k) {
                Some(c) => Some(f((k, c)).1),
                None => None,
            }),
{
    let r = m.map_values(f);
    assert forall|i: int, j: int| 0 <= i < j < r.len() implies before(
        (#[trigger] r[i]).0,
        (#[trigger] r[j]).0,
    ) by {
        assert(r[i].0 == m[i].0);
        assert(r[j].0 == m[j].0);
    }
    assert forall|k: Seq<char>|
        #[trigger] lookup(r, k) == (match lookup(m, k) {
            Some(c) => Some(f((k, c)).1),
            None => None,
        }) by {
        if has_key(m, k) {
            let i = choose|i: int| 0 <= i < m.len() && #[trigger] m[i].0 == k;
            lemma_lookup_at(m, i);
            assert(r[i].0 == k);
            lemma_lookup_at(r, i);
        }
        if has_key(r, k) {
            let i = choose|i: int| 0 <= i < r.len() && #[trigger] r[i].0 == k;
            assert(m[i].0 == k);
        }
    }
}

pub proof fn lemma_mapped_all(
    m: Seq<(Seq<char>, ConceptView)>,
    f: spec_fn((Seq<char>, ConceptView)) -> (Seq<char>, ConceptView),
    p: spec_fn(Seq<char>, ConceptView) -> bool,
    q: spec_fn(Seq<char>, ConceptView) -> bool,
)
    requires
        all_concepts(m, p),
        forall|e: (Seq<char>, ConceptView)| (#[trigger] f(e)).0 == e.0,
        forall|e: (Seq<char>, ConceptView)| p(e.0, e.1) ==> q(e.0, (#[trigger] f(e)).1),
    ensures
        all_concepts(m.map_values(f), q),
{
    lemma_mapped_lookup(m, f);
    assert forall|k: Seq<char>| #[trigger] lookup(m.map_values(f), k) matches Some(c) implies q(
        k,
        lookup(m.map_values(f), k)->Some_0,
    ) by {
        let c = lookup(m, k)->Some_0;
        assert(p(k, c));
        assert(q(k, f((k, c)).1));
    }
}

/// What a property must do to hold after declarations were merged.
pub open spec fn survives_merging(p: spec_fn(Seq<char>, ConceptView) -> bool) -> bool {
    forall|k: Seq<char>, t: ConceptView, j: Seq<char>, d: ConceptView|
        #![trigger p(k, merged(t, d)), p(j, d)]
        p(k, t) && p(j, d) ==> p(k, merged(t, d))
}

proof fn lemma_merge_one(
    m: Seq<(Seq<char>, ConceptView)>,
    p: spec_fn(Seq<char>, ConceptView) -> bool,
    dupe: Seq<char>,
    target: Seq<char>,
)
    requires
        all_concepts(m, p),
        survives_merging(p),
    ensures
        all_concepts(merge_one(m, dupe, target), p),
{
    if let (Some(d), Some(t)) = (lookup(m, dupe), lookup(m, target)) {
        if dupe != target {
            lemma_without_lookup(m, dupe);
            let w = without(m, dupe);
            assert forall|k: Seq<char>| #[trigger] lookup(w, k) matches Some(c) implies p(
                k,
                lookup(w, k)->Some_0,
            ) by {
                assert(lookup(w, k) == lookup(m, k));
            }
            assert(p(target, t));
            assert(p(dupe, d));
            assert(p(target, merged(t, d)));
            lemma_put_all(w, p, target, merged(t, d));
        }
    }
}

pub proof fn lemma_merge_all(
    m: Seq<(Seq<char>, ConceptView)>,
    p: spec_fn(Seq<char>, ConceptView) -> bool,
    pairs: Seq<(Seq<char>, Seq<char>)>,
)
    requires
        all_concepts(m, p),
        survives_merging(p),
    ensures
        all_concepts(merge_all(m, pairs), p),
    decreases pairs.len(),
{
    if pairs.len() > 0 {
        lemma_merge_all(m, p, pairs.drop_last());
        lemma_merge_one(
            merge_all(m, pairs.drop_last()),
            p,
            pairs.last().0,
            pairs.last().1,
        );
    }
}

/// What a property must do to hold after a use was noted.
pub open spec fn survives_sighting(p: spec_fn(Seq<char>, ConceptView) -> bool) -> bool {
    forall|k: Seq<char>, c: ConceptView, rel: Seq<char>, kind: Seq<char>|
        p(k, c) && !declares_in(c, rel) ==> #[trigger] p(
            k,
            ConceptView { usage: c.usage.push((rel, kind)), ..c },
        )
}

proof fn lemma_sightings(
    m: Seq<(Seq<char>, ConceptView)>,
    p: spec_fn(Seq<char>, ConceptView) -> bool,
    rel: Seq<char>,
    hits: Seq<(Seq<char>, Seq<char>)>,
)
    requires
        all_concepts(m, p),
        survives_sighting(p),
    ensures
        all_concepts(with_sightings(m, rel, hits), p),
    decreases hits.len(),
{
    if hits.len() > 0 {
        let before_last = with_sightings(m, rel, hits.drop_last());
        let h = hits.last();
        lemma_sightings(m, p, rel, hits.drop_last());
        if let Some(c) = lookup(before_last, h.0) {
            if !declares_in(c, rel) {
                let x = ConceptView { usage: c.usage.push((rel, h.1)), ..c };
                assert(p(h.0, c));
                assert(p(h.0, x));
                lemma_put_all(before_last, p, h.0, x);
            }
        }
    }
}

proof fn lemma_attached(
    start: Attaching,
    p: spec_fn(Seq<char>, ConceptView) -> bool,
    reuse: bool,
    prior: Seq<(Seq<char>, FileFactsView)>,
    files: Seq<ScannableFileView>,
)
    requires
        all_concepts(start.concepts, p),
        survives_sighting(p),
    ensures
        all_concepts(attached(start, reuse, prior, files).concepts, p),
    decreases files.len(),
{
    if files.len() > 0 {
        let f = files.last();
        lemma_attached(start, p, reuse, prior, files.drop_last());
        let a = attached(start, reuse, prior, files.drop_last());
        lemma_sightings(a.concepts, p, f.rel, hits_of(start.concepts, reuse, prior, f));
    }
}

// ---------------------------------------------------------------------------
// Laws of one scan
// ---------------------------------------------------------------------------

/// A concept stands under its own name and is declared somewhere.
pub open spec fn is_real() -> spec_fn(Seq<char>, ConceptView) -> bool {
    |k: Seq<char>, c: ConceptView| c.name == k && c.declared_in.len() > 0
}

pub open spec fn is_unused() -> spec_fn(Seq<char>, ConceptView) -> bool {
    |k: Seq<char>, c: ConceptView| c.usage.len() == 0
}

/// No file that declares a concept counts as a user of it.
pub open spec fn is_used_from_outside() -> spec_fn(Seq<char>, ConceptView) -> bool {
    |k: Seq<char>, c: ConceptView|
        forall|i: int| 0 <= i < c.usage.len() ==> !declares_in(c, (#[trigger] c.usage[i]).0)
}

/// A concept is no younger than an earlier scan found it.
pub open spec fn is_remembered(old: Seq<(Seq<char>, ConceptView)>) -> spec_fn(
    Seq<char>,
    ConceptView,
) -> bool {
    |k: Seq<char>, c: ConceptView|
        lookup(old, k) matches Some(o) ==> (o.first_seen_ms > 0 ==> c.first_seen_ms
            <= o.first_seen_ms)
}

/// A scan invents nothing: every concept of its index stands under its own name
/// and has a place where it is declared.
pub proof fn law_scan_invents_nothing(
    root: Seq<char>,
    own: SettingsView,
    files: Seq<ScannableFileView>,
    prior: Option<IndexView>,
    now: int,
)
    ensures
        all_concepts(scanned(root, own, files, prior, now).concepts, is_real()),
        scanned(root, own, files, prior, now).concepts.filter_map(each_ghost()).len() == 0,
{
    let p = is_real();
    let facts = crate::scan::all_facts(root, crate::scan::prior_facts(prior), files);
    let old = prior_concepts(prior);
    let made = assembled(facts, now);
    let with_dates = made.map_values(each_dated(old, now));
    let concepts = scanned_concepts(root, files, prior, now);
    lemma_assembled(facts, p, now);
    lemma_mapped_all(made, each_dated(old, now), p, p);
    lemma_merge_all(with_dates, p, merges(with_dates));
    let a = Attaching { concepts, facts };
    let reuse = can_reuse_usage(concepts, prior);
    let pf = crate::scan::prior_facts(prior);
    lemma_attached(a, p, reuse, pf, files);
    let before_end = attached(a, reuse, pf, files).concepts;
    lemma_mapped_all(before_end, each_settled(), p, p);
    let end = scanned(root, own, files, prior, now).concepts;
    let ghosts = end.filter_map(each_ghost());
    if ghosts.len() > 0 {
        assert(ghosts.contains(ghosts[0]));
        end.lemma_filter_map_contains(each_ghost(), ghosts[0]);
        let i = choose|i: int|
            0 <= i < end.len() && #[trigger] each_ghost()(end[i]) == Some(ghosts[0]);
        lemma_lookup_at(end, i);
        assert(p(end[i].0, end[i].1));
    }
}

/// A file that declares a concept never counts as a user of it.
pub proof fn law_declaring_is_not_using(
    root: Seq<char>,
    own: SettingsView,
    files: Seq<ScannableFileView>,
    prior: Option<IndexView>,
    now: int,
)
    ensures
        all_concepts(scanned(root, own, files, prior, now).concepts, is_used_from_outside()),
{
    let p = is_unused();
    let q = is_used_from_outside();
    let facts = crate::scan::all_facts(root, crate::scan::prior_facts(prior), files);
    let old = prior_concepts(prior);
    let made = assembled(facts, now);
    let with_dates = made.map_values(each_dated(old, now));
    let concepts = scanned_concepts(root, files, prior, now);
    lemma_assembled(facts, p, now);
    lemma_mapped_all(made, each_dated(old, now), p, p);
    lemma_merge_all(with_dates, p, merges(with_dates));
    assert(all_concepts(concepts, q)) by {
        assert forall|k: Seq<char>| #[trigger] lookup(concepts, k) matches Some(c) implies q(
            k,
            lookup(concepts, k)->Some_0,
        ) by {
            assert(p(k, lookup(concepts, k)->Some_0));
        }
    }
    assert(survives_sighting(q)) by {
        assert forall|k: Seq<char>, c: ConceptView, rel: Seq<char>, kind: Seq<char>|
            q(k, c) && !declares_in(c, rel) implies #[trigger] q(
            k,
            ConceptView { usage: c.usage.push((rel, kind)), ..c },
        ) by {
            let x = ConceptView { usage: c.usage.push((rel, kind)), ..c };
            assert forall|i: int| 0 <= i < x.usage.len() implies !declares_in(
                x,
                (#[trigger] x.usage[i]).0,
            ) by {
                if i < c.usage.len() {
                    assert(x.usage[i] == c.usage[i]);
                }
                if declares_in(x, x.usage[i].0) {
                    let j = choose|j: int|
                        0 <= j < x.declared_in.len() && (#[trigger] x.declared_in[j]).0
                            == x.usage[i].0;
                    assert(c.declared_in[j].0 == x.usage[i].0);
                }
            }
        }
    }
    let a = Attaching { concepts, facts };
    let reuse = can_reuse_usage(concepts, prior);
    let pf = crate::scan::prior_facts(prior);
    lemma_attached(a, q, reuse, pf, files);
    let before_end = attached(a, reuse, pf, files).concepts;
    assert forall|e: (Seq<char>, ConceptView)| q(e.0, e.1) implies q(
        e.0,
        (#[trigger] each_settled()(e)).1,
    ) by {
        let c = e.1;
        let x = each_settled()(e).1;
        lemma_pair_set(c.usage);
        assert forall|i: int| 0 <= i < x.usage.len() implies !declares_in(
            x,
            (#[trigger] x.usage[i]).0,
        ) by {
            assert(pair_set(c.usage).contains(x.usage[i]));
            assert(c.usage.contains(x.usage[i]));
            let j = choose|j: int| 0 <= j < c.usage.len() && c.usage[j] == x.usage[i];
            assert(!declares_in(c, c.usage[j].0));
            if declares_in(x, x.usage[i].0) {
                let n = choose|n: int|
                    0 <= n < x.declared_in.len() && (#[trigger] x.declared_in[n]).0
                        == x.usage[i].0;
                assert(c.declared_in[n].0 == c.usage[j].0);
            }
        }
    }
    lemma_mapped_all(before_end, each_settled(), q, q);
}

/// A scan remembers: a concept that an earlier scan knew is never younger than
/// it was then.
pub proof fn law_scan_remembers(
    root: Seq<char>,
    own: SettingsView,
    files: Seq<ScannableFileView>,
    prior: Option<IndexView>,
    now: int,
)
    ensures
        all_concepts(
            scanned(root, own, files, prior, now).concepts,
            is_remembered(prior_concepts(prior)),
        ),
{
    let old = prior_concepts(prior);
    let any = |k: Seq<char>, c: ConceptView| true;
    let p = is_remembered(old);
    let facts = crate::scan::all_facts(root, crate::scan::prior_facts(prior), files);
    let made = assembled(facts, now);
    let with_dates = made.map_values(each_dated(old, now));
    let concepts = scanned_concepts(root, files, prior, now);
    lemma_assembled(facts, any, now);
    lemma_mapped_all(made, each_dated(old, now), any, p);
    lemma_merge_all(with_dates, p, merges(with_dates));
    let a = Attaching { concepts, facts };
    let reuse = can_reuse_usage(concepts, prior);
    let pf = crate::scan::prior_facts(prior);
    lemma_attached(a, p, reuse, pf, files);
    let before_end = attached(a, reuse, pf, files).concepts;
    lemma_mapped_all(before_end, each_settled(), p, p);
}

/// Some concept of a table is declared at a place.
pub open spec fn is_covered(m: Seq<(Seq<char>, ConceptView)>, site: (Seq<char>, Seq<char>)) -> bool {
    exists|k: Seq<char>|
        #[trigger] lookup(m, k) matches Some(c) && c.declared_in.contains(site)
}

proof fn lemma_merge_keeps_site(
    m: Seq<(Seq<char>, ConceptView)>,
    dupe: Seq<char>,
    target: Seq<char>,
    site: (Seq<char>, Seq<char>),
)
    requires
        ordered(m),
        is_covered(m, site),
    ensures
        ordered(merge_one(m, dupe, target)),
        is_covered(merge_one(m, dupe, target), site),
{
    let k = choose|k: Seq<char>|
        #[trigger] lookup(m, k) matches Some(c) && c.declared_in.contains(site);
    let c = lookup(m, k)->Some_0;
    if let (Some(d), Some(t)) = (lookup(m, dupe), lookup(m, target)) {
        if dupe != target {
            let w = without(m, dupe);
            let x = merged(t, d);
            let r = put(w, target, x);
            lemma_without_lookup(m, dupe);
            lemma_put(w, target, x);
            let at = choose|at: int| 0 <= at < c.declared_in.len() && c.declared_in[at] == site;
            if k == dupe {
                assert(x.declared_in[t.declared_in.len() + at] == site);
                assert(lookup(r, target) == Some(x));
            } else if k == target {
                assert(x.declared_in[at] == site);
                assert(lookup(r, target) == Some(x));
            } else {
                assert(lookup(r, k) == lookup(w, k));
                assert(lookup(w, k) == lookup(m, k));
            }
        }
    }
}

/// To fold a table into its model loses no declaration: every place where
/// something was declared is a place of some concept afterwards.
pub proof fn law_merging_loses_no_declaration(
    m: Seq<(Seq<char>, ConceptView)>,
    pairs: Seq<(Seq<char>, Seq<char>)>,
    site: (Seq<char>, Seq<char>),
)
    requires
        ordered(m),
        is_covered(m, site),
    ensures
        ordered(merge_all(m, pairs)),
        is_covered(merge_all(m, pairs), site),
    decreases pairs.len(),
{
    if pairs.len() > 0 {
        law_merging_loses_no_declaration(m, pairs.drop_last(), site);
        lemma_merge_keeps_site(
            merge_all(m, pairs.drop_last()),
            pairs.last().0,
            pairs.last().1,
            site,
        );
    }
}

proof fn lemma_put_covers(
    m: Seq<(Seq<char>, ConceptView)>,
    k: Seq<char>,
    x: ConceptView,
    site: (Seq<char>, Seq<char>),
)
    requires
        ordered(m),
        is_covered(m, site) || x.declared_in.contains(site),
        lookup(m, k) matches Some(c) ==> (c.declared_in.contains(site) ==> x.declared_in.contains(
            site,
        )),
    ensures
        ordered(put(m, k, x)),
        is_covered(put(m, k, x), site),
{
    let r = put(m, k, x);
    lemma_put(m, k, x);
    if x.declared_in.contains(site) {
        assert(lookup(r, k) == Some(x));
    } else {
        let j = choose|j: Seq<char>|
            #[trigger] lookup(m, j) matches Some(c) && c.declared_in.contains(site);
        assert(j != k);
        assert(lookup(r, j) == lookup(m, j));
    }
}

proof fn lemma_absorbing_covers(
    m: Seq<(Seq<char>, ConceptView)>,
    rel: Seq<char>,
    decls: Seq<DeclFragmentView>,
    now: int,
    site: (Seq<char>, Seq<char>),
)
    requires
        ordered(m),
    ensures
        ordered(absorb_all(m, rel, decls, now)),
        is_covered(m, site) ==> is_covered(absorb_all(m, rel, decls, now), site),
        forall|j: int|
            0 <= j < decls.len() && site == (rel, (#[trigger] decls[j]).kind) ==> is_covered(
                absorb_all(m, rel, decls, now),
                site,
            ),
    decreases decls.len(),
{
    if decls.len() > 0 {
        let rest = decls.drop_last();
        let d = decls.last();
        let front = absorb_all(m, rel, rest, now);
        lemma_absorbing_covers(m, rel, rest, now, site);
        let c = lookup(front, d.name);
        let x = absorb(c, rel, d, now);
        let places = x.declared_in;
        assert(places[places.len() - 1] == (rel, d.kind));
        if let Some(e) = c {
            if e.declared_in.contains(site) {
                let n = choose|n: int| 0 <= n < e.declared_in.len() && e.declared_in[n] == site;
                assert(places[n] == site);
            }
        }
        lemma_put(front, d.name, x);
        if is_covered(front, site) || places.contains(site) {
            lemma_put_covers(front, d.name, x, site);
        }
        assert forall|j: int|
            0 <= j < decls.len() && site == (rel, (#[trigger] decls[j]).kind) implies is_covered(
            absorb_all(m, rel, decls, now),
            site,
        ) by {
            if j < rest.len() {
                assert(rest[j] == decls[j]);
            } else {
                assert(places.contains(site));
            }
        }
    }
}

proof fn lemma_assembling_covers(
    facts: Seq<(Seq<char>, FileFactsView)>,
    now: int,
    i: int,
    j: int,
)
    requires
        0 <= i < facts.len(),
        0 <= j < facts[i].1.decls.len(),
    ensures
        ordered(assembled(facts, now)),
        is_covered(assembled(facts, now), (facts[i].0, facts[i].1.decls[j].kind)),
    decreases facts.len(),
{
    let site = (facts[i].0, facts[i].1.decls[j].kind);
    let rest = facts.drop_last();
    let last = facts.last();
    let any = |k: Seq<char>, c: ConceptView| true;
    lemma_assembled(rest, any, now);
    lemma_absorbing_covers(assembled(rest, now), last.0, last.1.decls, now, site);
    if i < rest.len() {
        assert(rest[i] == facts[i]);
        lemma_assembling_covers(rest, now, i, j);
    } else {
        assert(last.1.decls[j] == facts[i].1.decls[j]);
    }
}

proof fn lemma_mapping_covers(
    m: Seq<(Seq<char>, ConceptView)>,
    f: spec_fn((Seq<char>, ConceptView)) -> (Seq<char>, ConceptView),
    site: (Seq<char>, Seq<char>),
)
    requires
        ordered(m),
        is_covered(m, site),
        forall|e: (Seq<char>, ConceptView)|
            (#[trigger] f(e)).0 == e.0 && f(e).1.declared_in == e.1.declared_in,
    ensures
        ordered(m.map_values(f)),
        is_covered(m.map_values(f), site),
{
    lemma_mapped_lookup(m, f);
    let k = choose|k: Seq<char>|
        #[trigger] lookup(m, k) matches Some(c) && c.declared_in.contains(site);
    let c = lookup(m, k)->Some_0;
    assert(lookup(m.map_values(f), k) == Some(f((k, c)).1));
}

proof fn lemma_attaching_covers(
    start: Attaching,
    reuse: bool,
    prior: Seq<(Seq<char>, FileFactsView)>,
    files: Seq<ScannableFileView>,
    site: (Seq<char>, Seq<char>),
)
    requires
        ordered(start.concepts),
        is_covered(start.concepts, site),
    ensures
        ordered(attached(start, reuse, prior, files).concepts),
        is_covered(attached(start, reuse, prior, files).concepts, site),
    decreases files.len(),
{
    if files.len() > 0 {
        let f = files.last();
        lemma_attaching_covers(start, reuse, prior, files.drop_last(), site);
        let a = attached(start, reuse, prior, files.drop_last());
        lemma_sightings_cover(a.concepts, f.rel, hits_of(start.concepts, reuse, prior, f), site);
    }
}

proof fn lemma_sightings_cover(
    m: Seq<(Seq<char>, ConceptView)>,
    rel: Seq<char>,
    hits: Seq<(Seq<char>, Seq<char>)>,
    site: (Seq<char>, Seq<char>),
)
    requires
        ordered(m),
        is_covered(m, site),
    ensures
        ordered(with_sightings(m, rel, hits)),
        is_covered(with_sightings(m, rel, hits), site),
    decreases hits.len(),
{
    if hits.len() > 0 {
        lemma_sightings_cover(m, rel, hits.drop_last(), site);
        let r = with_sightings(m, rel, hits.drop_last());
        let h = hits.last();
        if let Some(c) = lookup(r, h.0) {
            if !declares_in(c, rel) {
                lemma_put_covers(
                    r,
                    h.0,
                    ConceptView { usage: c.usage.push((rel, h.1)), ..c },
                    site,
                );
            }
        }
    }
}

/// A scan loses nothing: every declaration in every file is a declaration of
/// some concept of the index.
pub proof fn law_scan_loses_no_declaration(
    root: Seq<char>,
    own: SettingsView,
    files: Seq<ScannableFileView>,
    prior: Option<IndexView>,
    now: int,
    i: int,
    j: int,
)
    requires
        ({
            let facts = crate::scan::all_facts(root, crate::scan::prior_facts(prior), files);
            0 <= i < facts.len() && 0 <= j < facts[i].1.decls.len()
        }),
    ensures
        ({
            let facts = crate::scan::all_facts(root, crate::scan::prior_facts(prior), files);
            is_covered(
                scanned(root, own, files, prior, now).concepts,
                (facts[i].0, facts[i].1.decls[j].kind),
            )
        }),
{
    let pf = crate::scan::prior_facts(prior);
    let facts = crate::scan::all_facts(root, pf, files);
    let site = (facts[i].0, facts[i].1.decls[j].kind);
    let old = prior_concepts(prior);
    let made = assembled(facts, now);
    let with_dates = made.map_values(each_dated(old, now));
    let concepts = scanned_concepts(root, files, prior, now);
    lemma_assembling_covers(facts, now, i, j);
    lemma_mapping_covers(made, each_dated(old, now), site);
    law_merging_loses_no_declaration(with_dates, merges(with_dates), site);
    let a = Attaching { concepts, facts };
    let reuse = can_reuse_usage(concepts, prior);
    lemma_attaching_covers(a, reuse, pf, files, site);
    lemma_mapping_covers(attached(a, reuse, pf, files).concepts, each_settled(), site);
}

} // verus!
