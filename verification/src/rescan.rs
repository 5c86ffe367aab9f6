//! A second scan of files that did not change learns what the first one did.
use vstd::prelude::*;
use crate::model::{ConceptView, DeclFragmentView, FileFactsView, IndexView};
use crate::paths::extension;
use crate::scan::{
    absorb, absorb_all, all_facts, assembled, attached, can_reuse_usage, each_dated, each_merge,
    each_settled, each_signature_line, facts_of, hits_of, merge_all, merge_one, merged, merges,
    prior_concepts, prior_facts, scanned, scanned_concepts, signature, stored_in, table_owner,
    usable, with_sightings, with_usage, Attaching, ScannableFileView, SettingsView,
};
use crate::scan_laws::{lemma_mapped_lookup, lemma_without_lookup};
use crate::table::{has_key, lemma_lookup_at, lemma_put, lookup, ordered, put, without};
use crate::text::{before, lemma_before_irreflexive, lemma_before_transitive};

verus! {

// ---------------------------------------------------------------------------
// Tables
// ---------------------------------------------------------------------------

/// Two tables with the same value under every key are the same.
pub proof fn lemma_tables_equal<V>(a: Seq<(Seq<char>, V)>, b: Seq<(Seq<char>, V)>)
    requires
        ordered(a),
        ordered(b),
        forall|k: Seq<char>| #[trigger] lookup(a, k) == lookup(b, k),
    ensures
        a == b,
{
    assert forall|i: int| 0 <= i < a.len() implies i < b.len() && #[trigger] a[i] == b[i] by {
        lemma_same_place(a, b, i);
    }
    if a.len() < b.len() {
        lemma_same_place(b, a, a.len() as int);
    }
    if b.len() < a.len() {
        lemma_same_place(a, b, b.len() as int);
    }
    assert(a =~= b);
}

proof fn lemma_same_place<V>(a: Seq<(Seq<char>, V)>, b: Seq<(Seq<char>, V)>, i: int)
    requires
        ordered(a),
        ordered(b),
        forall|k: Seq<char>| #[trigger] lookup(a, k) == lookup(b, k),
        0 <= i < a.len(),
    ensures
        i < b.len(),
        a[i] == b[i],
    decreases i,
{
    lemma_lookup_at(a, i);
    let k = a[i].0;
    assert(lookup(b, k) == lookup(a, k));
    assert(has_key(b, k));
    let j = choose|j: int| 0 <= j < b.len() && #[trigger] b[j].0 == k;
    lemma_lookup_at(b, j);
    if i > 0 {
        lemma_same_place(a, b, i - 1);
    }
    if j < i {
        lemma_same_place(a, b, j);
        assert(a[j].0 == k);
        assert(before(a[j].0, a[i].0));
        lemma_before_irreflexive(k);
    }
    if j > i {
        let x = b[i].0;
        assert(before(x, b[j].0));
        lemma_lookup_at(b, i);
        assert(lookup(a, x) == lookup(b, x));
        assert(has_key(a, x));
        let p = choose|p: int| 0 <= p < a.len() && #[trigger] a[p].0 == x;
        if p < i {
            lemma_same_place(a, b, p);
            assert(b[p].0 == x);
            assert(before(b[p].0, b[i].0));
            lemma_before_irreflexive(x);
        } else {
            if p > i {
                assert(before(a[i].0, a[p].0));
                lemma_before_transitive(x, k, x);
            } else {
                assert(before(x, k));
            }
            lemma_before_irreflexive(x);
        }
    }
}

// ---------------------------------------------------------------------------
// Facts
// ---------------------------------------------------------------------------

/// No two files have one path.
pub open spec fn paths_differ(files: Seq<ScannableFileView>) -> bool {
    forall|i: int, j: int|
        0 <= i < j < files.len() ==> (#[trigger] files[i]).rel != (#[trigger] files[j]).rel
}

pub proof fn lemma_all_facts(
    root: Seq<char>,
    known: Seq<(Seq<char>, FileFactsView)>,
    files: Seq<ScannableFileView>,
)
    requires
        paths_differ(files),
    ensures
        ordered(all_facts(root, known, files)),
        forall|i: int|
            0 <= i < files.len() ==> lookup(
                all_facts(root, known, files),
                (#[trigger] files[i]).rel,
            ) == Some(facts_of(root, known, files[i])),
    decreases files.len(),
{
    if files.len() > 0 {
        let rest = files.drop_last();
        let f = files.last();
        assert forall|i: int, j: int| 0 <= i < j < rest.len() implies (#[trigger] rest[i]).rel != (
        #[trigger] rest[j]).rel by {
            assert(files[i].rel != files[j].rel);
        }
        lemma_all_facts(root, known, rest);
        lemma_put(all_facts(root, known, rest), f.rel, facts_of(root, known, f));
        assert forall|i: int| 0 <= i < files.len() implies lookup(
            all_facts(root, known, files),
            (#[trigger] files[i]).rel,
        ) == Some(facts_of(root, known, files[i])) by {
            if i < rest.len() {
                assert(files[i].rel != files[files.len() - 1].rel);
                assert(rest[i] == files[i]);
            }
        }
    }
}

pub proof fn lemma_same_facts(
    root: Seq<char>,
    known: Seq<(Seq<char>, FileFactsView)>,
    other: Seq<(Seq<char>, FileFactsView)>,
    files: Seq<ScannableFileView>,
)
    requires
        forall|i: int|
            0 <= i < files.len() ==> facts_of(root, known, #[trigger] files[i]) == facts_of(
                root,
                other,
                files[i],
            ),
    ensures
        all_facts(root, known, files) == all_facts(root, other, files),
    decreases files.len(),
{
    if files.len() > 0 {
        let rest = files.drop_last();
        assert forall|i: int| 0 <= i < rest.len() implies facts_of(root, known, #[trigger] rest[i])
            == facts_of(root, other, rest[i]) by {
            assert(rest[i] == files[i]);
        }
        lemma_same_facts(root, known, other, rest);
        assert(files[files.len() - 1] == files.last());
    }
}

/// The facts of a file once usage was attached.
pub open spec fn settled_facts(
    f: ScannableFileView,
    ff: FileFactsView,
    hits: Seq<(Seq<char>, Seq<char>)>,
) -> FileFactsView {
    if extension(f.rel) == Some("prisma"@) {
        ff
    } else {
        FileFactsView { usage: hits, ..ff }
    }
}

pub proof fn lemma_attached_facts(
    start: Attaching,
    reuse: bool,
    known: Seq<(Seq<char>, FileFactsView)>,
    files: Seq<ScannableFileView>,
    n: int,
)
    requires
        paths_differ(files),
        0 <= n <= files.len(),
        ordered(start.facts),
        forall|i: int|
            0 <= i < files.len() ==> has_key(start.facts, (#[trigger] files[i]).rel),
    ensures
        ordered(attached(start, reuse, known, files.take(n)).facts),
        forall|k: Seq<char>|
            #[trigger] has_key(attached(start, reuse, known, files.take(n)).facts, k) <==> has_key(
                start.facts,
                k,
            ),
        forall|i: int|
            0 <= i < files.len() ==> lookup(
                attached(start, reuse, known, files.take(n)).facts,
                (#[trigger] files[i]).rel,
            ) == Some(
                if i < n {
                    settled_facts(
                        files[i],
                        lookup(start.facts, files[i].rel)->Some_0,
                        hits_of(start.concepts, reuse, known, files[i]),
                    )
                } else {
                    lookup(start.facts, files[i].rel)->Some_0
                },
            ),
    decreases n,
{
    if n > 0 {
        let step = files.take(n);
        assert(step.drop_last() =~= files.take(n - 1));
        let f = files[n - 1];
        assert(step.last() == f);
        lemma_attached_facts(start, reuse, known, files, n - 1);
        let a = attached(start, reuse, known, files.take(n - 1));
        let hits = hits_of(start.concepts, reuse, known, f);
        if extension(f.rel) != Some("prisma"@) {
            assert(has_key(start.facts, f.rel));
            let ff = lookup(a.facts, f.rel)->Some_0;
            assert(lookup(a.facts, f.rel) == Some(ff));
            lemma_put(a.facts, f.rel, FileFactsView { usage: hits, ..ff });
            let r = with_usage(a.facts, f.rel, hits);
            assert forall|i: int| 0 <= i < files.len() implies lookup(
                r,
                (#[trigger] files[i]).rel,
            ) == Some(
                if i < n {
                    settled_facts(
                        files[i],
                        lookup(start.facts, files[i].rel)->Some_0,
                        hits_of(start.concepts, reuse, known, files[i]),
                    )
                } else {
                    lookup(start.facts, files[i].rel)->Some_0
                },
            ) by {
                if i < n - 1 {
                    assert(files[i].rel != files[n - 1].rel);
                } else if i > n - 1 {
                    assert(files[n - 1].rel != files[i].rel);
                }
            }
        }
    }
}

// ---------------------------------------------------------------------------
// Times
// ---------------------------------------------------------------------------

pub open spec fn first_seen_at(c: ConceptView, t: int) -> ConceptView {
    ConceptView { first_seen_ms: t, ..c }
}

/// Two tables are alike but for the time at which their concepts were first
/// seen.
pub open spec fn alike(
    a: Seq<(Seq<char>, ConceptView)>,
    b: Seq<(Seq<char>, ConceptView)>,
    t: int,
) -> bool {
    &&& ordered(a)
    &&& ordered(b)
    &&& forall|k: Seq<char>|
        #[trigger] lookup(b, k) == (match lookup(a, k) {
            Some(c) => Some(first_seen_at(c, t)),
            None => None,
        })
}

proof fn lemma_absorb_alike(
    a: Seq<(Seq<char>, ConceptView)>,
    b: Seq<(Seq<char>, ConceptView)>,
    rel: Seq<char>,
    decls: Seq<DeclFragmentView>,
    s: int,
    t: int,
)
    requires
        alike(a, b, t),
    ensures
        alike(absorb_all(a, rel, decls, s), absorb_all(b, rel, decls, t), t),
    decreases decls.len(),
{
    if decls.len() > 0 {
        let d = decls.last();
        let x = absorb_all(a, rel, decls.drop_last(), s);
        let y = absorb_all(b, rel, decls.drop_last(), t);
        lemma_absorb_alike(a, b, rel, decls.drop_last(), s, t);
        let c = absorb(lookup(x, d.name), rel, d, s);
        let e = absorb(lookup(y, d.name), rel, d, t);
        assert(e == first_seen_at(c, t));
        lemma_put(x, d.name, c);
        lemma_put(y, d.name, e);
        assert forall|k: Seq<char>|
            #[trigger] lookup(put(y, d.name, e), k) == (match lookup(put(x, d.name, c), k) {
                Some(v) => Some(first_seen_at(v, t)),
                None => None,
            }) by {
            if k != d.name {
                assert(lookup(put(y, d.name, e), k) == lookup(y, k));
                assert(lookup(put(x, d.name, c), k) == lookup(x, k));
            }
        }
    }
}

pub proof fn lemma_assembled_alike(facts: Seq<(Seq<char>, FileFactsView)>, s: int, t: int)
    ensures
        alike(assembled(facts, s), assembled(facts, t), t),
    decreases facts.len(),
{
    if facts.len() > 0 {
        lemma_assembled_alike(facts.drop_last(), s, t);
        lemma_absorb_alike(
            assembled(facts.drop_last(), s),
            assembled(facts.drop_last(), t),
            facts.last().0,
            facts.last().1.decls,
            s,
            t,
        );
    } else {
        assert forall|k: Seq<char>| lookup(assembled(facts, t), k) is None by {}
        assert forall|k: Seq<char>| lookup(assembled(facts, s), k) is None by {}
    }
}

// ---------------------------------------------------------------------------
// Merging
// ---------------------------------------------------------------------------

/// A concept with its two times set.
pub open spec fn each_retimed(
    kept: Seq<(Seq<char>, ConceptView)>,
    t: int,
) -> spec_fn((Seq<char>, ConceptView)) -> (Seq<char>, ConceptView) {
    |e: (Seq<char>, ConceptView)|
        (
            e.0,
            ConceptView {
                first_seen_ms: match lookup(kept, e.0) {
                    Some(o) => o.first_seen_ms,
                    None => t,
                },
                last_verified_ms: t,
                ..e.1
            },
        )
}

proof fn lemma_owner_same(
    m: Seq<(Seq<char>, ConceptView)>,
    h: spec_fn((Seq<char>, ConceptView)) -> (Seq<char>, ConceptView),
    name: Seq<char>,
)
    requires
        forall|e: (Seq<char>, ConceptView)|
            (#[trigger] h(e)).0 == e.0 && h(e).1.table == e.1.table,
    ensures
        table_owner(m.map_values(h), name) == table_owner(m, name),
    decreases m.len(),
{
    if m.len() > 0 {
        let r = m.map_values(h);
        assert(r[0] == h(m[0]));
        assert(r.skip(1) =~= m.skip(1).map_values(h));
        lemma_owner_same(m.skip(1), h, name);
        assert(stored_in(r[0].1, name) == stored_in(m[0].1, name));
    }
}

proof fn lemma_filter_map_of_map<A, B>(
    s: Seq<A>,
    h: spec_fn(A) -> A,
    f: spec_fn(A) -> Option<B>,
    g: spec_fn(A) -> Option<B>,
)
    requires
        forall|i: int| 0 <= i < s.len() ==> g(h(#[trigger] s[i])) == f(s[i]),
    ensures
        s.map_values(h).filter_map(g) == s.filter_map(f),
    decreases s.len(),
{
    if s.len() > 0 {
        let n = s.len() - 1;
        let head = s.take(n);
        let r = s.map_values(h);
        assert forall|i: int| 0 <= i < head.len() implies g(h(#[trigger] head[i])) == f(head[i]) by {
            assert(head[i] == s[i]);
        }
        lemma_filter_map_of_map(head, h, f, g);
        s.lemma_filter_map_take_succ(f, n);
        r.lemma_filter_map_take_succ(g, n);
        assert(s.take(n + 1) =~= s);
        assert(r.take(n + 1) =~= r);
        assert(r.take(n) =~= head.map_values(h));
        assert(r[n] == h(s[n]));
    } else {
        reveal(Seq::filter_map);
        assert(s.map_values(h) =~= seq![]);
        assert(s =~= seq![]);
    }
}

pub proof fn lemma_merges_same(
    m: Seq<(Seq<char>, ConceptView)>,
    h: spec_fn((Seq<char>, ConceptView)) -> (Seq<char>, ConceptView),
)
    requires
        forall|e: (Seq<char>, ConceptView)|
            (#[trigger] h(e)).0 == e.0 && h(e).1.table == e.1.table && h(e).1.declared_in
                == e.1.declared_in,
    ensures
        merges(m.map_values(h)) == merges(m),
{
    let r = m.map_values(h);
    assert forall|i: int| 0 <= i < m.len() implies each_merge(r)(h(#[trigger] m[i])) == each_merge(
        m,
    )(m[i]) by {
        lemma_owner_same(m, h, m[i].0);
        let e = m[i];
        assert(crate::scan::is_sql_only(h(e).1) == crate::scan::is_sql_only(e.1)) by {
            if crate::scan::is_sql_only(e.1) {
                assert forall|j: int| 0 <= j < h(e).1.declared_in.len() implies (
                #[trigger] h(e).1.declared_in[j]).1 == "sql"@ by {
                    assert(e.1.declared_in[j].1 == "sql"@);
                }
            }
            if crate::scan::is_sql_only(h(e).1) {
                assert forall|j: int| 0 <= j < e.1.declared_in.len() implies (
                #[trigger] e.1.declared_in[j]).1 == "sql"@ by {
                    assert(h(e).1.declared_in[j].1 == "sql"@);
                }
            }
        }
    }
    lemma_filter_map_of_map(m, h, each_merge(m), each_merge(r));
}

/// A key that is gone stays gone.
proof fn lemma_gone_stays_gone(
    m: Seq<(Seq<char>, ConceptView)>,
    pairs: Seq<(Seq<char>, Seq<char>)>,
    n: int,
    k: Seq<char>,
)
    requires
        ordered(m),
        0 <= n <= pairs.len(),
        lookup(merge_all(m, pairs.take(n)), k) is None,
    ensures
        lookup(merge_all(m, pairs), k) is None,
    decreases pairs.len() - n,
{
    if n < pairs.len() {
        let step = pairs.take(n + 1);
        assert(step.drop_last() =~= pairs.take(n));
        assert(step.last() == pairs[n]);
        lemma_merged_ordered(m, pairs.take(n));
        lemma_merge_lookup(merge_all(m, pairs.take(n)), pairs[n].0, pairs[n].1);
        lemma_gone_stays_gone(m, pairs, n + 1, k);
    } else {
        assert(pairs.take(n) =~= pairs);
    }
}

/// What one merge does, key by key.
pub proof fn lemma_merge_lookup(m: Seq<(Seq<char>, ConceptView)>, dupe: Seq<char>, target: Seq<char>)
    requires
        ordered(m),
    ensures
        ordered(merge_one(m, dupe, target)),
        forall|k: Seq<char>|
            #[trigger] lookup(merge_one(m, dupe, target), k) == (if lookup(m, dupe) is None
                || lookup(m, target) is None || dupe == target {
                lookup(m, k)
            } else if k == dupe {
                None
            } else if k == target {
                Some(merged(lookup(m, target)->Some_0, lookup(m, dupe)->Some_0))
            } else {
                lookup(m, k)
            }),
{
    if let (Some(d), Some(t)) = (lookup(m, dupe), lookup(m, target)) {
        if dupe != target {
            let w = without(m, dupe);
            lemma_without_lookup(m, dupe);
            lemma_put(w, target, merged(t, d));
            let r = merge_one(m, dupe, target);
            assert(r == put(w, target, merged(t, d)));
            assert forall|k: Seq<char>|
                #[trigger] lookup(r, k) == (if k == dupe {
                    None
                } else if k == target {
                    Some(merged(t, d))
                } else {
                    lookup(m, k)
                }) by {
                if k == dupe {
                    assert(lookup(r, k) == lookup(w, k));
                } else if k != target {
                    assert(lookup(r, k) == lookup(w, k));
                    assert(lookup(w, k) == lookup(m, k));
                }
            }
        }
    }
}

pub proof fn lemma_merged_ordered(m: Seq<(Seq<char>, ConceptView)>, pairs: Seq<(Seq<char>, Seq<char>)>)
    requires
        ordered(m),
    ensures
        ordered(merge_all(m, pairs)),
    decreases pairs.len(),
{
    if pairs.len() > 0 {
        lemma_merged_ordered(m, pairs.drop_last());
        lemma_merge_lookup(
            merge_all(m, pairs.drop_last()),
            pairs.last().0,
            pairs.last().1,
        );
    }
}

/// Merging the retimed concepts is retiming the merged ones, where every concept
/// that is left was first seen no later than now.
proof fn lemma_merge_retimed(
    m: Seq<(Seq<char>, ConceptView)>,
    pairs: Seq<(Seq<char>, Seq<char>)>,
    kept: Seq<(Seq<char>, ConceptView)>,
    t: int,
    n: int,
)
    requires
        ordered(m),
        ordered(kept),
        0 <= n <= pairs.len(),
        forall|k: Seq<char>|
            #[trigger] lookup(kept, k) is Some <==> lookup(merge_all(m, pairs), k) is Some,
        forall|k: Seq<char>|
            #[trigger] lookup(kept, k) matches Some(o) ==> 0 < o.first_seen_ms <= t,
    ensures
        merge_all(m.map_values(each_retimed(kept, t)), pairs.take(n)) == merge_all(
            m,
            pairs.take(n),
        ).map_values(each_retimed(kept, t)),
    decreases n,
{
    let h = each_retimed(kept, t);
    let r = m.map_values(h);
    lemma_mapped_lookup(m, h);
    if n > 0 {
        let step = pairs.take(n);
        let dupe = pairs[n - 1].0;
        let target = pairs[n - 1].1;
        assert(step.drop_last() =~= pairs.take(n - 1));
        assert(step.last() == pairs[n - 1]);
        lemma_merge_retimed(m, pairs, kept, t, n - 1);
        let a = merge_all(m, pairs.take(n - 1));
        let b = merge_all(r, pairs.take(n - 1));
        assert(b == a.map_values(h));
        lemma_merged_ordered(m, pairs.take(n - 1));
        lemma_mapped_lookup(a, h);
        lemma_merge_lookup(a, dupe, target);
        lemma_merge_lookup(b, dupe, target);
        let a2 = merge_one(a, dupe, target);
        let b2 = merge_one(b, dupe, target);
        lemma_mapped_lookup(a2, h);
        assert forall|k: Seq<char>| #[trigger] lookup(b2, k) == lookup(a2.map_values(h), k) by {
            if lookup(a, dupe) is Some && lookup(a, target) is Some && dupe != target {
                assert(lookup(b, dupe) is Some);
                assert(lookup(b, target) is Some);
                if k == target {
                    assert(lookup(a2, dupe) is None);
                    lemma_gone_stays_gone(m, pairs, n, dupe);
                    assert(lookup(kept, dupe) is None);
                    let tt = lookup(a, target)->Some_0;
                    let dd = lookup(a, dupe)->Some_0;
                    assert(h((target, merged(tt, dd))).1 == merged(
                        h((target, tt)).1,
                        h((dupe, dd)).1,
                    ));
                }
            } else {
                assert(lookup(b, dupe) is None || lookup(b, target) is None || dupe == target);
            }
        }
        lemma_tables_equal(b2, a2.map_values(h));
    } else {
        assert(pairs.take(0) =~= seq![]);
    }
}

// ---------------------------------------------------------------------------
// Usage
// ---------------------------------------------------------------------------

/// A concept that was verified again.
pub open spec fn each_verified(t: int) -> spec_fn((Seq<char>, ConceptView)) -> (
    Seq<char>,
    ConceptView,
) {
    |e: (Seq<char>, ConceptView)| (e.0, ConceptView { last_verified_ms: t, ..e.1 })
}

/// Two tables are alike but for the uses of their concepts.
pub open spec fn alike_but_uses(
    a: Seq<(Seq<char>, ConceptView)>,
    b: Seq<(Seq<char>, ConceptView)>,
) -> bool {
    &&& ordered(b)
    &&& forall|k: Seq<char>|
        match (lookup(a, k), #[trigger] lookup(b, k)) {
            (Some(c), Some(x)) => x == (ConceptView { usage: x.usage, ..c }),
            (None, None) => true,
            _ => false,
        }
}

proof fn lemma_sightings_shape(
    start: Seq<(Seq<char>, ConceptView)>,
    m: Seq<(Seq<char>, ConceptView)>,
    rel: Seq<char>,
    hits: Seq<(Seq<char>, Seq<char>)>,
)
    requires
        alike_but_uses(start, m),
    ensures
        alike_but_uses(start, with_sightings(m, rel, hits)),
    decreases hits.len(),
{
    if hits.len() > 0 {
        lemma_sightings_shape(start, m, rel, hits.drop_last());
        let r = with_sightings(m, rel, hits.drop_last());
        let h = hits.last();
        if let Some(c) = lookup(r, h.0) {
            if !crate::scan::declares_in(c, rel) {
                let x = ConceptView { usage: c.usage.push((rel, h.1)), ..c };
                lemma_put(r, h.0, x);
                let q = put(r, h.0, x);
                assert forall|k: Seq<char>|
                    match (lookup(start, k), #[trigger] lookup(q, k)) {
                        (Some(c), Some(x)) => x == (ConceptView { usage: x.usage, ..c }),
                        (None, None) => true,
                        _ => false,
                    } by {
                    if k != h.0 {
                        assert(lookup(q, k) == lookup(r, k));
                    } else {
                        assert(lookup(r, k) == Some(c));
                    }
                }
            }
        }
    }
}

proof fn lemma_attached_shape(
    start: Attaching,
    reuse: bool,
    known: Seq<(Seq<char>, FileFactsView)>,
    files: Seq<ScannableFileView>,
)
    requires
        ordered(start.concepts),
    ensures
        alike_but_uses(start.concepts, attached(start, reuse, known, files).concepts),
    decreases files.len(),
{
    if files.len() > 0 {
        lemma_attached_shape(start, reuse, known, files.drop_last());
        let a = attached(start, reuse, known, files.drop_last());
        let f = files.last();
        lemma_sightings_shape(
            start.concepts,
            a.concepts,
            f.rel,
            hits_of(start.concepts, reuse, known, f),
        );
    }
}

proof fn lemma_sightings_verified(
    m: Seq<(Seq<char>, ConceptView)>,
    rel: Seq<char>,
    hits: Seq<(Seq<char>, Seq<char>)>,
    t: int,
)
    requires
        ordered(m),
    ensures
        ordered(with_sightings(m, rel, hits)),
        with_sightings(m.map_values(each_verified(t)), rel, hits) == with_sightings(
            m,
            rel,
            hits,
        ).map_values(each_verified(t)),
    decreases hits.len(),
{
    let v = each_verified(t);
    if hits.len() > 0 {
        lemma_sightings_verified(m, rel, hits.drop_last(), t);
        let a = with_sightings(m, rel, hits.drop_last());
        let b = with_sightings(m.map_values(v), rel, hits.drop_last());
        let h = hits.last();
        lemma_mapped_lookup(a, v);
        if let Some(c) = lookup(a, h.0) {
            let d = v((h.0, c)).1;
            assert(lookup(b, h.0) == Some(d));
            assert(d.declared_in == c.declared_in);
            assert(crate::scan::declares_in(d, rel) == crate::scan::declares_in(c, rel)) by {
                if crate::scan::declares_in(c, rel) {
                    let i = choose|i: int|
                        0 <= i < c.declared_in.len() && (#[trigger] c.declared_in[i]).0 == rel;
                    assert(d.declared_in[i].0 == rel);
                }
                if crate::scan::declares_in(d, rel) {
                    let i = choose|i: int|
                        0 <= i < d.declared_in.len() && (#[trigger] d.declared_in[i]).0 == rel;
                    assert(c.declared_in[i].0 == rel);
                }
            }
            if !crate::scan::declares_in(c, rel) {
                let x = ConceptView { usage: c.usage.push((rel, h.1)), ..c };
                let y = ConceptView { usage: d.usage.push((rel, h.1)), ..d };
                assert(y == v((h.0, x)).1);
                lemma_put(a, h.0, x);
                lemma_put(b, h.0, y);
                let p = put(a, h.0, x);
                let q = put(b, h.0, y);
                lemma_mapped_lookup(p, v);
                assert forall|k: Seq<char>| #[trigger] lookup(q, k) == lookup(
                    p.map_values(v),
                    k,
                ) by {
                    if k != h.0 {
                        assert(lookup(q, k) == lookup(b, k));
                        assert(lookup(p, k) == lookup(a, k));
                    }
                }
                lemma_tables_equal(q, p.map_values(v));
            }
        }
    }
}

/// Attaching the same uses to concepts that were verified again.
proof fn lemma_attached_again(
    first: Attaching,
    first_reuse: bool,
    first_known: Seq<(Seq<char>, FileFactsView)>,
    again: Attaching,
    known: Seq<(Seq<char>, FileFactsView)>,
    files: Seq<ScannableFileView>,
    t: int,
    n: int,
)
    requires
        0 <= n <= files.len(),
        ordered(first.concepts),
        again.concepts == first.concepts.map_values(each_verified(t)),
        again.facts == first.facts,
        forall|i: int|
            0 <= i < files.len() ==> (extension((#[trigger] files[i]).rel) != Some("prisma"@)
                ==> hits_of(again.concepts, true, known, files[i]) == hits_of(
                first.concepts,
                first_reuse,
                first_known,
                files[i],
            )),
    ensures
        ordered(attached(first, first_reuse, first_known, files.take(n)).concepts),
        attached(again, true, known, files.take(n)).concepts == attached(
            first,
            first_reuse,
            first_known,
            files.take(n),
        ).concepts.map_values(each_verified(t)),
        attached(again, true, known, files.take(n)).facts == attached(
            first,
            first_reuse,
            first_known,
            files.take(n),
        ).facts,
    decreases n,
{
    if n > 0 {
        let step = files.take(n);
        let f = files[n - 1];
        assert(step.drop_last() =~= files.take(n - 1));
        assert(step.last() == f);
        lemma_attached_again(first, first_reuse, first_known, again, known, files, t, n - 1);
        let a = attached(first, first_reuse, first_known, files.take(n - 1));
        if extension(f.rel) != Some("prisma"@) {
            let hits = hits_of(first.concepts, first_reuse, first_known, f);
            assert(hits_of(again.concepts, true, known, files[n - 1]) == hits);
            lemma_sightings_verified(a.concepts, f.rel, hits, t);
        }
    } else {
        assert(files.take(0) =~= seq![]);
    }
}

// ---------------------------------------------------------------------------
// The law
// ---------------------------------------------------------------------------

proof fn lemma_facts_again(
    root: Seq<char>,
    own: SettingsView,
    files: Seq<ScannableFileView>,
    prior: Option<IndexView>,
    now: int,
)
    requires
        paths_differ(files),
    ensures
        ({
            let one = scanned(root, own, files, prior, now);
            let facts = all_facts(root, prior_facts(prior), files);
            let concepts = scanned_concepts(root, files, prior, now);
            let reuse = can_reuse_usage(concepts, prior);
            &&& all_facts(root, one.file_facts, files) == facts
            &&& forall|i: int|
                0 <= i < files.len() ==> crate::scan::is_unchanged(
                    one.file_facts,
                    #[trigger] files[i],
                ) && (extension(files[i].rel) != Some("prisma"@) ==> lookup(
                    one.file_facts,
                    files[i].rel,
                )->Some_0.usage == hits_of(concepts, reuse, prior_facts(prior), files[i]))
        }),
{
    let one = scanned(root, own, files, prior, now);
    let known = prior_facts(prior);
    let facts = all_facts(root, known, files);
    let concepts = scanned_concepts(root, files, prior, now);
    let reuse = can_reuse_usage(concepts, prior);
    let start = Attaching { concepts, facts };
    lemma_all_facts(root, known, files);
    assert forall|i: int| 0 <= i < files.len() implies has_key(
        start.facts,
        (#[trigger] files[i]).rel,
    ) by {
        assert(lookup(facts, files[i].rel) is Some);
    }
    lemma_attached_facts(start, reuse, known, files, files.len() as int);
    assert(files.take(files.len() as int) =~= files);
    assert(one.file_facts == attached(start, reuse, known, files).facts);
    assert forall|i: int| 0 <= i < files.len() implies facts_of(
        root,
        one.file_facts,
        #[trigger] files[i],
    ) == facts_of(root, known, files[i]) by {
        let ff = facts_of(root, known, files[i]);
        assert(lookup(facts, files[i].rel) == Some(ff));
        assert(lookup(one.file_facts, files[i].rel) == Some(
            settled_facts(files[i], ff, hits_of(concepts, reuse, known, files[i])),
        ));
        assert(ff.usage =~= seq![]);
    }
    lemma_same_facts(root, one.file_facts, known, files);
    assert forall|i: int| 0 <= i < files.len() implies crate::scan::is_unchanged(
        one.file_facts,
        #[trigger] files[i],
    ) && (extension(files[i].rel) != Some("prisma"@) ==> lookup(
        one.file_facts,
        files[i].rel,
    )->Some_0.usage == hits_of(concepts, reuse, known, files[i])) by {
        let ff = facts_of(root, known, files[i]);
        assert(lookup(facts, files[i].rel) == Some(ff));
        assert(lookup(one.file_facts, files[i].rel) == Some(
            settled_facts(files[i], ff, hits_of(concepts, reuse, known, files[i])),
        ));
    }
}

proof fn lemma_concepts_again(
    root: Seq<char>,
    own: SettingsView,
    files: Seq<ScannableFileView>,
    prior: Option<IndexView>,
    now: int,
    later: int,
)
    requires
        paths_differ(files),
        forall|k: Seq<char>|
            #[trigger] lookup(scanned(root, own, files, prior, now).concepts, k) matches Some(c)
                ==> 0 < c.first_seen_ms <= later,
    ensures
        ordered(scanned_concepts(root, files, prior, now)),
        scanned_concepts(root, files, Some(scanned(root, own, files, prior, now)), later)
            == scanned_concepts(root, files, prior, now).map_values(each_verified(later)),
{
    let one = scanned(root, own, files, prior, now);
    let old = prior_concepts(prior);
    let facts = all_facts(root, prior_facts(prior), files);
    lemma_facts_again(root, own, files, prior, now);
    assert(prior_facts(Some(one)) == one.file_facts);
    assert(prior_concepts(Some(one)) == one.concepts);
    let made = assembled(facts, now);
    let remade = assembled(facts, later);
    lemma_assembled_alike(facts, now, later);
    let d1 = made.map_values(each_dated(old, now));
    let d2 = remade.map_values(each_dated(one.concepts, later));
    lemma_mapped_lookup(made, each_dated(old, now));
    lemma_mapped_lookup(remade, each_dated(one.concepts, later));
    let pairs = merges(d1);
    let c1 = merge_all(d1, pairs);
    lemma_merged_ordered(d1, pairs);
    let start = Attaching { concepts: c1, facts };
    let reuse = can_reuse_usage(c1, prior);
    let known = prior_facts(prior);
    let att = attached(start, reuse, known, files).concepts;
    lemma_attached_shape(start, reuse, known, files);
    lemma_mapped_lookup(att, each_settled());
    assert(one.concepts == att.map_values(each_settled()));
    let kept = one.concepts;
    assert forall|k: Seq<char>| #[trigger] lookup(kept, k) is Some <==> lookup(c1, k) is Some by {
        assert(lookup(att, k) is Some <==> lookup(c1, k) is Some);
    }
    let h = each_retimed(kept, later);
    lemma_mapped_lookup(d1, h);
    assert forall|k: Seq<char>| #[trigger] lookup(d2, k) == lookup(d1.map_values(h), k) by {
        assert(lookup(remade, k) == (match lookup(made, k) {
            Some(c) => Some(first_seen_at(c, later)),
            None => None,
        }));
        if lookup(kept, k) is Some {
            assert(lookup(kept, k)->Some_0.first_seen_ms > 0);
        }
    }
    lemma_tables_equal(d2, d1.map_values(h));
    lemma_merges_same(d1, h);
    assert(merges(d2) == pairs);
    lemma_merge_retimed(d1, pairs, kept, later, pairs.len() as int);
    assert(pairs.take(pairs.len() as int) =~= pairs);
    let c2 = merge_all(d2, pairs);
    assert(c2 == c1.map_values(h));
    let v = each_verified(later);
    lemma_mapped_lookup(c1, h);
    lemma_mapped_lookup(c1, v);
    assert forall|k: Seq<char>| #[trigger] lookup(c1.map_values(h), k) == lookup(
        c1.map_values(v),
        k,
    ) by {
        if let Some(c) = lookup(c1, k) {
            assert(lookup(att, k) is Some);
            let x = lookup(att, k)->Some_0;
            assert(x == (ConceptView { usage: x.usage, ..c }));
            assert(lookup(kept, k) == Some(each_settled()((k, x)).1));
            assert(lookup(kept, k)->Some_0.first_seen_ms == c.first_seen_ms);
        }
    }
    lemma_tables_equal(c1.map_values(h), c1.map_values(v));
}

/// A second scan of the same files, with the first to lean on, finds the same
/// concepts with the same declarations, uses and first sightings; only the time
/// of verification is new. None of the files' texts is read for it. (The first
/// index must know its concepts' first sightings, none of them later than the
/// second scan.)
pub proof fn law_unchanged_files_are_not_read_again(
    root: Seq<char>,
    own: SettingsView,
    files: Seq<ScannableFileView>,
    prior: Option<IndexView>,
    now: int,
    later: int,
)
    requires
        paths_differ(files),
        forall|k: Seq<char>|
            #[trigger] lookup(scanned(root, own, files, prior, now).concepts, k) matches Some(c)
                ==> 0 < c.first_seen_ms <= later,
    ensures
        ({
            let one = scanned(root, own, files, prior, now);
            let two = scanned(root, own, files, Some(one), later);
            &&& two.concepts == one.concepts.map_values(each_verified(later))
            &&& two.file_facts == one.file_facts
            &&& two.concepts_sig == one.concepts_sig
            &&& forall|i: int|
                0 <= i < files.len() ==> crate::scan::is_unchanged(
                    one.file_facts,
                    #[trigger] files[i],
                )
        }),
{
    let one = scanned(root, own, files, prior, now);
    let two = scanned(root, own, files, Some(one), later);
    let known = prior_facts(prior);
    let facts = all_facts(root, known, files);
    let c1 = scanned_concepts(root, files, prior, now);
    let c2 = scanned_concepts(root, files, Some(one), later);
    let v = each_verified(later);
    lemma_facts_again(root, own, files, prior, now);
    lemma_concepts_again(root, own, files, prior, now, later);
    assert(prior_facts(Some(one)) == one.file_facts);
    assert(c2.map_values(each_signature_line()) =~= c1.map_values(each_signature_line()));
    assert(signature(c2) == signature(c1));
    assert(usable(Some(one)) == Some(one));
    let reuse = can_reuse_usage(c1, prior);
    assert(can_reuse_usage(c2, Some(one)));
    let first = Attaching { concepts: c1, facts };
    let again = Attaching { concepts: c2, facts };
    assert forall|i: int|
        0 <= i < files.len() && extension((#[trigger] files[i]).rel) != Some(
            "prisma"@,
        ) implies hits_of(again.concepts, true, one.file_facts, files[i]) == hits_of(
        first.concepts,
        reuse,
        known,
        files[i],
    ) by {
        assert(crate::scan::is_unchanged(one.file_facts, files[i]));
    }
    lemma_attached_again(
        first,
        reuse,
        known,
        again,
        one.file_facts,
        files,
        later,
        files.len() as int,
    );
    assert(files.take(files.len() as int) =~= files);
    let a1 = attached(first, reuse, known, files).concepts;
    assert(two.concepts == a1.map_values(v).map_values(each_settled()));
    assert(a1.map_values(v).map_values(each_settled()) =~= a1.map_values(
        each_settled(),
    ).map_values(v));
}

} // verus!
