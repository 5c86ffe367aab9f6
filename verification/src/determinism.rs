//! The order in which the files of a repository are found makes no difference.
use vstd::prelude::*;
use crate::model::{ConceptView, FileFactsView, IndexView};
use crate::paths::extension;
use crate::rescan::{
    lemma_all_facts, lemma_assembled_alike, lemma_attached_facts, lemma_merged_ordered,
    lemma_tables_equal, paths_differ,
};
use crate::scan::{
    all_facts, assembled, attached, can_reuse_usage, declares_in, each_dated, each_settled,
    facts_of, hits_of, merges, prior_concepts, prior_facts, scanned, scanned_concepts,
    with_sightings, Attaching, ScannableFileView, SettingsView,
};
use crate::scan_laws::lemma_mapped_lookup;
use crate::table::{
    has_key, insert_pair, lemma_lookup_at, lemma_pair_set, lemma_put, lookup, ordered, pair_before,
    pair_set, put,
};
use crate::text::{lemma_before_irreflexive, lemma_before_total, lemma_before_transitive};

verus! {

// ---------------------------------------------------------------------------
// Sets of pairs
// ---------------------------------------------------------------------------

pub open spec fn pairs_ascend(s: Seq<(Seq<char>, Seq<char>)>) -> bool {
    forall|i: int, j: int| 0 <= i < j < s.len() ==> pair_before(#[trigger] s[i], #[trigger] s[j])
}

proof fn lemma_pair_order(
    a: (Seq<char>, Seq<char>),
    b: (Seq<char>, Seq<char>),
    c: (Seq<char>, Seq<char>),
)
    ensures
        !pair_before(a, a),
        a == b || pair_before(a, b) || pair_before(b, a),
        pair_before(a, b) && pair_before(b, c) ==> pair_before(a, c),
{
    lemma_before_irreflexive(a.0);
    lemma_before_irreflexive(a.1);
    lemma_before_total(a.0, b.0);
    lemma_before_total(a.1, b.1);
    if pair_before(a, b) && pair_before(b, c) {
        if a.0 != b.0 && b.0 != c.0 {
            lemma_before_transitive(a.0, b.0, c.0);
        }
        if a.0 == b.0 && b.0 == c.0 {
            lemma_before_irreflexive(b.0);
            lemma_before_transitive(a.1, b.1, c.1);
        }
    }
}

proof fn lemma_insert_ascends(s: Seq<(Seq<char>, Seq<char>)>, x: (Seq<char>, Seq<char>))
    requires
        pairs_ascend(s),
    ensures
        pairs_ascend(insert_pair(s, x)),
        forall|i: int|
            0 <= i < insert_pair(s, x).len() ==> #[trigger] insert_pair(s, x)[i] == x || s.contains(
                insert_pair(s, x)[i],
            ),
    decreases s.len(),
{
    let r = insert_pair(s, x);
    if s.len() > 0 && s[0] != x {
        lemma_pair_order(x, s[0], s[0]);
        if pair_before(x, s[0]) {
            assert forall|i: int, j: int| 0 <= i < j < r.len() implies pair_before(
                #[trigger] r[i],
                #[trigger] r[j],
            ) by {
                if i > 0 {
                    assert(pair_before(s[i - 1], s[j - 1]));
                } else if j > 1 {
                    assert(pair_before(s[0], s[j - 1]));
                    lemma_pair_order(x, s[0], s[j - 1]);
                }
            }
            assert forall|i: int| 0 <= i < r.len() implies #[trigger] r[i] == x || s.contains(
                r[i],
            ) by {
                if i > 0 {
                    assert(s[i - 1] == r[i]);
                }
            }
        } else {
            let rest = s.skip(1);
            assert forall|i: int, j: int| 0 <= i < j < rest.len() implies pair_before(
                #[trigger] rest[i],
                #[trigger] rest[j],
            ) by {
                assert(pair_before(s[i + 1], s[j + 1]));
            }
            lemma_insert_ascends(rest, x);
            let tail = insert_pair(rest, x);
            assert forall|i: int| 0 <= i < tail.len() implies pair_before(
                s[0],
                #[trigger] tail[i],
            ) by {
                if tail[i] != x {
                    let k = choose|k: int| 0 <= k < rest.len() && rest[k] == tail[i];
                    assert(pair_before(s[0], s[k + 1]));
                }
            }
            assert forall|i: int, j: int| 0 <= i < j < r.len() implies pair_before(
                #[trigger] r[i],
                #[trigger] r[j],
            ) by {
                assert(r[j] == tail[j - 1]);
                if i > 0 {
                    assert(r[i] == tail[i - 1]);
                }
            }
            assert forall|i: int| 0 <= i < r.len() implies #[trigger] r[i] == x || s.contains(
                r[i],
            ) by {
                if i == 0 {
                    assert(s[0] == r[0]);
                } else {
                    assert(r[i] == tail[i - 1]);
                    if tail[i - 1] != x {
                        let k = choose|k: int| 0 <= k < rest.len() && rest[k] == tail[i - 1];
                        assert(s[k + 1] == r[i]);
                    }
                }
            }
        }
    } else if s.len() > 0 {
        assert forall|i: int| 0 <= i < r.len() implies #[trigger] r[i] == x || s.contains(r[i]) by {
            assert(s[i] == r[i]);
        }
    }
}

proof fn lemma_pair_set_ascends(s: Seq<(Seq<char>, Seq<char>)>)
    ensures
        pairs_ascend(pair_set(s)),
    decreases s.len(),
{
    if s.len() > 0 {
        lemma_pair_set_ascends(s.drop_last());
        lemma_insert_ascends(pair_set(s.drop_last()), s.last());
    }
}

/// Two ascending lists of the same pairs are the same.
proof fn lemma_same_pairs(a: Seq<(Seq<char>, Seq<char>)>, b: Seq<(Seq<char>, Seq<char>)>)
    requires
        pairs_ascend(a),
        pairs_ascend(b),
        forall|y: (Seq<char>, Seq<char>)| #[trigger] a.contains(y) <==> b.contains(y),
    ensures
        a == b,
    decreases a.len(),
{
    if a.len() == 0 {
        if b.len() > 0 {
            assert(b.contains(b[0]));
            assert(a.contains(b[0]));
        }
        assert(a =~= b);
    } else {
        assert(a.contains(a[0]));
        assert(b.contains(a[0]));
        let j = choose|j: int| 0 <= j < b.len() && b[j] == a[0];
        if j > 0 {
            assert(pair_before(b[0], b[j]));
            assert(b.contains(b[0]));
            assert(a.contains(b[0]));
            let i = choose|i: int| 0 <= i < a.len() && a[i] == b[0];
            if i > 0 {
                assert(pair_before(a[0], a[i]));
                lemma_pair_order(a[0], b[0], a[0]);
            } else {
                lemma_pair_order(a[0], a[0], a[0]);
            }
        }
        let x = a.skip(1);
        let y = b.skip(1);
        lemma_skip_one(a, b);
        lemma_skip_one(b, a);
        assert forall|p: (Seq<char>, Seq<char>)| #[trigger] x.contains(p) <==> y.contains(p) by {}
        assert forall|i: int, k: int| 0 <= i < k < x.len() implies pair_before(
            #[trigger] x[i],
            #[trigger] x[k],
        ) by {
            assert(pair_before(a[i + 1], a[k + 1]));
        }
        assert forall|i: int, k: int| 0 <= i < k < y.len() implies pair_before(
            #[trigger] y[i],
            #[trigger] y[k],
        ) by {
            assert(pair_before(b[i + 1], b[k + 1]));
        }
        lemma_same_pairs(x, y);
        assert(a =~= seq![a[0]] + x);
        assert(b =~= seq![b[0]] + y);
    }
}

proof fn lemma_skip_one(a: Seq<(Seq<char>, Seq<char>)>, b: Seq<(Seq<char>, Seq<char>)>)
    requires
        a.len() > 0,
        b.len() > 0,
        a[0] == b[0],
        pairs_ascend(a),
        forall|y: (Seq<char>, Seq<char>)| #[trigger] a.contains(y) ==> b.contains(y),
    ensures
        forall|p: (Seq<char>, Seq<char>)| #[trigger] a.skip(1).contains(p) ==> b.skip(1).contains(p),
{
    assert forall|p: (Seq<char>, Seq<char>)| #[trigger] a.skip(1).contains(p) implies b.skip(
        1,
    ).contains(p) by {
        let i = choose|i: int| 0 <= i < a.skip(1).len() && a.skip(1)[i] == p;
        assert(a[i + 1] == p);
        assert(pair_before(a[0], a[i + 1]));
        lemma_pair_order(a[0], a[0], a[0]);
        assert(a.contains(p));
        let j = choose|j: int| 0 <= j < b.len() && b[j] == p;
        assert(b.skip(1)[j - 1] == p);
    }
}

// ---------------------------------------------------------------------------
// Uses
// ---------------------------------------------------------------------------

/// A file adds one use to a concept.
pub open spec fn adds_use(
    start: Attaching,
    reuse: bool,
    known: Seq<(Seq<char>, FileFactsView)>,
    f: ScannableFileView,
    k: Seq<char>,
    c: ConceptView,
    pair: (Seq<char>, Seq<char>),
) -> bool {
    &&& extension(f.rel) != Some("prisma"@)
    &&& pair.0 == f.rel
    &&& !declares_in(c, f.rel)
    &&& hits_of(start.concepts, reuse, known, f).contains((k, pair.1))
}

proof fn lemma_declares_same(c: ConceptView, x: ConceptView, rel: Seq<char>)
    requires
        c.declared_in == x.declared_in,
    ensures
        declares_in(c, rel) == declares_in(x, rel),
{
    if declares_in(c, rel) {
        let i = choose|i: int| 0 <= i < c.declared_in.len() && (#[trigger] c.declared_in[i]).0 == rel;
        assert(x.declared_in[i].0 == rel);
    }
    if declares_in(x, rel) {
        let i = choose|i: int| 0 <= i < x.declared_in.len() && (#[trigger] x.declared_in[i]).0 == rel;
        assert(c.declared_in[i].0 == rel);
    }
}

proof fn lemma_push_contains<A>(s: Seq<A>, x: A, y: A)
    ensures
        s.push(x).contains(y) <==> y == x || s.contains(y),
{
    let r = s.push(x);
    if r.contains(y) {
        let i = choose|i: int| 0 <= i < r.len() && r[i] == y;
        if i < s.len() {
            assert(s[i] == y);
        }
    }
    if s.contains(y) {
        let i = choose|i: int| 0 <= i < s.len() && s[i] == y;
        assert(r[i] == y);
    }
    assert(r[s.len() as int] == x);
}

proof fn lemma_sightings_members(
    m: Seq<(Seq<char>, ConceptView)>,
    rel: Seq<char>,
    hits: Seq<(Seq<char>, Seq<char>)>,
    k: Seq<char>,
    pair: (Seq<char>, Seq<char>),
)
    requires
        ordered(m),
    ensures
        ({
            let r = with_sightings(m, rel, hits);
            &&& ordered(r)
            &&& match (lookup(m, k), lookup(r, k)) {
                (Some(c), Some(x)) => x == (ConceptView { usage: x.usage, ..c })
                    && (x.usage.contains(pair) <==> c.usage.contains(pair) || (pair.0 == rel
                    && !declares_in(c, rel) && hits.contains((k, pair.1)))),
                (None, None) => true,
                _ => false,
            }
        }),
    decreases hits.len(),
{
    if hits.len() > 0 {
        let rest = hits.drop_last();
        lemma_sightings_members(m, rel, rest, k, pair);
        let a = with_sightings(m, rel, rest);
        let h = hits.last();
        lemma_push_contains(rest, h, (k, pair.1));
        assert(hits =~= rest.push(h));
        if let Some(c) = lookup(a, h.0) {
            if !declares_in(c, rel) {
                let x = ConceptView { usage: c.usage.push((rel, h.1)), ..c };
                lemma_put(a, h.0, x);
                lemma_push_contains(c.usage, (rel, h.1), pair);
                if h.0 != k {
                    assert(lookup(put(a, h.0, x), k) == lookup(a, k));
                } else if lookup(m, k) is Some {
                    lemma_declares_same(lookup(m, k)->Some_0, c, rel);
                }
            } else if h.0 == k && lookup(m, k) is Some {
                lemma_declares_same(lookup(m, k)->Some_0, c, rel);
            }
        }
    }
}

pub proof fn lemma_attached_members(
    start: Attaching,
    reuse: bool,
    known: Seq<(Seq<char>, FileFactsView)>,
    files: Seq<ScannableFileView>,
    k: Seq<char>,
    pair: (Seq<char>, Seq<char>),
)
    requires
        ordered(start.concepts),
    ensures
        ({
            let r = attached(start, reuse, known, files).concepts;
            &&& ordered(r)
            &&& match (lookup(start.concepts, k), lookup(r, k)) {
                (Some(c), Some(x)) => x == (ConceptView { usage: x.usage, ..c })
                    && (x.usage.contains(pair) <==> c.usage.contains(pair) || exists|i: int|
                    0 <= i < files.len() && adds_use(
                        start,
                        reuse,
                        known,
                        #[trigger] files[i],
                        k,
                        c,
                        pair,
                    )),
                (None, None) => true,
                _ => false,
            }
        }),
    decreases files.len(),
{
    if files.len() > 0 {
        let rest = files.drop_last();
        let f = files.last();
        lemma_attached_members(start, reuse, known, rest, k, pair);
        let a = attached(start, reuse, known, rest).concepts;
        let hits = hits_of(start.concepts, reuse, known, f);
        lemma_sightings_members(a, f.rel, hits, k, pair);
        if let Some(c) = lookup(start.concepts, k) {
            let y = lookup(a, k)->Some_0;
            lemma_declares_same(c, y, f.rel);
            if exists|i: int|
                0 <= i < rest.len() && adds_use(start, reuse, known, #[trigger] rest[i], k, c, pair) {
                let i = choose|i: int|
                    0 <= i < rest.len() && adds_use(
                        start,
                        reuse,
                        known,
                        #[trigger] rest[i],
                        k,
                        c,
                        pair,
                    );
                assert(files[i] == rest[i]);
            }
            if exists|i: int|
                0 <= i < files.len() && adds_use(
                    start,
                    reuse,
                    known,
                    #[trigger] files[i],
                    k,
                    c,
                    pair,
                ) {
                let i = choose|i: int|
                    0 <= i < files.len() && adds_use(
                        start,
                        reuse,
                        known,
                        #[trigger] files[i],
                        k,
                        c,
                        pair,
                    );
                if i < rest.len() {
                    assert(rest[i] == files[i]);
                }
            }
            assert(files[files.len() - 1] == f);
        }
    }
}

// ---------------------------------------------------------------------------
// Facts
// ---------------------------------------------------------------------------

proof fn lemma_facts_keys(
    root: Seq<char>,
    known: Seq<(Seq<char>, FileFactsView)>,
    files: Seq<ScannableFileView>,
    k: Seq<char>,
)
    ensures
        ordered(all_facts(root, known, files)),
        lookup(all_facts(root, known, files), k) is Some <==> exists|i: int|
            0 <= i < files.len() && (#[trigger] files[i]).rel == k,
    decreases files.len(),
{
    if files.len() > 0 {
        let rest = files.drop_last();
        let f = files.last();
        lemma_facts_keys(root, known, rest, k);
        lemma_put(all_facts(root, known, rest), f.rel, facts_of(root, known, f));
        if exists|i: int| 0 <= i < rest.len() && (#[trigger] rest[i]).rel == k {
            let i = choose|i: int| 0 <= i < rest.len() && (#[trigger] rest[i]).rel == k;
            assert(files[i].rel == k);
        }
        if exists|i: int| 0 <= i < files.len() && (#[trigger] files[i]).rel == k {
            let i = choose|i: int| 0 <= i < files.len() && (#[trigger] files[i]).rel == k;
            if i < rest.len() {
                assert(rest[i].rel == k);
            }
        }
        assert(files[files.len() - 1] == f);
    }
}

proof fn lemma_facts_agree(
    root: Seq<char>,
    known: Seq<(Seq<char>, FileFactsView)>,
    a: Seq<ScannableFileView>,
    b: Seq<ScannableFileView>,
)
    requires
        paths_differ(a),
        paths_differ(b),
        forall|f: ScannableFileView| #[trigger] a.contains(f) <==> b.contains(f),
    ensures
        all_facts(root, known, a) == all_facts(root, known, b),
{
    let x = all_facts(root, known, a);
    let y = all_facts(root, known, b);
    lemma_all_facts(root, known, a);
    lemma_all_facts(root, known, b);
    assert forall|k: Seq<char>| #[trigger] lookup(x, k) == lookup(y, k) by {
        lemma_facts_keys(root, known, a, k);
        lemma_facts_keys(root, known, b, k);
        if lookup(x, k) is Some {
            let i = choose|i: int| 0 <= i < a.len() && (#[trigger] a[i]).rel == k;
            assert(a.contains(a[i]));
            let j = choose|j: int| 0 <= j < b.len() && b[j] == a[i];
            assert(lookup(y, b[j].rel) == Some(facts_of(root, known, b[j])));
        } else if lookup(y, k) is Some {
            let j = choose|j: int| 0 <= j < b.len() && (#[trigger] b[j]).rel == k;
            assert(b.contains(b[j]));
            assert(a.contains(b[j]));
            let i = choose|i: int| 0 <= i < a.len() && a[i] == b[j];
            assert(lookup(x, a[i].rel) == Some(facts_of(root, known, a[i])));
        }
    }
    lemma_tables_equal(x, y);
}

proof fn lemma_attached_facts_agree(
    start: Attaching,
    reuse: bool,
    known: Seq<(Seq<char>, FileFactsView)>,
    a: Seq<ScannableFileView>,
    b: Seq<ScannableFileView>,
)
    requires
        paths_differ(a),
        paths_differ(b),
        forall|f: ScannableFileView| #[trigger] a.contains(f) <==> b.contains(f),
        ordered(start.facts),
        forall|k: Seq<char>|
            #[trigger] has_key(start.facts, k) <==> exists|i: int|
                0 <= i < a.len() && (#[trigger] a[i]).rel == k,
        forall|i: int| 0 <= i < b.len() ==> has_key(start.facts, (#[trigger] b[i]).rel),
    ensures
        attached(start, reuse, known, a).facts == attached(start, reuse, known, b).facts,
{
    assert forall|i: int| 0 <= i < a.len() implies has_key(start.facts, (#[trigger] a[i]).rel) by {
        assert(exists|j: int| 0 <= j < a.len() && (#[trigger] a[j]).rel == a[i].rel);
    }
    lemma_attached_facts(start, reuse, known, a, a.len() as int);
    lemma_attached_facts(start, reuse, known, b, b.len() as int);
    assert(a.take(a.len() as int) =~= a);
    assert(b.take(b.len() as int) =~= b);
    let x = attached(start, reuse, known, a).facts;
    let y = attached(start, reuse, known, b).facts;
    assert forall|k: Seq<char>| #[trigger] lookup(x, k) == lookup(y, k) by {
        assert(has_key(x, k) <==> has_key(start.facts, k));
        assert(has_key(y, k) <==> has_key(start.facts, k));
        lemma_has_key_lookup(x, k);
        lemma_has_key_lookup(y, k);
        if has_key(start.facts, k) {
            let i = choose|i: int| 0 <= i < a.len() && (#[trigger] a[i]).rel == k;
            assert(a.contains(a[i]));
            let j = choose|j: int| 0 <= j < b.len() && b[j] == a[i];
            assert(lookup(x, a[i].rel) is Some);
            assert(lookup(y, b[j].rel) is Some);
        }
    }
    lemma_tables_equal(x, y);
}

proof fn lemma_has_key_lookup<V>(m: Seq<(Seq<char>, V)>, k: Seq<char>)
    requires
        ordered(m),
    ensures
        has_key(m, k) <==> lookup(m, k) is Some,
{
    if has_key(m, k) {
        let i = choose|i: int| 0 <= i < m.len() && (#[trigger] m[i]).0 == k;
        lemma_lookup_at(m, i);
    }
}

// ---------------------------------------------------------------------------
// The law
// ---------------------------------------------------------------------------

/// The same files make the same index, in whatever order they were found: the
/// same concepts with the same declarations and uses, the same memory of every
/// file, the same signature.
pub proof fn law_same_files_same_index(
    root: Seq<char>,
    own: SettingsView,
    a: Seq<ScannableFileView>,
    b: Seq<ScannableFileView>,
    prior: Option<IndexView>,
    now: int,
)
    requires
        paths_differ(a),
        paths_differ(b),
        forall|f: ScannableFileView| #[trigger] a.contains(f) <==> b.contains(f),
    ensures
        ({
            let x = scanned(root, own, a, prior, now);
            let y = scanned(root, own, b, prior, now);
            &&& x.concepts == y.concepts
            &&& x.file_facts == y.file_facts
            &&& x.concepts_sig == y.concepts_sig
        }),
{
    let known = prior_facts(prior);
    let facts = all_facts(root, known, a);
    lemma_facts_agree(root, known, a, b);
    let concepts = scanned_concepts(root, a, prior, now);
    assert(concepts == scanned_concepts(root, b, prior, now));
    let reuse = can_reuse_usage(concepts, prior);
    let start = Attaching { concepts, facts };
    let made = assembled(facts, now);
    lemma_assembled_alike(facts, now, now);
    lemma_mapped_lookup(made, each_dated(prior_concepts(prior), now));
    let with_dates = made.map_values(each_dated(prior_concepts(prior), now));
    lemma_merged_ordered(with_dates, merges(with_dates));
    lemma_all_facts(root, known, a);
    assert forall|k: Seq<char>| #[trigger] has_key(facts, k) <==> exists|i: int|
        0 <= i < a.len() && (#[trigger] a[i]).rel == k by {
        lemma_facts_keys(root, known, a, k);
        lemma_has_key_lookup(facts, k);
    }
    assert forall|i: int| 0 <= i < b.len() implies has_key(facts, (#[trigger] b[i]).rel) by {
        lemma_facts_keys(root, known, b, b[i].rel);
        lemma_has_key_lookup(facts, b[i].rel);
    }
    lemma_attached_facts_agree(start, reuse, known, a, b);
    let p = attached(start, reuse, known, a).concepts;
    let q = attached(start, reuse, known, b).concepts;
    let s = each_settled();
    lemma_attached_members(start, reuse, known, a, ""@, (""@, ""@));
    lemma_attached_members(start, reuse, known, b, ""@, (""@, ""@));
    lemma_mapped_lookup(p, s);
    lemma_mapped_lookup(q, s);
    assert forall|k: Seq<char>| #[trigger] lookup(p.map_values(s), k) == lookup(
        q.map_values(s),
        k,
    ) by {
        lemma_attached_members(start, reuse, known, a, k, (""@, ""@));
        lemma_attached_members(start, reuse, known, b, k, (""@, ""@));
        if let Some(c) = lookup(concepts, k) {
            let x = lookup(p, k)->Some_0;
            let y = lookup(q, k)->Some_0;
            assert forall|pair: (Seq<char>, Seq<char>)| #[trigger]
                pair_set(x.usage).contains(pair) <==> pair_set(y.usage).contains(pair) by {
                lemma_pair_set(x.usage);
                lemma_pair_set(y.usage);
                lemma_attached_members(start, reuse, known, a, k, pair);
                lemma_attached_members(start, reuse, known, b, k, pair);
                lemma_uses_agree(start, reuse, known, a, b, k, c, pair);
                lemma_uses_agree(start, reuse, known, b, a, k, c, pair);
            }
            lemma_pair_set_ascends(x.usage);
            lemma_pair_set_ascends(y.usage);
            lemma_same_pairs(pair_set(x.usage), pair_set(y.usage));
        }
    }
    lemma_tables_equal(p.map_values(s), q.map_values(s));
}

proof fn lemma_uses_agree(
    start: Attaching,
    reuse: bool,
    known: Seq<(Seq<char>, FileFactsView)>,
    a: Seq<ScannableFileView>,
    b: Seq<ScannableFileView>,
    k: Seq<char>,
    c: ConceptView,
    pair: (Seq<char>, Seq<char>),
)
    requires
        forall|f: ScannableFileView| #[trigger] a.contains(f) ==> b.contains(f),
    ensures
        (exists|i: int|
            0 <= i < a.len() && adds_use(start, reuse, known, #[trigger] a[i], k, c, pair)) ==> (
        exists|j: int|
            0 <= j < b.len() && adds_use(start, reuse, known, #[trigger] b[j], k, c, pair)),
{
    if exists|i: int|
        0 <= i < a.len() && adds_use(start, reuse, known, #[trigger] a[i], k, c, pair) {
        let i = choose|i: int|
            0 <= i < a.len() && adds_use(start, reuse, known, #[trigger] a[i], k, c, pair);
        assert(a.contains(a[i]));
        let j = choose|j: int| 0 <= j < b.len() && b[j] == a[i];
        assert(adds_use(start, reuse, known, b[j], k, c, pair));
    }
}

} // verus!
