//! Ordered collections of text: lists without repetition in ascending order,
//! and tables from text to values whose keys ascend.
use vstd::prelude::*;
use crate::text::{before, owned, precedes, same};
use crate::text::{lemma_before_irreflexive, lemma_before_total, lemma_before_transitive};

verus! {

/// Each entry comes before all that follow it.
pub open spec fn ascending(s: Seq<Seq<char>>) -> bool {
    forall|i: int, j: int| 0 <= i < j < s.len() ==> before(#[trigger] s[i], #[trigger] s[j])
}

/// `s` with `x` at its place in the order, unless it is there already.
pub open spec fn insert_text(s: Seq<Seq<char>>, x: Seq<char>) -> Seq<Seq<char>>
    decreases s.len(),
{
    if s.len() == 0 {
        seq![x]
    } else if s[0] == x {
        s
    } else if before(x, s[0]) {
        seq![x] + s
    } else {
        seq![s[0]] + insert_text(s.skip(1), x)
    }
}

/// The texts of a list in ascending order, each once.
pub open spec fn sorted_set(s: Seq<Seq<char>>) -> Seq<Seq<char>>
    decreases s.len(),
{
    if s.len() == 0 {
        seq![]
    } else {
        insert_text(sorted_set(s.drop_last()), s.last())
    }
}

pub proof fn lemma_insert_text(s: Seq<Seq<char>>, x: Seq<char>)
    requires
        ascending(s),
    ensures
        ascending(insert_text(s, x)),
        forall|y: Seq<char>| #[trigger]
            insert_text(s, x).contains(y) <==> (y == x || s.contains(y)),
    decreases s.len(),
{
    let r = insert_text(s, x);
    if s.len() == 0 {
        assert(r[0] == x);
    } else if s[0] == x {
    } else if before(x, s[0]) {
        assert forall|i: int, j: int| 0 <= i < j < r.len() implies before(
            #[trigger] r[i],
            #[trigger] r[j],
        ) by {
            if i == 0 && j > 1 {
                lemma_before_transitive(x, s[0], s[j - 1]);
            }
        }
        assert forall|y: Seq<char>| #[trigger] r.contains(y) <==> (y == x || s.contains(y)) by {
            if s.contains(y) {
                let k = choose|k: int| 0 <= k < s.len() && s[k] == y;
                assert(r[k + 1] == y);
            }
            assert(r[0] == x);
            if r.contains(y) {
                let k = choose|k: int| 0 <= k < r.len() && r[k] == y;
                if k > 0 {
                    assert(s[k - 1] == y);
                }
            }
        }
    } else {
        let rest = s.skip(1);
        let q = insert_text(rest, x);
        lemma_before_total(x, s[0]);
        lemma_insert_text(rest, x);
        assert forall|i: int, j: int| 0 <= i < j < r.len() implies before(
            #[trigger] r[i],
            #[trigger] r[j],
        ) by {
            if i == 0 {
                let y = r[j];
                assert(q[j - 1] == y);
                assert(q.contains(y));
                if y != x {
                    let k = choose|k: int| 0 <= k < rest.len() && rest[k] == y;
                    assert(s[k + 1] == y);
                }
            } else {
                assert(q[i - 1] == r[i]);
                assert(q[j - 1] == r[j]);
            }
        }
        assert forall|y: Seq<char>| #[trigger] r.contains(y) <==> (y == x || s.contains(y)) by {
            if r.contains(y) {
                let k = choose|k: int| 0 <= k < r.len() && r[k] == y;
                if k == 0 {
                    assert(s[0] == y);
                } else {
                    assert(q[k - 1] == y);
                    assert(q.contains(y));
                    if y != x {
                        let m = choose|m: int| 0 <= m < rest.len() && rest[m] == y;
                        assert(s[m + 1] == y);
                    }
                }
            }
            if y == x || s.contains(y) {
                if y != x && s[0] != y {
                    let m = choose|m: int| 0 <= m < s.len() && s[m] == y;
                    assert(rest[m - 1] == y);
                }
                if y == x || s[0] != y {
                    assert(q.contains(y));
                    let k = choose|k: int| 0 <= k < q.len() && q[k] == y;
                    assert(r[k + 1] == y);
                } else {
                    assert(r[0] == y);
                }
            }
        }
    }
}

/// A sorted set ascends, so nothing occurs in it twice, and it holds exactly
/// the texts of the list.
pub proof fn lemma_sorted_set(s: Seq<Seq<char>>)
    ensures
        ascending(sorted_set(s)),
        forall|y: Seq<char>| #[trigger] sorted_set(s).contains(y) <==> s.contains(y),
    decreases s.len(),
{
    if s.len() > 0 {
        let front = s.drop_last();
        lemma_sorted_set(front);
        lemma_insert_text(sorted_set(front), s.last());
        assert forall|y: Seq<char>| #[trigger] sorted_set(s).contains(y) <==> s.contains(y) by {
            if s.contains(y) {
                let k = choose|k: int| 0 <= k < s.len() && s[k] == y;
                if k < s.len() - 1 {
                    assert(front[k] == y);
                }
            }
            if front.contains(y) {
                let k = choose|k: int| 0 <= k < front.len() && front[k] == y;
                assert(s[k] == y);
            }
            assert(s[s.len() - 1] == s.last());
        }
    } else {
        assert forall|y: Seq<char>| #[trigger] sorted_set(s).contains(y) <==> s.contains(y) by {}
    }
}

/// Puts `x` at its place in an ascending list, unless it is there already.
pub fn insert_once(list: Vec<String>, x: &str) -> (r: Vec<String>)
    ensures
        r.deep_view() == insert_text(list.deep_view(), x@),
{
    let ghost whole = list.deep_view();
    let mut out = list;
    let mut i: usize = 0;
    assert(whole.skip(0) =~= whole);
    assert(whole.take(0) + insert_text(whole, x@) =~= insert_text(whole, x@));
    while i < out.len()
        invariant
            i <= out.len(),
            out.deep_view() == whole,
            whole == list.deep_view(),
            insert_text(whole, x@) =~= whole.take(i as int) + insert_text(
                whole.skip(i as int),
                x@,
            ),
        decreases out.len() - i,
    {
        let ghost rest = whole.skip(i as int);
        assert(rest[0] == out[i as int]@);
        if same(out[i].as_str(), x) {
            assert(whole.take(i as int) + rest =~= whole);
            return out;
        }
        if precedes(x, out[i].as_str()) {
            out.insert(i, owned(x));
            assert(out.deep_view() =~= whole.take(i as int) + (seq![x@] + rest));
            return out;
        }
        assert(rest.skip(1) =~= whole.skip(i + 1));
        assert(whole.take(i as int) + (seq![rest[0]] + insert_text(rest.skip(1), x@))
            =~= whole.take(i + 1) + insert_text(rest.skip(1), x@));
        i += 1;
    }
    assert(whole.skip(i as int) =~= seq![]);
    assert(whole.take(i as int) =~= whole);
    out.push(owned(x));
    assert(out.deep_view() =~= whole + seq![x@]);
    out
}

/// The texts of a list in ascending order, each once.
pub fn sorted_distinct(list: &Vec<String>) -> (r: Vec<String>)
    ensures
        r.deep_view() == sorted_set(list.deep_view()),
{
    let mut out: Vec<String> = Vec::new();
    let mut i: usize = 0;
    while i < list.len()
        invariant
            i <= list.len(),
            out.deep_view() == sorted_set(list.deep_view().take(i as int)),
        decreases list.len() - i,
    {
        let ghost step = list.deep_view().take(i + 1);
        assert(step.drop_last() =~= list.deep_view().take(i as int));
        assert(step.last() == list[i as int]@);
        out = insert_once(out, list[i].as_str());
        i += 1;
    }
    assert(list.deep_view().take(i as int) =~= list.deep_view());
    out
}

/// `s` with `x` behind everything that it does not precede.
pub open spec fn insert_last(s: Seq<Seq<char>>, x: Seq<char>) -> Seq<Seq<char>>
    decreases s.len(),
{
    if s.len() == 0 {
        seq![x]
    } else if before(x, s[0]) {
        seq![x] + s
    } else {
        seq![s[0]] + insert_last(s.skip(1), x)
    }
}

/// The texts of a list in order, with repetitions.
pub open spec fn sorted(s: Seq<Seq<char>>) -> Seq<Seq<char>>
    decreases s.len(),
{
    if s.len() == 0 {
        seq![]
    } else {
        insert_last(sorted(s.drop_last()), s.last())
    }
}

fn insert_behind(list: Vec<String>, x: &str) -> (r: Vec<String>)
    ensures
        r.deep_view() == insert_last(list.deep_view(), x@),
{
    let ghost whole = list.deep_view();
    let mut out = list;
    let mut i: usize = 0;
    assert(whole.skip(0) =~= whole);
    assert(whole.take(0) + insert_last(whole, x@) =~= insert_last(whole, x@));
    while i < out.len()
        invariant
            i <= out.len(),
            out.deep_view() == whole,
            whole == list.deep_view(),
            insert_last(whole, x@) =~= whole.take(i as int) + insert_last(
                whole.skip(i as int),
                x@,
            ),
        decreases out.len() - i,
    {
        let ghost rest = whole.skip(i as int);
        assert(rest[0] == out[i as int]@);
        if precedes(x, out[i].as_str()) {
            out.insert(i, owned(x));
            assert(out.deep_view() =~= whole.take(i as int) + (seq![x@] + rest));
            return out;
        }
        assert(rest.skip(1) =~= whole.skip(i + 1));
        assert(whole.take(i as int) + (seq![rest[0]] + insert_last(rest.skip(1), x@))
            =~= whole.take(i + 1) + insert_last(rest.skip(1), x@));
        i += 1;
    }
    assert(whole.skip(i as int) =~= seq![]);
    assert(whole.take(i as int) =~= whole);
    out.push(owned(x));
    assert(out.deep_view() =~= whole + seq![x@]);
    out
}

/// The texts of a list in order, with repetitions.
pub fn sorted_list(list: &Vec<String>) -> (r: Vec<String>)
    ensures
        r.deep_view() == sorted(list.deep_view()),
{
    let mut out: Vec<String> = Vec::new();
    let mut i: usize = 0;
    while i < list.len()
        invariant
            i <= list.len(),
            out.deep_view() == sorted(list.deep_view().take(i as int)),
        decreases list.len() - i,
    {
        let ghost step = list.deep_view().take(i + 1);
        assert(step.drop_last() =~= list.deep_view().take(i as int));
        assert(step.last() == list[i as int]@);
        out = insert_behind(out, list[i].as_str());
        i += 1;
    }
    assert(list.deep_view().take(i as int) =~= list.deep_view());
    out
}

// ---------------------------------------------------------------------------
// Pairs
// ---------------------------------------------------------------------------

/// Pairs are ordered by their first text, then by their second.
pub open spec fn pair_before(a: (Seq<char>, Seq<char>), b: (Seq<char>, Seq<char>)) -> bool {
    before(a.0, b.0) || (a.0 == b.0 && before(a.1, b.1))
}

/// `s` with the pair `x` at its place, unless it is there already.
pub open spec fn insert_pair(
    s: Seq<(Seq<char>, Seq<char>)>,
    x: (Seq<char>, Seq<char>),
) -> Seq<(Seq<char>, Seq<char>)>
    decreases s.len(),
{
    if s.len() == 0 {
        seq![x]
    } else if s[0] == x {
        s
    } else if pair_before(x, s[0]) {
        seq![x] + s
    } else {
        seq![s[0]] + insert_pair(s.skip(1), x)
    }
}

/// The pairs of a list in order, each once.
pub open spec fn pair_set(s: Seq<(Seq<char>, Seq<char>)>) -> Seq<(Seq<char>, Seq<char>)>
    decreases s.len(),
{
    if s.len() == 0 {
        seq![]
    } else {
        insert_pair(pair_set(s.drop_last()), s.last())
    }
}

proof fn lemma_insert_pair(s: Seq<(Seq<char>, Seq<char>)>, x: (Seq<char>, Seq<char>))
    ensures
        forall|y: (Seq<char>, Seq<char>)| #[trigger]
            insert_pair(s, x).contains(y) <==> (y == x || s.contains(y)),
    decreases s.len(),
{
    let r = insert_pair(s, x);
    if s.len() == 0 {
        assert(r[0] == x);
        assert forall|y: (Seq<char>, Seq<char>)| #[trigger] r.contains(y) <==> (y == x || s.contains(
            y,
        )) by {}
    } else if s[0] == x {
    } else {
        let rest = s.skip(1);
        lemma_insert_pair(rest, x);
        let tail = if pair_before(x, s[0]) {
            s
        } else {
            insert_pair(rest, x)
        };
        assert forall|y: (Seq<char>, Seq<char>)| #[trigger] r.contains(y) <==> (y == x || s.contains(
            y,
        )) by {
            if r.contains(y) {
                let k = choose|k: int| 0 <= k < r.len() && r[k] == y;
                if k > 0 {
                    assert(tail[k - 1] == y);
                    assert(tail.contains(y));
                    if rest.contains(y) {
                        let m = choose|m: int| 0 <= m < rest.len() && rest[m] == y;
                        assert(s[m + 1] == y);
                    }
                }
            }
            if tail.contains(y) {
                let k = choose|k: int| 0 <= k < tail.len() && tail[k] == y;
                assert(r[k + 1] == y);
            }
            assert(r.contains(r[0]));
            if s.contains(y) {
                let k = choose|k: int| 0 <= k < s.len() && s[k] == y;
                if k > 0 {
                    assert(rest[k - 1] == y);
                    assert(rest.contains(y));
                }
            }
        }
    }
}

/// A set of pairs holds exactly the pairs of the list.
pub proof fn lemma_pair_set(s: Seq<(Seq<char>, Seq<char>)>)
    ensures
        forall|y: (Seq<char>, Seq<char>)| #[trigger] pair_set(s).contains(y) <==> s.contains(y),
    decreases s.len(),
{
    if s.len() > 0 {
        let front = s.drop_last();
        lemma_pair_set(front);
        lemma_insert_pair(pair_set(front), s.last());
        assert forall|y: (Seq<char>, Seq<char>)| #[trigger] pair_set(s).contains(y) <==> s.contains(
            y,
        ) by {
            if s.contains(y) {
                let k = choose|k: int| 0 <= k < s.len() && s[k] == y;
                if k < s.len() - 1 {
                    assert(front[k] == y);
                }
            }
            if front.contains(y) {
                let k = choose|k: int| 0 <= k < front.len() && front[k] == y;
                assert(s[k] == y);
            }
            assert(s[s.len() - 1] == s.last());
        }
    } else {
        assert forall|y: (Seq<char>, Seq<char>)| #[trigger] pair_set(s).contains(y) <==> s.contains(
            y,
        ) by {}
    }
}

fn insert_pair_once(list: Vec<(String, String)>, x: (String, String)) -> (r: Vec<(String, String)>)
    ensures
        r.deep_view() == insert_pair(list.deep_view(), (x.0@, x.1@)),
{
    let ghost whole = list.deep_view();
    let ghost p = (x.0@, x.1@);
    let mut out = list;
    let mut i: usize = 0;
    assert(whole.skip(0) =~= whole);
    assert(whole.take(0) + insert_pair(whole, p) =~= insert_pair(whole, p));
    while i < out.len()
        invariant
            i <= out.len(),
            out.deep_view() == whole,
            whole == list.deep_view(),
            p == (x.0@, x.1@),
            insert_pair(whole, p) =~= whole.take(i as int) + insert_pair(
                whole.skip(i as int),
                p,
            ),
        decreases out.len() - i,
    {
        let ghost rest = whole.skip(i as int);
        assert(rest[0] == whole[i as int]);
        assert(whole[i as int] == (out[i as int].0@, out[i as int].1@));
        let same_first = same(out[i].0.as_str(), x.0.as_str());
        if same_first && same(out[i].1.as_str(), x.1.as_str()) {
            assert(whole.take(i as int) + rest =~= whole);
            return out;
        }
        if precedes(x.0.as_str(), out[i].0.as_str()) || (same_first && precedes(
            x.1.as_str(),
            out[i].1.as_str(),
        )) {
            out.insert(i, x);
            assert(out.deep_view() =~= whole.take(i as int) + (seq![p] + rest));
            return out;
        }
        assert(rest.skip(1) =~= whole.skip(i + 1));
        assert(whole.take(i as int) + (seq![rest[0]] + insert_pair(rest.skip(1), p))
            =~= whole.take(i + 1) + insert_pair(rest.skip(1), p));
        i += 1;
    }
    assert(whole.skip(i as int) =~= seq![]);
    assert(whole.take(i as int) =~= whole);
    out.push(x);
    assert(out.deep_view() =~= whole + seq![p]);
    out
}

/// The pairs of a list in order, each once.
pub fn distinct_pairs(list: &Vec<(String, String)>) -> (r: Vec<(String, String)>)
    ensures
        r.deep_view() == pair_set(list.deep_view()),
{
    let mut out: Vec<(String, String)> = Vec::new();
    let mut i: usize = 0;
    while i < list.len()
        invariant
            i <= list.len(),
            out.deep_view() == pair_set(list.deep_view().take(i as int)),
        decreases list.len() - i,
    {
        let ghost step = list.deep_view().take(i + 1);
        assert(step.drop_last() =~= list.deep_view().take(i as int));
        assert(step.last() == (list[i as int].0@, list[i as int].1@));
        out = insert_pair_once(out, (owned(list[i].0.as_str()), owned(list[i].1.as_str())));
        i += 1;
    }
    assert(list.deep_view().take(i as int) =~= list.deep_view());
    out
}

/// A copy of a list of pairs.
pub fn copied_pairs(list: &Vec<(String, String)>) -> (r: Vec<(String, String)>)
    ensures
        r.deep_view() == list.deep_view(),
{
    let mut out: Vec<(String, String)> = Vec::new();
    let mut i: usize = 0;
    while i < list.len()
        invariant
            i <= list.len(),
            out.deep_view() =~= list.deep_view().take(i as int),
        decreases list.len() - i,
    {
        let ghost so_far = out.deep_view();
        out.push((owned(list[i].0.as_str()), owned(list[i].1.as_str())));
        assert(out.deep_view() =~= so_far.push(list.deep_view()[i as int]));
        i += 1;
    }
    assert(list.deep_view().take(i as int) =~= list.deep_view());
    out
}

// ---------------------------------------------------------------------------
// Tables
// ---------------------------------------------------------------------------

pub open spec fn keys<V>(m: Seq<(Seq<char>, V)>) -> Seq<Seq<char>> {
    m.map_values(|e: (Seq<char>, V)| e.0)
}

/// Where `k` is a key of `m`: its place.
pub open spec fn has_key<V>(m: Seq<(Seq<char>, V)>, k: Seq<char>) -> bool {
    exists|i: int| 0 <= i < m.len() && #[trigger] m[i].0 == k
}

/// The value that stands under `k`.
pub open spec fn lookup<V>(m: Seq<(Seq<char>, V)>, k: Seq<char>) -> Option<V> {
    if has_key(m, k) {
        Some(m[choose|i: int| 0 <= i < m.len() && #[trigger] m[i].0 == k].1)
    } else {
        None
    }
}

/// `m` with `v` under `k`, at the key's place in the order.
pub open spec fn put<V>(m: Seq<(Seq<char>, V)>, k: Seq<char>, v: V) -> Seq<(Seq<char>, V)>
    decreases m.len(),
{
    if m.len() == 0 {
        seq![(k, v)]
    } else if m[0].0 == k {
        seq![(k, v)] + m.skip(1)
    } else if before(k, m[0].0) {
        seq![(k, v)] + m
    } else {
        seq![m[0]] + put(m.skip(1), k, v)
    }
}

/// `m` without the entry under `k`.
pub open spec fn without<V>(m: Seq<(Seq<char>, V)>, k: Seq<char>) -> Seq<(Seq<char>, V)>
    decreases m.len(),
{
    if m.len() == 0 {
        m
    } else if m[0].0 == k {
        m.skip(1)
    } else {
        seq![m[0]] + without(m.skip(1), k)
    }
}

/// The keys of a table ascend.
pub open spec fn ordered<V>(m: Seq<(Seq<char>, V)>) -> bool {
    forall|i: int, j: int|
        0 <= i < j < m.len() ==> before((#[trigger] m[i]).0, (#[trigger] m[j]).0)
}

/// Under one key there is one value.
pub proof fn lemma_lookup_at<V>(m: Seq<(Seq<char>, V)>, i: int)
    requires
        ordered(m),
        0 <= i < m.len(),
    ensures
        lookup(m, m[i].0) == Some(m[i].1),
{
    let k = m[i].0;
    let j = choose|j: int| 0 <= j < m.len() && #[trigger] m[j].0 == k;
    lemma_before_irreflexive(k);
    assert(i == j);
}

/// What was put under a key is found there, and every other key keeps its
/// value.
pub proof fn lemma_put<V>(m: Seq<(Seq<char>, V)>, k: Seq<char>, v: V)
    requires
        ordered(m),
    ensures
        ordered(put(m, k, v)),
        lookup(put(m, k, v), k) == Some(v),
        forall|x: Seq<char>| x != k ==> #[trigger] lookup(put(m, k, v), x) == lookup(m, x),
        forall|x: Seq<char>| #[trigger] has_key(put(m, k, v), x) <==> (x == k || has_key(m, x)),
{
    lemma_put_entries(m, k, v);
    let r = put(m, k, v);
    let n = choose|n: int| 0 <= n < r.len() && r[n] == (k, v);
    lemma_lookup_at(r, n);
    assert forall|x: Seq<char>| #[trigger] has_key(r, x) <==> (x == k || has_key(m, x)) by {
        if has_key(r, x) && x != k {
            let i = choose|i: int| 0 <= i < r.len() && #[trigger] r[i].0 == x;
            assert(r.contains(r[i]));
            let j = choose|j: int| 0 <= j < m.len() && m[j] == r[i];
            assert(m[j].0 == x);
        }
        if has_key(m, x) && x != k {
            let i = choose|i: int| 0 <= i < m.len() && #[trigger] m[i].0 == x;
            assert(m.contains(m[i]));
            assert(r.contains(m[i]));
            let j = choose|j: int| 0 <= j < r.len() && r[j] == m[i];
            assert(r[j].0 == x);
        }
        assert(r[n].0 == k);
    }
    assert forall|x: Seq<char>| x != k implies #[trigger] lookup(r, x) == lookup(m, x) by {
        if has_key(m, x) {
            let i = choose|i: int| 0 <= i < m.len() && #[trigger] m[i].0 == x;
            assert(m.contains(m[i]));
            assert(r.contains(m[i]));
            let j = choose|j: int| 0 <= j < r.len() && r[j] == m[i];
            lemma_lookup_at(m, i);
            lemma_lookup_at(r, j);
        }
        assert(has_key(r, x) == has_key(m, x));
    }
}

proof fn lemma_put_entries<V>(m: Seq<(Seq<char>, V)>, k: Seq<char>, v: V)
    requires
        ordered(m),
    ensures
        ordered(put(m, k, v)),
        put(m, k, v).contains((k, v)),
        forall|e: (Seq<char>, V)|
            e.0 != k ==> (#[trigger] put(m, k, v).contains(e) <==> m.contains(e)),
        forall|i: int|
            0 <= i < put(m, k, v).len() ==> (#[trigger] put(m, k, v)[i]).0 == k || m.contains(
                put(m, k, v)[i],
            ),
    decreases m.len(),
{
    let r = put(m, k, v);
    let rest = m.skip(1);
    if m.len() == 0 {
        assert(r[0] == (k, v));
        assert forall|e: (Seq<char>, V)| e.0 != k implies (#[trigger] r.contains(e)
            <==> m.contains(e)) by {}
    } else if m[0].0 == k || before(k, m[0].0) {
        assert(r[0] == (k, v));
        let d: int = if m[0].0 == k {
            0
        } else {
            1
        };
        assert forall|i: int| 1 <= i < r.len() implies #[trigger] r[i] == m[i - d] by {
            if d == 0 {
                assert(r[i] == m.skip(1)[i - 1]);
            }
        }
        assert forall|i: int, j: int| 0 <= i < j < r.len() implies before(
            (#[trigger] r[i]).0,
            (#[trigger] r[j]).0,
        ) by {
            if i == 0 && d == 1 && j > 1 {
                lemma_before_transitive(k, m[0].0, m[j - 1].0);
            }
        }
        assert forall|e: (Seq<char>, V)| e.0 != k implies (#[trigger] r.contains(e)
            <==> m.contains(e)) by {
            if r.contains(e) {
                let i = choose|i: int| 0 <= i < r.len() && r[i] == e;
                assert(m[i - d] == e);
            }
            if m.contains(e) {
                let i = choose|i: int| 0 <= i < m.len() && m[i] == e;
                assert(r[i + d] == e);
            }
        }
        assert forall|i: int| 0 <= i < r.len() implies (#[trigger] r[i]).0 == k || m.contains(
            r[i],
        ) by {
            if i > 0 {
                assert(r[i] == m[i - d]);
            }
        }
    } else {
        let q = put(rest, k, v);
        assert forall|i: int, j: int| 0 <= i < j < rest.len() implies before(
            (#[trigger] rest[i]).0,
            (#[trigger] rest[j]).0,
        ) by {
            assert(rest[i] == m[i + 1]);
            assert(rest[j] == m[j + 1]);
        }
        lemma_put_entries(rest, k, v);
        lemma_before_total(k, m[0].0);
        assert(r =~= seq![m[0]] + q);
        assert forall|i: int, j: int| 0 <= i < j < r.len() implies before(
            (#[trigger] r[i]).0,
            (#[trigger] r[j]).0,
        ) by {
            if i == 0 {
                assert(r[j] == q[j - 1]);
                if q[j - 1].0 != k {
                    assert(rest.contains(q[j - 1]));
                    let n = choose|n: int| 0 <= n < rest.len() && rest[n] == q[j - 1];
                    assert(m[n + 1] == q[j - 1]);
                }
            } else {
                assert(r[i] == q[i - 1]);
                assert(r[j] == q[j - 1]);
            }
        }
        let w = choose|w: int| 0 <= w < q.len() && q[w] == (k, v);
        assert(r[w + 1] == (k, v));
        assert forall|e: (Seq<char>, V)| e.0 != k implies (#[trigger] r.contains(e)
            <==> m.contains(e)) by {
            if r.contains(e) {
                let i = choose|i: int| 0 <= i < r.len() && r[i] == e;
                if i == 0 {
                    assert(m[0] == e);
                } else {
                    assert(q[i - 1] == e);
                    assert(q.contains(e));
                    let n = choose|n: int| 0 <= n < rest.len() && rest[n] == e;
                    assert(m[n + 1] == e);
                }
            }
            if m.contains(e) {
                let i = choose|i: int| 0 <= i < m.len() && m[i] == e;
                if i == 0 {
                    assert(r[0] == e);
                } else {
                    assert(rest[i - 1] == e);
                    assert(rest.contains(e));
                    assert(q.contains(e));
                    let n = choose|n: int| 0 <= n < q.len() && q[n] == e;
                    assert(r[n + 1] == e);
                }
            }
        }
        assert forall|i: int| 0 <= i < r.len() implies (#[trigger] r[i]).0 == k || m.contains(
            r[i],
        ) by {
            if i == 0 {
                assert(r[0] == m[0]);
            } else {
                assert(r[i] == q[i - 1]);
                if q[i - 1].0 != k {
                    assert(rest.contains(q[i - 1]));
                    let n = choose|n: int| 0 <= n < rest.len() && rest[n] == q[i - 1];
                    assert(m[n + 1] == r[i]);
                }
            }
        }
    }
}

/// A table from text to values. Its keys ascend, so each occurs once and a walk
/// through it always takes the same order.
#[derive(Debug)]
pub struct TextMap<T> {
    entries: Vec<(String, T)>,
}

impl<T: DeepView> DeepView for TextMap<T> {
    type V = Seq<(Seq<char>, T::V)>;

    closed spec fn deep_view(&self) -> Seq<(Seq<char>, T::V)> {
        self.entries.deep_view()
    }
}

impl<T> TextMap<T> {
    #[verifier::type_invariant]
    spec fn keys_ascend(self) -> bool {
        forall|i: int, j: int|
            0 <= i < j < self.entries@.len() ==> before(
                (#[trigger] self.entries@[i]).0@,
                (#[trigger] self.entries@[j]).0@,
            )
    }
}

impl<T: DeepView> TextMap<T> {
    proof fn lemma_ordered(self)
        requires
            self.keys_ascend(),
        ensures
            ordered(self.deep_view()),
    {
        let m = self.deep_view();
        assert forall|i: int, j: int| 0 <= i < j < m.len() implies before(
            (#[trigger] m[i]).0,
            (#[trigger] m[j]).0,
        ) by {
            assert(m[i].0 == self.entries@[i].0@);
            assert(m[j].0 == self.entries@[j].0@);
        }
    }

    proof fn lemma_keys_ascend(self)
        requires
            ordered(self.deep_view()),
        ensures
            self.keys_ascend(),
    {
        let m = self.deep_view();
        assert forall|i: int, j: int| 0 <= i < j < self.entries@.len() implies before(
            (#[trigger] self.entries@[i]).0@,
            (#[trigger] self.entries@[j]).0@,
        ) by {
            assert(m[i].0 == self.entries@[i].0@);
            assert(m[j].0 == self.entries@[j].0@);
        }
    }

    fn made(entries: Vec<(String, T)>) -> (r: TextMap<T>)
        requires
            ordered(entries.deep_view()),
        ensures
            r.deep_view() == entries.deep_view(),
    {
        proof {
            (TextMap { entries }).lemma_keys_ascend();
        }
        TextMap { entries }
    }

    pub fn new() -> (r: TextMap<T>)
        ensures
            r.deep_view() == Seq::<(Seq<char>, T::V)>::empty(),
    {
        let entries: Vec<(String, T)> = Vec::new();
        assert(entries.deep_view() =~= seq![]);
        TextMap::made(entries)
    }

    /// How many entries there are; their keys ascend.
    pub fn len(&self) -> (n: usize)
        ensures
            n == self.deep_view().len(),
            ordered(self.deep_view()),
    {
        proof {
            use_type_invariant(self);
            self.lemma_ordered();
        }
        self.entries.len()
    }

    /// The key at a place in the order.
    pub fn key(&self, i: usize) -> (r: &str)
        requires
            i < self.deep_view().len(),
        ensures
            r@ == self.deep_view()[i as int].0,
    {
        self.entries[i].0.as_str()
    }

    /// The value at a place in the order.
    pub fn value(&self, i: usize) -> (r: &T)
        requires
            i < self.deep_view().len(),
        ensures
            r.deep_view() == self.deep_view()[i as int].1,
    {
        &self.entries[i].1
    }

    /// The place of a key.
    pub fn place(&self, k: &str) -> (r: Option<usize>)
        ensures
            match r {
                Some(i) => i < self.deep_view().len() && self.deep_view()[i as int].0 == k@
                    && lookup(self.deep_view(), k@) == Some(self.deep_view()[i as int].1),
                None => !has_key(self.deep_view(), k@),
            },
    {
        proof {
            use_type_invariant(self);
            self.lemma_ordered();
        }
        let mut i: usize = 0;
        while i < self.entries.len()
            invariant
                i <= self.entries.len(),
                ordered(self.deep_view()),
                forall|j: int| 0 <= j < i ==> (#[trigger] self.deep_view()[j]).0 != k@,
            decreases self.entries.len() - i,
        {
            if same(self.entries[i].0.as_str(), k) {
                proof {
                    lemma_lookup_at(self.deep_view(), i as int);
                }
                return Some(i);
            }
            assert(self.deep_view()[i as int].0 != k@);
            i += 1;
        }
        None
    }

    pub fn has(&self, k: &str) -> (r: bool)
        ensures
            r == has_key(self.deep_view(), k@),
    {
        match self.place(k) {
            Some(_) => true,
            None => false,
        }
    }

    /// The value under a key.
    pub fn get(&self, k: &str) -> (r: Option<&T>)
        ensures
            match r {
                Some(v) => lookup(self.deep_view(), k@) == Some(v.deep_view()),
                None => lookup(self.deep_view(), k@) is None,
            },
    {
        match self.place(k) {
            Some(i) => Some(&self.entries[i].1),
            None => None,
        }
    }

    /// The table with `v` under `k`.
    pub fn with(self, k: String, v: T) -> (r: TextMap<T>)
        ensures
            r.deep_view() == put(self.deep_view(), k@, v.deep_view()),
    {
        proof {
            use_type_invariant(&self);
            self.lemma_ordered();
        }
        let mut entries = self.entries;
        let ghost whole = entries.deep_view();
        let ghost key = k@;
        let ghost val = v.deep_view();
        let mut i: usize = 0;
        proof {
            lemma_put(whole, key, val);
        }
        assert(whole.skip(0) =~= whole);
        assert(whole.take(0) + put(whole, key, val) =~= put(whole, key, val));
        while i < entries.len()
            invariant
                i <= entries.len(),
                entries.deep_view() == whole,
                whole == self.deep_view(),
                key == k@,
                val == v.deep_view(),
                ordered(put(whole, key, val)),
                put(whole, key, val) =~= whole.take(i as int) + put(
                    whole.skip(i as int),
                    key,
                    val,
                ),
            decreases entries.len() - i,
        {
            let ghost rest = whole.skip(i as int);
            assert(rest[0] == whole[i as int]);
            assert(whole[i as int].0 == entries[i as int].0@);
            if same(entries[i].0.as_str(), k.as_str()) {
                entries.set(i, (k, v));
                assert(entries.deep_view() =~= whole.take(i as int) + (seq![(key, val)]
                    + rest.skip(1)));
                return TextMap::made(entries);
            }
            if precedes(k.as_str(), entries[i].0.as_str()) {
                entries.insert(i, (k, v));
                assert(entries.deep_view() =~= whole.take(i as int) + (seq![(key, val)] + rest));
                return TextMap::made(entries);
            }
            assert(rest.skip(1) =~= whole.skip(i + 1));
            assert(whole.take(i as int) + (seq![rest[0]] + put(rest.skip(1), key, val))
                =~= whole.take(i + 1) + put(rest.skip(1), key, val));
            i += 1;
        }
        assert(whole.skip(i as int) =~= seq![]);
        assert(whole.take(i as int) =~= whole);
        entries.push((k, v));
        assert(entries.deep_view() =~= whole + seq![(key, val)]);
        TextMap::made(entries)
    }

    /// The table with one more entry behind all others.
    pub fn followed_by(self, k: String, v: T) -> (r: TextMap<T>)
        requires
            self.deep_view().len() == 0 || before(self.deep_view().last().0, k@),
        ensures
            r.deep_view() == self.deep_view().push((k@, v.deep_view())),
    {
        proof {
            use_type_invariant(&self);
            self.lemma_ordered();
        }
        let ghost whole = self.deep_view();
        let ghost grown = whole.push((k@, v.deep_view()));
        let mut entries = self.entries;
        entries.push((k, v));
        assert(entries.deep_view() =~= grown);
        assert forall|i: int, j: int| 0 <= i < j < grown.len() implies before(
            (#[trigger] grown[i]).0,
            (#[trigger] grown[j]).0,
        ) by {
            if j == whole.len() && i < whole.len() - 1 {
                lemma_before_transitive(whole[i].0, whole.last().0, grown[j].0);
            }
        }
        TextMap::made(entries)
    }

    /// The table without the entry under `k`.
    pub fn dropping(self, k: &str) -> (r: TextMap<T>)
        ensures
            r.deep_view() == without(self.deep_view(), k@),
    {
        proof {
            use_type_invariant(&self);
            self.lemma_ordered();
        }
        let mut entries = self.entries;
        let ghost whole = entries.deep_view();
        let mut i: usize = 0;
        assert(whole.skip(0) =~= whole);
        assert(whole.take(0) + without(whole, k@) =~= without(whole, k@));
        while i < entries.len()
            invariant
                i <= entries.len(),
                entries.deep_view() == whole,
                whole == self.deep_view(),
                ordered(whole),
                without(whole, k@) =~= whole.take(i as int) + without(whole.skip(i as int), k@),
            decreases entries.len() - i,
        {
            let ghost rest = whole.skip(i as int);
            assert(rest[0] == whole[i as int]);
            assert(whole[i as int].0 == entries[i as int].0@);
            if same(entries[i].0.as_str(), k) {
                let _ = entries.remove(i);
                let ghost left = entries.deep_view();
                assert(left =~= whole.take(i as int) + rest.skip(1));
                assert forall|a: int, b: int| 0 <= a < b < left.len() implies before(
                    (#[trigger] left[a]).0,
                    (#[trigger] left[b]).0,
                ) by {
                    let x = if a < i {
                        a
                    } else {
                        a + 1
                    };
                    let y = if b < i {
                        b
                    } else {
                        b + 1
                    };
                    assert(left[a] == whole[x]);
                    assert(left[b] == whole[y]);
                }
                return TextMap::made(entries);
            }
            assert(rest.skip(1) =~= whole.skip(i + 1));
            assert(whole.take(i as int) + (seq![rest[0]] + without(rest.skip(1), k@))
                =~= whole.take(i + 1) + without(rest.skip(1), k@));
            i += 1;
        }
        assert(whole.skip(i as int) =~= seq![]);
        assert(whole.take(i as int) =~= whole);
        TextMap::made(entries)
    }
}

} // verus!
