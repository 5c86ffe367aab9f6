//! A stable sort for types that say which of two values leads.
use vstd::prelude::*;

verus! {

/// A type with a rule for which of two values comes first; where neither leads,
/// they keep the order in which they came.
pub trait Ranked: DeepView + Sized {
    spec fn leads(a: Self::V, b: Self::V) -> bool;

    fn goes_before(&self, other: &Self) -> (r: bool)
        ensures
            r == Self::leads(self.deep_view(), other.deep_view()),
    ;
}

/// A list with `x` put behind everything that it does not lead.
pub open spec fn insert_stable<T: Ranked>(s: Seq<T::V>, x: T::V) -> Seq<T::V>
    decreases s.len(),
{
    if s.len() == 0 || !T::leads(x, s.last()) {
        s.push(x)
    } else {
        insert_stable::<T>(s.drop_last(), x).push(s.last())
    }
}

/// A list in order of rank, equals as they came.
pub open spec fn stable_sort<T: Ranked>(s: Seq<T::V>) -> Seq<T::V>
    decreases s.len(),
{
    if s.len() == 0 {
        seq![]
    } else {
        insert_stable::<T>(stable_sort::<T>(s.drop_last()), s.last())
    }
}

fn insert_ranked<T: Ranked>(list: &mut Vec<T>, x: T)
    ensures
        final(list).deep_view() == insert_stable::<T>(old(list).deep_view(), x.deep_view()),
{
    let ghost all = list.deep_view();
    let ghost xv = x.deep_view();
    let mut i: usize = list.len();
    assert(all.take(i as int) =~= all);
    assert(insert_stable::<T>(all, xv) =~= insert_stable::<T>(all.take(i as int), xv) + all.skip(
        i as int,
    ));
    while i > 0 && x.goes_before(&list[i - 1])
        invariant
            i <= list.len(),
            all == list.deep_view(),
            xv == x.deep_view(),
            insert_stable::<T>(all, xv) =~= insert_stable::<T>(all.take(i as int), xv) + all.skip(
                i as int,
            ),
        decreases i,
    {
        proof {
            let head = all.take(i as int);
            assert(head.last() == list[i - 1].deep_view());
            assert(head.drop_last() =~= all.take(i - 1));
            assert(all.skip(i - 1) =~= seq![all[i - 1]] + all.skip(i as int));
        }
        i -= 1;
    }
    proof {
        let head = all.take(i as int);
        if i > 0 {
            assert(head.last() == list[i - 1].deep_view());
        }
        assert(insert_stable::<T>(head, xv) == head.push(xv));
    }
    list.insert(i, x);
    assert(list.deep_view() =~= all.take(i as int).push(xv) + all.skip(i as int));
}

/// Sort a list by rank; values of equal rank keep their order.
pub fn in_order<T: Ranked>(list: Vec<T>) -> (r: Vec<T>)
    ensures
        r.deep_view() == stable_sort::<T>(list.deep_view()),
{
    let ghost all = list.deep_view();
    let mut rest = list;
    let mut out: Vec<T> = Vec::new();
    let ghost mut n: int = 0;
    assert(out.deep_view() =~= stable_sort::<T>(all.take(0)));
    assert(rest.deep_view() =~= all.skip(0));
    while rest.len() > 0
        invariant
            0 <= n <= all.len(),
            rest.deep_view() =~= all.skip(n),
            out.deep_view() == stable_sort::<T>(all.take(n)),
        decreases rest.len(),
    {
        let ghost before = rest.deep_view();
        let x = rest.remove(0);
        proof {
            assert(before.len() > 0);
            assert(before == all.skip(n));
            assert(before[0] == x.deep_view());
            assert(all.skip(n)[0] == all[n]);
            assert(rest.deep_view() =~= before.skip(1));
            let step = all.take(n + 1);
            assert(step.drop_last() =~= all.take(n));
            assert(step.last() == all[n]);
            n = n + 1;
        }
        insert_ranked(&mut out, x);
    }
    assert(all.take(n) =~= all);
    out
}

proof fn lemma_insert_keeps<T: Ranked>(s: Seq<T::V>, x: T::V)
    ensures
        insert_stable::<T>(s, x).to_multiset() =~= s.push(x).to_multiset(),
    decreases s.len(),
{
    broadcast use vstd::seq_lib::group_to_multiset_ensures;

    if s.len() > 0 && T::leads(x, s.last()) {
        lemma_insert_keeps::<T>(s.drop_last(), x);
        assert(s =~= s.drop_last().push(s.last()));
    }
}

/// Sorting moves values about: none is lost, none is added.
pub proof fn law_sorting_keeps_everything<T: Ranked>(s: Seq<T::V>)
    ensures
        stable_sort::<T>(s).to_multiset() == s.to_multiset(),
    decreases s.len(),
{
    broadcast use vstd::seq_lib::group_to_multiset_ensures;

    if s.len() > 0 {
        law_sorting_keeps_everything::<T>(s.drop_last());
        lemma_insert_keeps::<T>(stable_sort::<T>(s.drop_last()), s.last());
        assert(s =~= s.drop_last().push(s.last()));
    } else {
        assert(stable_sort::<T>(s) =~= s);
    }
}

/// What stands in a sorted list stood in the list, which was as long.
pub proof fn lemma_sorted_member<T: Ranked>(s: Seq<T::V>, i: int)
    requires
        0 <= i < stable_sort::<T>(s).len(),
    ensures
        stable_sort::<T>(s).len() == s.len(),
        s.contains(stable_sort::<T>(s)[i]),
{
    broadcast use vstd::seq_lib::group_to_multiset_ensures;

    law_sorting_keeps_everything::<T>(s);
    let r = stable_sort::<T>(s);
    assert(r.to_multiset().len() == s.to_multiset().len());
    assert(r.contains(r[i]));
    assert(s.to_multiset().count(r[i]) > 0);
}

/// What stood in a list stands in it when it is sorted.
pub proof fn lemma_member_sorted<T: Ranked>(s: Seq<T::V>, i: int)
    requires
        0 <= i < s.len(),
    ensures
        stable_sort::<T>(s).contains(s[i]),
{
    broadcast use vstd::seq_lib::group_to_multiset_ensures;

    law_sorting_keeps_everything::<T>(s);
    assert(s.contains(s[i]));
    assert(s.to_multiset().count(s[i]) > 0);
}

/// Leading is a strict order in which values that neither lead nor follow one
/// another are alike.
pub open spec fn is_ranking<T: Ranked>() -> bool {
    &&& forall|a: T::V, b: T::V| #[trigger] T::leads(a, b) ==> !T::leads(b, a)
    &&& forall|a: T::V, b: T::V, c: T::V|
        !(#[trigger] T::leads(b, a)) && !(#[trigger] T::leads(c, b)) ==> !T::leads(c, a)
}

/// Nothing stands behind what it leads.
pub open spec fn is_in_order<T: Ranked>(s: Seq<T::V>) -> bool {
    forall|i: int, j: int| 0 <= i < j < s.len() ==> !T::leads(#[trigger] s[j], #[trigger] s[i])
}

proof fn lemma_inserted_from<T: Ranked>(s: Seq<T::V>, x: T::V, i: int)
    requires
        0 <= i < insert_stable::<T>(s, x).len(),
    ensures
        insert_stable::<T>(s, x).len() == s.len() + 1,
        insert_stable::<T>(s, x)[i] == x || s.contains(insert_stable::<T>(s, x)[i]),
    decreases s.len(),
{
    let r = insert_stable::<T>(s, x);
    if s.len() == 0 || !T::leads(x, s.last()) {
        if i < s.len() {
            assert(s[i] == r[i]);
        }
    } else {
        let front = insert_stable::<T>(s.drop_last(), x);
        lemma_inserted_from::<T>(s.drop_last(), x, 0);
        if i < front.len() {
            lemma_inserted_from::<T>(s.drop_last(), x, i);
            if front[i] != x {
                let k = choose|k: int| 0 <= k < s.drop_last().len() && s.drop_last()[k] == front[i];
                assert(s[k] == r[i]);
            }
        } else {
            assert(s[s.len() - 1] == r[i]);
        }
    }
}

proof fn lemma_insert_in_order<T: Ranked>(s: Seq<T::V>, x: T::V)
    requires
        is_ranking::<T>(),
        is_in_order::<T>(s),
    ensures
        is_in_order::<T>(insert_stable::<T>(s, x)),
    decreases s.len(),
{
    let r = insert_stable::<T>(s, x);
    if s.len() == 0 || !T::leads(x, s.last()) {
        assert forall|i: int, j: int| 0 <= i < j < r.len() implies !T::leads(
            #[trigger] r[j],
            #[trigger] r[i],
        ) by {
            if j < s.len() {
                assert(!T::leads(s[j], s[i]));
            } else if i < s.len() - 1 {
                assert(!T::leads(s[s.len() - 1], s[i]));
            }
        }
    } else {
        let front = insert_stable::<T>(s.drop_last(), x);
        assert forall|i: int, j: int| 0 <= i < j < s.drop_last().len() implies !T::leads(
            #[trigger] s.drop_last()[j],
            #[trigger] s.drop_last()[i],
        ) by {
            assert(!T::leads(s[j], s[i]));
        }
        lemma_insert_in_order::<T>(s.drop_last(), x);
        assert forall|i: int, j: int| 0 <= i < j < r.len() implies !T::leads(
            #[trigger] r[j],
            #[trigger] r[i],
        ) by {
            if j < front.len() {
                assert(!T::leads(front[j], front[i]));
            } else {
                lemma_inserted_from::<T>(s.drop_last(), x, i);
                if front[i] != x {
                    let k = choose|k: int|
                        0 <= k < s.drop_last().len() && s.drop_last()[k] == front[i];
                    assert(!T::leads(s[s.len() - 1], s[k]));
                }
            }
        }
    }
}

/// What was sorted is in order: nothing stands behind what it leads.
pub proof fn law_sorting_orders<T: Ranked>(s: Seq<T::V>)
    requires
        is_ranking::<T>(),
    ensures
        is_in_order::<T>(stable_sort::<T>(s)),
    decreases s.len(),
{
    if s.len() > 0 {
        law_sorting_orders::<T>(s.drop_last());
        lemma_insert_in_order::<T>(stable_sort::<T>(s.drop_last()), s.last());
    }
}

} // verus!
