//! Chains of aliases: one that ends is followed to its end, however the number
//! of steps is bounded.
use vstd::prelude::*;
use crate::model::IndexView;
use crate::mutation_policy::{canonical_name, resolved};
use crate::query::{alias_from, answered, SurroundingsView};
use crate::structural::GraphView;
use crate::table::{has_key, lemma_lookup_at, lookup, ordered};
use crate::text::trim;

verus! {

/// How many steps a chain takes to its end, where that is at most `fuel`.
pub open spec fn walk(next: spec_fn(int) -> Option<int>, i: int, fuel: nat) -> Option<nat>
    decreases fuel,
{
    match next(i) {
        None => Some(0),
        Some(j) => if fuel == 0 {
            None
        } else {
            match walk(next, j, (fuel - 1) as nat) {
                Some(n) => Some(n + 1),
                None => None,
            }
        },
    }
}

/// Where a chain is after some steps.
pub open spec fn after_steps(next: spec_fn(int) -> Option<int>, i: int, k: nat) -> int
    decreases k,
{
    if k == 0 {
        i
    } else {
        match next(i) {
            Some(j) => after_steps(next, j, (k - 1) as nat),
            None => i,
        }
    }
}

/// A chain stays among the first `m` places.
pub open spec fn stays_below(next: spec_fn(int) -> Option<int>, m: int) -> bool {
    forall|i: int| 0 <= i < m ==> (#[trigger] next(i) matches Some(j) ==> 0 <= j < m)
}

proof fn lemma_walk_stable(next: spec_fn(int) -> Option<int>, i: int, fuel: nat, other: nat)
    requires
        walk(next, i, fuel) matches Some(n) && n <= other,
    ensures
        walk(next, i, other) == walk(next, i, fuel),
        walk(next, i, fuel)->Some_0 <= fuel,
    decreases fuel,
{
    if let Some(j) = next(i) {
        assert(fuel > 0);
        let n = walk(next, j, (fuel - 1) as nat)->Some_0;
        assert(walk(next, i, fuel) == Some(n + 1));
        lemma_walk_stable(next, j, (fuel - 1) as nat, (other - 1) as nat);
    }
}

proof fn lemma_after_steps(next: spec_fn(int) -> Option<int>, i: int, fuel: nat, k: nat, m: int)
    requires
        walk(next, i, fuel) matches Some(n) && k <= n,
        stays_below(next, m),
        0 <= i < m,
    ensures
        0 <= after_steps(next, i, k) < m,
        walk(next, after_steps(next, i, k), fuel) == Some(
            (walk(next, i, fuel)->Some_0 - k) as nat,
        ),
    decreases k,
{
    if k > 0 {
        let j = next(i)->Some_0;
        assert(next(i) is Some);
        let n = walk(next, j, (fuel - 1) as nat)->Some_0;
        assert(walk(next, i, fuel) == Some(n + 1));
        lemma_walk_stable(next, j, (fuel - 1) as nat, n);
        lemma_walk_stable(next, j, (fuel - 1) as nat, fuel);
        lemma_after_steps(next, j, fuel, (k - 1) as nat, m);
    }
}

/// A chain that ends visits no place twice, so it takes fewer steps than there
/// are places.
proof fn lemma_walk_short(next: spec_fn(int) -> Option<int>, i: int, fuel: nat, m: int)
    requires
        walk(next, i, fuel) is Some,
        stays_below(next, m),
        0 <= i < m,
    ensures
        walk(next, i, fuel)->Some_0 < m,
{
    let n = walk(next, i, fuel)->Some_0;
    let visited = Seq::new(n + 1, |k: int| after_steps(next, i, k as nat));
    assert forall|a: int, b: int| 0 <= a < b < visited.len() implies visited[a] != visited[b] by {
        lemma_after_steps(next, i, fuel, a as nat, m);
        lemma_after_steps(next, i, fuel, b as nat, m);
    }
    assert(visited.no_duplicates());
    visited.unique_seq_to_set();
    vstd::set_lib::lemma_int_range(0, m);
    assert forall|x: int| visited.to_set().contains(x) implies vstd::set_lib::set_int_range(
        0,
        m,
    ).contains(x) by {
        let a = choose|a: int| 0 <= a < visited.len() && visited[a] == x;
        lemma_after_steps(next, i, fuel, a as nat, m);
    }
    vstd::set_lib::lemma_len_subset(visited.to_set(), vstd::set_lib::set_int_range(0, m));
}

// ---------------------------------------------------------------------------
// Questions
// ---------------------------------------------------------------------------

/// The alias that the target of an alias leads on to.
pub open spec fn onward(idx: IndexView) -> spec_fn(int) -> Option<int> {
    |i: int|
        if has_key(idx.concepts, idx.aliases[i].1) {
            None
        } else {
            alias_from(idx.aliases, trim(idx.aliases[i].1), 0)
        }
}

proof fn lemma_alias_from(aliases: Seq<(Seq<char>, Seq<char>)>, term: Seq<char>, i: int)
    requires
        0 <= i,
    ensures
        alias_from(aliases, term, i) matches Some(j) ==> i <= j < aliases.len(),
    decreases aliases.len() - i,
{
    if i < aliases.len() {
        lemma_alias_from(aliases, term, i + 1);
    }
}

proof fn lemma_enough_steps(
    idx: IndexView,
    graph: GraphView,
    around: SurroundingsView,
    term: Seq<char>,
    i: int,
    fuel: nat,
    a: nat,
    b: nat,
)
    requires
        alias_from(idx.aliases, trim(term), 0) == Some(i),
        walk(onward(idx), i, fuel) matches Some(n) && n < a && n < b,
    ensures
        answered(idx, graph, around, term, a) == answered(idx, graph, around, term, b),
    decreases fuel,
{
    let target = idx.aliases[i].1;
    if !has_key(idx.concepts, target) {
        match alias_from(idx.aliases, trim(target), 0) {
            Some(j) => {
                assert(onward(idx)(i) == Some(j));
                assert(fuel > 0);
                let n = walk(onward(idx), j, (fuel - 1) as nat)->Some_0;
                assert(walk(onward(idx), i, fuel) == Some(n + 1));
                lemma_enough_steps(
                    idx,
                    graph,
                    around,
                    target,
                    j,
                    (fuel - 1) as nat,
                    (a - 1) as nat,
                    (b - 1) as nat,
                );
            },
            None => {
                assert(onward(idx)(i) is None);
                assert(answered(idx, graph, around, target, (a - 1) as nat) == answered(
                    idx,
                    graph,
                    around,
                    target,
                    (b - 1) as nat,
                ));
            },
        }
    }
}

/// A question is followed through every chain of aliases that ends: no greater
/// number of steps would change the answer.
pub proof fn law_alias_chains_are_followed(
    idx: IndexView,
    graph: GraphView,
    around: SurroundingsView,
    term: Seq<char>,
    i: int,
    fuel: nat,
    steps: nat,
)
    requires
        alias_from(idx.aliases, trim(term), 0) == Some(i),
        walk(onward(idx), i, fuel) is Some,
        steps >= idx.aliases.len(),
    ensures
        answered(idx, graph, around, term, steps) == answered(
            idx,
            graph,
            around,
            term,
            idx.aliases.len(),
        ),
{
    let m = idx.aliases.len() as int;
    lemma_alias_from(idx.aliases, trim(term), 0);
    assert(stays_below(onward(idx), m)) by {
        assert forall|k: int| 0 <= k < m implies (#[trigger] onward(idx)(k) matches Some(j) ==> 0
            <= j < m) by {
            lemma_alias_from(idx.aliases, trim(idx.aliases[k].1), 0);
        }
    }
    lemma_walk_short(onward(idx), i, fuel, m);
    lemma_enough_steps(idx, graph, around, term, i, fuel, steps, idx.aliases.len());
}

// ---------------------------------------------------------------------------
// Names
// ---------------------------------------------------------------------------

/// The alias that bears the name which another alias stands for.
pub open spec fn namesake(aliases: Seq<(Seq<char>, Seq<char>)>) -> spec_fn(int) -> Option<int> {
    |i: int|
        if has_key(aliases, aliases[i].1) {
            Some(choose|j: int| 0 <= j < aliases.len() && #[trigger] aliases[j].0 == aliases[i].1)
        } else {
            None
        }
}

proof fn lemma_resolved_walk(
    aliases: Seq<(Seq<char>, Seq<char>)>,
    name: Seq<char>,
    i: int,
    steps: nat,
)
    requires
        ordered(aliases),
        0 <= i < aliases.len(),
        resolved(aliases, name, aliases[i].0, steps) is Ok,
    ensures
        walk(namesake(aliases), i, steps) matches Some(n) && n < steps,
    decreases steps,
{
    lemma_lookup_at(aliases, i);
    let next = aliases[i].1;
    assert(steps > 0);
    assert(resolved(aliases, name, next, (steps - 1) as nat) is Ok);
    if has_key(aliases, next) {
        let j = namesake(aliases)(i)->Some_0;
        assert(0 <= j < aliases.len() && aliases[j].0 == next);
        lemma_resolved_walk(aliases, name, j, (steps - 1) as nat);
    }
}

proof fn lemma_resolved_stable(
    aliases: Seq<(Seq<char>, Seq<char>)>,
    name: Seq<char>,
    i: int,
    steps: nat,
    other: nat,
)
    requires
        ordered(aliases),
        0 <= i < aliases.len(),
        resolved(aliases, name, aliases[i].0, steps) is Ok,
        walk(namesake(aliases), i, steps) matches Some(n) && n < other,
    ensures
        resolved(aliases, name, aliases[i].0, other) == resolved(
            aliases,
            name,
            aliases[i].0,
            steps,
        ),
    decreases steps,
{
    lemma_lookup_at(aliases, i);
    lemma_resolved_walk(aliases, name, i, steps);
    let next = aliases[i].1;
    assert(steps > 0);
    if has_key(aliases, next) {
        let j = namesake(aliases)(i)->Some_0;
        assert(0 <= j < aliases.len() && aliases[j].0 == next);
        lemma_resolved_walk(aliases, name, j, (steps - 1) as nat);
        let n = walk(namesake(aliases), j, (steps - 1) as nat)->Some_0;
        assert(walk(namesake(aliases), i, steps) == Some(n + 1));
        lemma_resolved_stable(aliases, name, j, (steps - 1) as nat, (other - 1) as nat);
    } else {
        assert(lookup(aliases, next) is None);
    }
}

/// Only a circle fails as one: a name whose chain of aliases ends after any
/// number of steps stands for what that chain ends in.
pub proof fn law_ending_chains_resolve(
    aliases: Seq<(Seq<char>, Seq<char>)>,
    name: Seq<char>,
    steps: nat,
)
    requires
        ordered(aliases),
        resolved(aliases, name, name, steps) is Ok,
    ensures
        canonical_name(aliases, name) == resolved(aliases, name, name, steps),
{
    if has_key(aliases, name) {
        let i = choose|i: int| 0 <= i < aliases.len() && #[trigger] aliases[i].0 == name;
        let m = aliases.len() as int;
        lemma_resolved_walk(aliases, name, i, steps);
        assert(stays_below(namesake(aliases), m)) by {
            assert forall|k: int| 0 <= k < m implies (#[trigger] namesake(aliases)(k) matches Some(j)
                ==> 0 <= j < m) by {
                if has_key(aliases, aliases[k].1) {
                    let j = namesake(aliases)(k)->Some_0;
                    assert(0 <= j < aliases.len() && aliases[j].0 == aliases[k].1);
                }
            }
        }
        lemma_walk_short(namesake(aliases), i, steps, m);
        lemma_resolved_stable(aliases, name, i, steps, aliases.len());
    }
}

/// The name that a chain of aliases is at after some steps, where it goes on for
/// so many.
pub open spec fn follow(aliases: Seq<(Seq<char>, Seq<char>)>, name: Seq<char>, k: nat) -> Option<
    Seq<char>,
>
    decreases k,
{
    if k == 0 {
        Some(name)
    } else {
        match follow(aliases, name, (k - 1) as nat) {
            Some(n) => lookup(aliases, n),
            None => None,
        }
    }
}

/// A chain comes to one name twice.
pub open spec fn goes_in_a_circle(aliases: Seq<(Seq<char>, Seq<char>)>, name: Seq<char>) -> bool {
    exists|i: nat, j: nat|
        i < j && #[trigger] follow(aliases, name, i) is Some && follow(aliases, name, i)
            == #[trigger] follow(aliases, name, j)
}

/// A chain comes to a target that is empty but for white space.
pub open spec fn meets_a_blank(aliases: Seq<(Seq<char>, Seq<char>)>, name: Seq<char>) -> bool {
    exists|k: nat|
        k > 0 && (#[trigger] follow(aliases, name, k) matches Some(t) && trim(t).len() == 0)
}

/// What a name resolves to lies on its chain, ends it, and no target before it
/// is blank; a name that does not resolve comes to a blank or runs out of steps.
proof fn lemma_resolved_follow(
    aliases: Seq<(Seq<char>, Seq<char>)>,
    name: Seq<char>,
    k: nat,
    steps: nat,
)
    requires
        follow(aliases, name, k) is Some,
    ensures
        match resolved(aliases, name, follow(aliases, name, k)->0, steps) {
            Ok(c) => exists|m: nat|
                k <= m && #[trigger] follow(aliases, name, m) == Some(c) && lookup(aliases, c) is None
                    && forall|j: nat|
                    k < j <= m ==> (#[trigger] follow(aliases, name, j) matches Some(t) && trim(
                        t,
                    ).len() > 0),
            Err(_) => {
                ||| meets_a_blank(aliases, name)
                ||| forall|j: nat|
                    k <= j <= k + steps ==> (#[trigger] follow(aliases, name, j) matches Some(n)
                        && lookup(aliases, n) is Some)
            },
        },
    decreases steps,
{
    let current = follow(aliases, name, k)->0;
    match lookup(aliases, current) {
        None => {
            assert(follow(aliases, name, k) == Some(current));
        },
        Some(next) => {
            let on = (k + 1) as nat;
            assert(follow(aliases, name, on) == Some(next));
            if steps == 0 {
                assert forall|j: nat| k <= j <= k + steps implies (#[trigger] follow(
                    aliases,
                    name,
                    j,
                ) matches Some(n) && lookup(aliases, n) is Some) by {
                    assert(j == k);
                }
            } else if trim(next).len() > 0 {
                lemma_resolved_follow(aliases, name, on, (steps - 1) as nat);
                match resolved(aliases, name, next, (steps - 1) as nat) {
                    Ok(c) => {
                        let m = choose|m: nat|
                            on <= m && #[trigger] follow(aliases, name, m) == Some(c) && lookup(
                                aliases,
                                c,
                            ) is None && forall|j: nat|
                                on < j <= m ==> (#[trigger] follow(aliases, name, j) matches Some(t)
                                    && trim(t).len() > 0);
                        assert forall|j: nat| k < j <= m implies (#[trigger] follow(
                            aliases,
                            name,
                            j,
                        ) matches Some(t) && trim(t).len() > 0) by {
                            if j == on {
                            } else {
                                assert(on < j <= m);
                            }
                        }
                        assert(follow(aliases, name, m) == Some(c));
                    },
                    Err(_) => {
                        if !meets_a_blank(aliases, name) {
                            assert forall|j: nat| k <= j <= k + steps implies (#[trigger] follow(
                                aliases,
                                name,
                                j,
                            ) matches Some(n) && lookup(aliases, n) is Some) by {
                                if j > k {
                                    assert(on <= j <= on + (steps - 1));
                                }
                            }
                        }
                    },
                }
            }
        },
    }
}

proof fn lemma_follow_ends(
    aliases: Seq<(Seq<char>, Seq<char>)>,
    name: Seq<char>,
    m: nat,
    k: nat,
)
    requires
        follow(aliases, name, m) matches Some(c) && lookup(aliases, c) is None,
        k > m,
    ensures
        follow(aliases, name, k) is None,
    decreases k,
{
    if k > m + 1 {
        lemma_follow_ends(aliases, name, m, (k - 1) as nat);
    }
}

proof fn lemma_follow_shift(
    aliases: Seq<(Seq<char>, Seq<char>)>,
    name: Seq<char>,
    i: nat,
    j: nat,
    t: nat,
)
    requires
        follow(aliases, name, i) == follow(aliases, name, j),
    ensures
        follow(aliases, name, i + t) == follow(aliases, name, j + t),
    decreases t,
{
    if t > 0 {
        lemma_follow_shift(aliases, name, i, j, (t - 1) as nat);
    }
}

/// More names than there are aliases cannot all be names of aliases unless one
/// of them comes twice.
proof fn lemma_too_many_names(aliases: Seq<(Seq<char>, Seq<char>)>, name: Seq<char>)
    requires
        forall|j: nat|
            j <= aliases.len() ==> (#[trigger] follow(aliases, name, j) matches Some(n) && lookup(
                aliases,
                n,
            ) is Some),
    ensures
        goes_in_a_circle(aliases, name),
{
    let m = aliases.len() as int;
    let place = |n: Seq<char>| choose|i: int| 0 <= i < m && #[trigger] aliases[i].0 == n;
    let places = Seq::new((m + 1) as nat, |k: int| place(follow(aliases, name, k as nat)->0));
    assert forall|k: int| 0 <= k <= m implies 0 <= #[trigger] places[k] < m && aliases[places[k]].0
        == follow(aliases, name, k as nat)->0 by {
        let n = follow(aliases, name, k as nat)->0;
        assert(has_key(aliases, n));
    }
    if !goes_in_a_circle(aliases, name) {
        assert forall|a: int, b: int| 0 <= a < b < places.len() implies places[a] != places[b] by {
            assert(follow(aliases, name, a as nat) != follow(aliases, name, b as nat));
        }
        assert(places.no_duplicates());
        places.unique_seq_to_set();
        vstd::set_lib::lemma_int_range(0, m);
        assert forall|x: int| places.to_set().contains(x) implies vstd::set_lib::set_int_range(
            0,
            m,
        ).contains(x) by {
            let a = choose|a: int| 0 <= a < places.len() && places[a] == x;
        }
        vstd::set_lib::lemma_len_subset(places.to_set(), vstd::set_lib::set_int_range(0, m));
    }
}

/// A name fails to resolve exactly where its chain of aliases goes in a circle or
/// comes to a blank target. Any other name resolves to the end of its chain,
/// which is no alias and so its own canonical name; a name that is no alias
/// stays as it is.
pub proof fn law_canonical_names_end_chains(aliases: Seq<(Seq<char>, Seq<char>)>, name: Seq<char>)
    ensures
        canonical_name(aliases, name) is Err <==> goes_in_a_circle(aliases, name) || meets_a_blank(
            aliases,
            name,
        ),
        canonical_name(aliases, name) matches Ok(c) ==> {
            &&& exists|m: nat| #[trigger] follow(aliases, name, m) == Some(c)
            &&& lookup(aliases, c) is None
            &&& canonical_name(aliases, c) == Ok::<Seq<char>, Seq<char>>(c)
        },
        lookup(aliases, name) is None ==> canonical_name(aliases, name) == Ok::<
            Seq<char>,
            Seq<char>,
        >(name),
{
    assert(follow(aliases, name, 0) == Some(name));
    lemma_resolved_follow(aliases, name, 0, aliases.len());
    match canonical_name(aliases, name) {
        Ok(c) => {
            let m = choose|m: nat|
                0 <= m && #[trigger] follow(aliases, name, m) == Some(c) && lookup(aliases, c) is None
                    && forall|j: nat|
                    0 < j <= m ==> (#[trigger] follow(aliases, name, j) matches Some(t) && trim(
                        t,
                    ).len() > 0);
            if goes_in_a_circle(aliases, name) {
                let (i, j) = choose|i: nat, j: nat|
                    i < j && #[trigger] follow(aliases, name, i) is Some && follow(aliases, name, i)
                        == #[trigger] follow(aliases, name, j);
                if i > m {
                    lemma_follow_ends(aliases, name, m, i);
                } else {
                    lemma_follow_shift(aliases, name, i, j, (m - i) as nat);
                    lemma_follow_ends(aliases, name, m, (j + (m - i)) as nat);
                }
            }
            if meets_a_blank(aliases, name) {
                let k = choose|k: nat|
                    k > 0 && (#[trigger] follow(aliases, name, k) matches Some(t) && trim(t).len()
                        == 0);
                if k > m {
                    lemma_follow_ends(aliases, name, m, k);
                } else {
                    assert(0 < k <= m);
                }
            }
        },
        Err(_) => {
            if !meets_a_blank(aliases, name) {
                lemma_too_many_names(aliases, name);
            }
        },
    }
}

} // verus!
