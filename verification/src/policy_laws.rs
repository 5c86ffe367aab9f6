//! Which decisions count, what they speak of and what they authorise.
use vstd::prelude::*;
use crate::model::DecisionStatus;
use crate::mutation_policy::{
    alias_fault, all_texts, authorized, by_id, canonical_name, declared_records, each_grant,
    each_spoken_of, fault_from, grants, has_blank, identities, is_supplied, last_place,
    linked_targets, optional_text, own_part, record_in, records_in, resolved, speaks_of, status_in,
    strict_texts, written_records, AuthorizationView,
};
use crate::query::lemma_kept_by_filter_map;
use crate::table::{lemma_lookup_at, lemma_put, lemma_sorted_set, lookup, ordered};
use crate::text::{contains, occurs_at, trim};
use crate::tree::{field, TreeView};

verus! {

// ---------------------------------------------------------------------------
// Records
// ---------------------------------------------------------------------------

/// A record without a status is active, and one with a status is what the word
/// says; a word that is none of the three spoils the record.
pub proof fn law_words_of_a_status(s: Seq<char>)
    ensures
        status_in(None) == Some(DecisionStatus::Active),
        s == "active"@ ==> status_in(Some(TreeView::Text(s))) == Some(DecisionStatus::Active),
        s == "superseded"@ ==> status_in(Some(TreeView::Text(s))) == Some(
            DecisionStatus::Superseded,
        ),
        s == "retired"@ ==> status_in(Some(TreeView::Text(s))) == Some(DecisionStatus::Retired),
        s != "active"@ && s != "superseded"@ && s != "retired"@ ==> status_in(
            Some(TreeView::Text(s)),
        ) is None,
        forall|b: bool| #[trigger] status_in(Some(TreeView::Flag(b))) is None,
        forall|n: Seq<char>| #[trigger] status_in(Some(TreeView::Number(n))) is None,
{
    reveal_strlit("active");
    reveal_strlit("superseded");
    reveal_strlit("retired");
    assert("active"@.len() == 6 && "superseded"@.len() == 10 && "retired"@.len() == 7);
}

proof fn lemma_all_texts(items: Seq<TreeView>)
    ensures
        all_texts(items) is Some <==> forall|i: int|
            0 <= i < items.len() ==> (#[trigger] items[i]) is Text,
        all_texts(items) matches Some(r) ==> r.len() == items.len() && forall|i: int|
            0 <= i < items.len() ==> #[trigger] items[i] == TreeView::Text(r[i]),
    decreases items.len(),
{
    if items.len() > 0 {
        let front = items.drop_last();
        lemma_all_texts(front);
        assert forall|i: int| 0 <= i < front.len() implies #[trigger] front[i] == items[i] by {}
        if all_texts(items) is Some {
            let r = all_texts(items)->0;
            assert forall|i: int| 0 <= i < items.len() implies #[trigger] items[i]
                == TreeView::Text(r[i]) by {
                if i < front.len() {
                    assert(front[i] == items[i]);
                }
            }
        } else {
            if forall|i: int| 0 <= i < items.len() ==> (#[trigger] items[i]) is Text {
                assert forall|i: int| 0 <= i < front.len() implies (#[trigger] front[i]) is Text by {
                    assert(items[i] is Text);
                }
                assert(items[items.len() - 1] is Text);
            }
        }
    }
}

/// A record under its keys says what stands under them, and it takes an id, a
/// decision and a reason, all texts, and lists of nothing but texts.
pub proof fn law_records_say_what_is_written(entries: Seq<(Seq<char>, TreeView)>)
    ensures
        ({
            let t = TreeView::Table(entries);
            &&& record_in(t) matches Some(r) ==> {
                &&& field(t, "id"@) == Some(TreeView::Text(r.id))
                &&& field(t, "decision"@) == Some(TreeView::Text(r.decision))
                &&& field(t, "because"@) == Some(TreeView::Text(r.because))
                &&& field(t, "links"@) is None ==> r.links.len() == 0
                &&& field(t, "links"@) matches Some(TreeView::List(items)) ==> r.links.len()
                    == items.len() && forall|i: int|
                    0 <= i < items.len() ==> #[trigger] items[i] == TreeView::Text(r.links[i])
                &&& field(t, "rejected"@) is None ==> r.rejected.len() == 0
                &&& field(t, "rejected"@) matches Some(TreeView::List(items)) ==> r.rejected.len()
                    == items.len() && forall|i: int|
                    0 <= i < items.len() ==> #[trigger] items[i] == TreeView::Text(r.rejected[i])
                &&& status_in(field(t, "status"@)) == Some(r.status)
                &&& field(t, "superseded_by"@) is None ==> r.superseded_by is None
                &&& field(t, "superseded_by"@) is Some ==> (r.superseded_by matches Some(x) && field(
                    t,
                    "superseded_by"@,
                ) == Some(TreeView::Text(x)))
            }
            &&& field(t, "id"@) is None || field(t, "decision"@) is None || field(t, "because"@)
                is None ==> record_in(t) is None
            &&& (field(t, "id"@) matches Some(TreeView::Text(_))) && (field(
                t,
                "decision"@,
            ) matches Some(TreeView::Text(_))) && (field(t, "because"@) matches Some(
                TreeView::Text(_),
            )) && strict_texts(field(t, "rejected"@)) is Some && strict_texts(field(t, "links"@))
                is Some && status_in(field(t, "status"@)) is Some && optional_text(
                field(t, "superseded_by"@),
            ) is Some ==> record_in(t) is Some
        }),
{
    let t = TreeView::Table(entries);
    if let Some(TreeView::List(items)) = field(t, "links"@) {
        lemma_all_texts(items);
    }
    if let Some(TreeView::List(items)) = field(t, "rejected"@) {
        lemma_all_texts(items);
    }
}

/// A list may be missing, and is spoilt by anything in it that is no text.
pub proof fn law_lists_hold_nothing_but_texts(items: Seq<TreeView>)
    ensures
        strict_texts(None) == Some(Seq::<Seq<char>>::empty()),
        strict_texts(Some(TreeView::List(items))) is Some <==> forall|i: int|
            0 <= i < items.len() ==> (#[trigger] items[i]) is Text,
        forall|s: Seq<char>| #[trigger] strict_texts(Some(TreeView::Text(s))) is None,
{
    lemma_all_texts(items);
}

/// Settings without decisions declare none; with a list of them they declare the
/// records of its items, and one that is spoilt spoils them all.
pub proof fn law_decisions_are_read_one_by_one(t: TreeView, front: Seq<TreeView>, item: TreeView)
    ensures
        field(t, "decision"@) is None ==> written_records(t) == Some(
            Seq::<AuthorizationView>::empty(),
        ),
        field(t, "decision"@) == Some(TreeView::List(front)) ==> written_records(t) == records_in(
            front,
        ),
        field(t, "decision"@) is Some && !(field(t, "decision"@)->0 is List) ==> written_records(t)
            is None,
        records_in(front) is Some && record_in(item) is Some ==> records_in(front.push(item)) == Some(
            records_in(front)->0.push(record_in(item)->0),
        ),
        records_in(front) is None || record_in(item) is None ==> records_in(front.push(item))
            is None,
{
    assert(front.push(item).drop_last() =~= front);
}

proof fn lemma_by_id(list: Seq<AuthorizationView>)
    ensures
        by_id(list) matches Ok(m) ==> ordered(m),
    decreases list.len(),
{
    if list.len() > 0 {
        lemma_by_id(list.drop_last());
        if let Ok(m) = by_id(list.drop_last()) {
            let r = crate::mutation_policy::plain_record(list.last());
            lemma_put(m, r.id, r);
        }
    }
}

/// A further record is refused where its id, its decision, its reason or one of
/// its links is blank, or where its id is taken; otherwise it stands under its id
/// beside the others.
pub proof fn law_records_are_whole_and_distinct(front: Seq<AuthorizationView>, r: AuthorizationView)
    requires
        by_id(front) is Ok,
    ensures
        ({
            let m = by_id(front)->Ok_0;
            let after = by_id(front.push(r));
            let blank = trim(r.id).len() == 0 || trim(r.decision).len() == 0 || trim(
                r.because,
            ).len() == 0 || exists|i: int|
                0 <= i < r.links.len() && trim(#[trigger] r.links[i]).len() == 0;
            &&& blank || lookup(m, trim(r.id)) is Some <==> after is Err
            &&& after matches Ok(n) ==> {
                &&& lookup(n, trim(r.id)) matches Some(x) && x.id == trim(r.id) && x.decision == trim(
                    r.decision,
                ) && x.because == trim(r.because) && x.status == r.status && x.superseded_by
                    == r.superseded_by && x.links.to_set() == r.links.to_set()
                    && x.rejected.to_set() == r.rejected.to_set()
                &&& forall|k: Seq<char>|
                    k != trim(r.id) ==> #[trigger] lookup(n, k) == lookup(m, k)
            }
        }),
        by_id(front.push(r)) matches Ok(n) ==> n.len() == by_id(front)->Ok_0.len() + 1,
{
    assert(front.push(r).drop_last() =~= front);
    lemma_by_id(front);
    let m = by_id(front)->Ok_0;
    let x = crate::mutation_policy::plain_record(r);
    lemma_put(m, x.id, x);
    lemma_sorted_set(r.links);
    lemma_sorted_set(r.rejected);
    assert(x.links.to_set() =~= r.links.to_set());
    assert(x.rejected.to_set() =~= r.rejected.to_set());
    if !crate::table::has_key(m, x.id) {
        lemma_put_grows(m, x.id, x);
    }
    assert(has_blank(r.links) <==> exists|i: int|
        0 <= i < r.links.len() && trim(#[trigger] r.links[i]).len() == 0);
}

proof fn lemma_put_grows<V>(m: Seq<(Seq<char>, V)>, k: Seq<char>, v: V)
    requires
        !crate::table::has_key(m, k),
    ensures
        crate::table::put(m, k, v).len() == m.len() + 1,
    decreases m.len(),
{
    if m.len() > 0 {
        assert(m[0].0 != k);
        assert forall|i: int| 0 <= i < m.skip(1).len() implies (#[trigger] m.skip(1)[i]).0 != k by {
            assert(m[i + 1].0 != k);
        }
        lemma_put_grows(m.skip(1), k, v);
    }
}

proof fn lemma_fault(records: Seq<(Seq<char>, AuthorizationView)>, from: int)
    requires
        0 <= from,
        ordered(records),
    ensures
        fault_from(records, from) is None <==> forall|i: int|
            from <= i < records.len() ==> is_sound(records, (#[trigger] records[i]).0, records[i].1),
    decreases records.len() - from,
{
    if from < records.len() {
        lemma_fault(records, from + 1);
        let (id, r) = records[from];
        assert(is_sound(records, id, r) <==> crate::mutation_policy::lifecycle_fault(
            records,
            id,
            r,
        ) is None);
    }
}

/// A decision that is superseded names another that is active; one that is not
/// names none.
pub open spec fn is_sound(
    records: Seq<(Seq<char>, AuthorizationView)>,
    id: Seq<char>,
    r: AuthorizationView,
) -> bool {
    match r.superseded_by {
        Some(target) => r.status == DecisionStatus::Superseded && target != id && (lookup(
            records,
            target,
        ) matches Some(s) && s.status == DecisionStatus::Active),
        None => r.status != DecisionStatus::Superseded,
    }
}

/// Settings are accepted exactly where their records are whole and distinct and
/// each of them is sound.
pub proof fn law_only_sound_decisions_are_accepted(t: TreeView)
    ensures
        declared_records(t) is Ok <==> (written_records(t) matches Some(list) && by_id(
            list,
        ) matches Ok(m) && forall|i: int|
            0 <= i < m.len() ==> is_sound(m, (#[trigger] m[i]).0, m[i].1)),
        declared_records(t) matches Ok(m) ==> forall|i: int|
            0 <= i < m.len() ==> is_sound(m, (#[trigger] m[i]).0, m[i].1),
{
    if let Some(list) = written_records(t) {
        if let Ok(m) = by_id(list) {
            lemma_by_id(list);
            lemma_fault(m, 0);
        }
    }
}

// ---------------------------------------------------------------------------
// Aliases
// ---------------------------------------------------------------------------

proof fn lemma_resolved_ends(
    aliases: Seq<(Seq<char>, Seq<char>)>,
    name: Seq<char>,
    current: Seq<char>,
    steps: nat,
)
    ensures
        resolved(aliases, name, current, steps) matches Ok(end) ==> lookup(aliases, end) is None,
    decreases steps,
{
    if let Some(next) = lookup(aliases, current) {
        if steps > 0 && trim(next).len() > 0 {
            lemma_resolved_ends(aliases, name, next, (steps - 1) as nat);
        }
    }
}

/// A name stands for what its aliases lead to in the end, which is no alias of
/// anything; a name without an alias stands for itself. A blank target leads
/// nowhere, and neither does an alias of itself.
pub proof fn law_names_stand_for_the_end_of_their_aliases(
    aliases: Seq<(Seq<char>, Seq<char>)>,
    name: Seq<char>,
)
    ensures
        lookup(aliases, name) is None ==> canonical_name(aliases, name) == Ok::<
            Seq<char>,
            Seq<char>,
        >(name),
        canonical_name(aliases, name) matches Ok(end) ==> lookup(aliases, end) is None,
        lookup(aliases, name) matches Some(next) ==> {
            &&& trim(next).len() == 0 ==> canonical_name(aliases, name) is Err
            &&& next == name ==> canonical_name(aliases, name) is Err
            &&& trim(next).len() > 0 && lookup(aliases, next) is None ==> canonical_name(
                aliases,
                name,
            ) == Ok::<Seq<char>, Seq<char>>(next)
            &&& canonical_name(aliases, name) matches Ok(end) ==> canonical_name(aliases, next)
                == Ok::<Seq<char>, Seq<char>>(end)
        },
{
    lemma_resolved_ends(aliases, name, name, aliases.len());
    if let Some(next) = lookup(aliases, name) {
        assert(aliases.len() > 0);
        let n = (aliases.len() - 1) as nat;
        if trim(next).len() > 0 {
            if lookup(aliases, next) is None {
                assert(resolved(aliases, name, next, n) == Ok::<Seq<char>, Seq<char>>(next));
            }
            if next == name {
                lemma_circle(aliases, name, n);
            }
            if let Ok(end) = resolved(aliases, name, next, n) {
                lemma_more_steps(aliases, name, next, n, next);
            }
        }
    }
}

proof fn lemma_circle(aliases: Seq<(Seq<char>, Seq<char>)>, name: Seq<char>, steps: nat)
    requires
        lookup(aliases, name) == Some(name),
    ensures
        resolved(aliases, name, name, steps) is Err,
    decreases steps,
{
    if steps > 0 && trim(name).len() > 0 {
        lemma_circle(aliases, name, (steps - 1) as nat);
    }
}

proof fn lemma_more_steps(
    aliases: Seq<(Seq<char>, Seq<char>)>,
    name: Seq<char>,
    current: Seq<char>,
    steps: nat,
    other: Seq<char>,
)
    requires
        resolved(aliases, name, current, steps) is Ok,
    ensures
        resolved(aliases, other, current, steps + 1) == Ok::<Seq<char>, Seq<char>>(
            resolved(aliases, name, current, steps)->Ok_0,
        ),
    decreases steps,
{
    if let Some(next) = lookup(aliases, current) {
        lemma_more_steps(aliases, name, next, (steps - 1) as nat, other);
    }
}

// ---------------------------------------------------------------------------
// What a decision speaks of
// ---------------------------------------------------------------------------

proof fn lemma_last_place(s: Seq<char>, p: Seq<char>, i: int)
    ensures
        match last_place(s, p, i) {
            Some(j) => 0 <= j <= i && occurs_at(s, p, j) && forall|k: int|
                j < k <= i ==> !occurs_at(s, p, k),
            None => forall|k: int| 0 <= k <= i ==> !occurs_at(s, p, k),
        },
    decreases i + 1,
{
    if i >= 0 && !occurs_at(s, p, i) {
        lemma_last_place(s, p, i - 1);
    }
}

proof fn lemma_own_part_behind_path(path: Seq<char>, link: Seq<char>)
    requires
        !contains(link, "::"@),
        link.len() > 0,
        link[0] != ':',
    ensures
        own_part(path + "::"@ + link) == link,
{
    reveal_strlit("::");
    let two = "::"@;
    let whole = path + two + link;
    let at = path.len() as int;
    lemma_last_place(whole, two, whole.len() - 2);
    assert(whole.subrange(at, at + 2) =~= two);
    assert(occurs_at(whole, two, at));
    let j = last_place(whole, two, whole.len() - 2)->0;
    assert(j >= at);
    if j == at + 1 {
        assert(whole.subrange(j, j + 2)[1] == link[0]);
        assert(two[1] == ':');
    } else if j > at + 1 {
        assert(link.subrange(j - at - 2, j - at) =~= whole.subrange(j, j + 2));
        assert(occurs_at(link, two, j - at - 2));
    }
    assert(whole.skip(at + 2) =~= link);
}

proof fn lemma_own_part_from(identity: Seq<char>)
    ensures
        own_part(identity) == identity || ("::"@ + own_part(identity)).is_suffix_of(identity),
        !contains(identity, "::"@) ==> own_part(identity) == identity,
{
    reveal_strlit("::");
    let two = "::"@;
    lemma_last_place(identity, two, identity.len() - 2);
    if let Some(j) = last_place(identity, two, identity.len() - 2) {
        let tail = two + own_part(identity);
        assert(identity.subrange(j, j + 2) == two);
        assert(identity.subrange(j, identity.len() as int) =~= identity.subrange(j, j + 2)
            + identity.skip(j + 2));
        assert(identity.subrange(identity.len() - tail.len(), identity.len() as int) =~= tail);
    }
}

/// A link that is qualified speaks of that very name; one that is not speaks of
/// every name that ends in it behind a path.
pub proof fn law_what_a_link_speaks_of(link: Seq<char>, identity: Seq<char>, path: Seq<char>)
    ensures
        contains(link, "::"@) ==> (speaks_of(link, identity) <==> identity == link),
        !contains(link, "::"@) ==> speaks_of(link, link),
        !contains(link, "::"@) && link.len() > 0 && link[0] != ':' ==> speaks_of(
            link,
            path + "::"@ + link,
        ),
        !contains(link, "::"@) && speaks_of(link, identity) ==> identity == link || ("::"@
            + link).is_suffix_of(identity),
{
    if !contains(link, "::"@) {
        lemma_own_part_from(link);
        lemma_own_part_from(identity);
        if link.len() > 0 && link[0] != ':' {
            lemma_own_part_behind_path(path, link);
        }
    }
}

proof fn lemma_linked(
    aliases: Seq<(Seq<char>, Seq<char>)>,
    known: Seq<(Seq<char>, Seq<char>)>,
    id: Seq<char>,
    links: Seq<Seq<char>>,
    n: int,
)
    requires
        linked_targets(aliases, known, id, links) is Ok,
        0 <= n < known.len(),
        ordered(known),
    ensures
        linked_targets(aliases, known, id, links)->Ok_0.contains(known[n].0) <==> exists|l: int|
            0 <= l < links.len() && (canonical_name(aliases, #[trigger] links[l]) matches Ok(link)
                && speaks_of(link, known[n].1)),
    decreases links.len(),
{
    let target = known[n].0;
    if links.len() > 0 {
        let front = links.drop_last();
        lemma_linked(aliases, known, id, front, n);
        let r = linked_targets(aliases, known, id, front)->Ok_0;
        let all = linked_targets(aliases, known, id, links)->Ok_0;
        let link = canonical_name(aliases, links.last())->Ok_0;
        let f = each_spoken_of(link);
        let matched = known.filter_map(f);
        assert(all == r + matched);
        if speaks_of(link, known[n].1) {
            lemma_kept_by_filter_map(known, f, n);
            let q = choose|q: int| 0 <= q < matched.len() && matched[q] == target;
            assert(all[r.len() + q] == target);
            assert(links[links.len() - 1] == links.last());
        }
        if r.contains(target) {
            let q = choose|q: int| 0 <= q < r.len() && r[q] == target;
            assert(all[q] == target);
            let l = choose|l: int|
                0 <= l < front.len() && (canonical_name(aliases, #[trigger] front[l]) matches Ok(x)
                    && speaks_of(x, known[n].1));
            assert(links[l] == front[l]);
        }
        if all.contains(target) {
            let q = choose|q: int| 0 <= q < all.len() && all[q] == target;
            if q < r.len() {
                assert(r[q] == target);
            } else {
                assert(matched[q - r.len()] == target);
                let m = crate::answer_laws::lemma_filtered_from(known, f, q - r.len());
                assert(known[m].0 == target);
                lemma_lookup_at(known, m);
                lemma_lookup_at(known, n);
                assert(speaks_of(link, known[n].1));
                assert(links[links.len() - 1] == links.last());
            }
        }
        if exists|l: int|
            0 <= l < links.len() && (canonical_name(aliases, #[trigger] links[l]) matches Ok(x)
                && speaks_of(x, known[n].1)) {
            let l = choose|l: int|
                0 <= l < links.len() && (canonical_name(aliases, #[trigger] links[l]) matches Ok(x)
                    && speaks_of(x, known[n].1));
            if l < front.len() {
                assert(front[l] == links[l]);
            }
        }
    } else {
        assert(linked_targets(aliases, known, id, links)->Ok_0.len() == 0);
    }
}

proof fn lemma_identities(aliases: Seq<(Seq<char>, Seq<char>)>, targets: Seq<Seq<char>>)
    requires
        identities(aliases, targets) is Ok,
    ensures
        ordered(identities(aliases, targets)->Ok_0),
        forall|t: Seq<char>|
            #[trigger] lookup(identities(aliases, targets)->Ok_0, t) is Some <==> targets.contains(t),
        forall|t: Seq<char>|
            targets.contains(t) ==> canonical_name(aliases, t) is Ok && #[trigger] lookup(
                identities(aliases, targets)->Ok_0,
                t,
            ) == Some(canonical_name(aliases, t)->Ok_0),
    decreases targets.len(),
{
    let all = identities(aliases, targets)->Ok_0;
    if targets.len() > 0 {
        let front = targets.drop_last();
        let x = targets.last();
        lemma_identities(aliases, front);
        let m = identities(aliases, front)->Ok_0;
        lemma_put(m, x, canonical_name(aliases, x)->Ok_0);
        assert forall|t: Seq<char>| targets.contains(t) <==> (t == x || front.contains(t)) by {
            if targets.contains(t) {
                let i = choose|i: int| 0 <= i < targets.len() && targets[i] == t;
                if i < front.len() {
                    assert(front[i] == t);
                }
            }
            if front.contains(t) {
                let i = choose|i: int| 0 <= i < front.len() && front[i] == t;
                assert(targets[i] == t);
            }
            if t == x {
                assert(targets[targets.len() - 1] == t);
            }
        }
    } else {
        assert(all.len() == 0);
    }
}

proof fn lemma_granted(
    aliases: Seq<(Seq<char>, Seq<char>)>,
    known: Seq<(Seq<char>, Seq<char>)>,
    earlier: Seq<(Seq<char>, AuthorizationView)>,
    later: Seq<(Seq<char>, AuthorizationView)>,
    k: int,
) -> (i: int)
    requires
        grants(aliases, known, earlier, later) is Ok,
        0 <= k < later.len(),
        is_supplied(earlier, later[k]),
    ensures
        0 <= i < grants(aliases, known, earlier, later)->Ok_0.len(),
        grants(aliases, known, earlier, later)->Ok_0[i].0 == later[k].0,
        linked_targets(aliases, known, later[k].0, later[k].1.links) == Ok::<
            Seq<Seq<char>>,
            Seq<char>,
        >(grants(aliases, known, earlier, later)->Ok_0[i].1),
    decreases later.len(),
{
    let front = later.drop_last();
    let r = grants(aliases, known, earlier, front)->Ok_0;
    if k < front.len() {
        let i = lemma_granted(aliases, known, earlier, front, k);
        assert(grants(aliases, known, earlier, later)->Ok_0[i] == r[i]);
        i
    } else {
        r.len() as int
    }
}

/// Every target is answered for, and a decision authorises it exactly where the
/// decision is active, was not there before as it is, and has a link that speaks
/// of what the target stands for.
pub proof fn law_what_a_decision_authorises(
    earlier: Seq<(Seq<char>, AuthorizationView)>,
    later: Seq<(Seq<char>, AuthorizationView)>,
    targets: Seq<Seq<char>>,
    aliases: Seq<(Seq<char>, Seq<char>)>,
    target: Seq<char>,
    id: Seq<char>,
)
    requires
        authorized(earlier, later, targets, aliases) is Ok,
        targets.contains(target),
    ensures
        lookup(authorized(earlier, later, targets, aliases)->Ok_0, target) matches Some(ids)
            && canonical_name(aliases, target) matches Ok(identity) && (ids.contains(id)
            <==> exists|k: int, l: int|
            0 <= k < later.len() && 0 <= l < later[k].1.links.len() && later[k].0 == id
                && later[k].1.status == DecisionStatus::Active && lookup(earlier, id) != Some(
                later[k].1,
            ) && (canonical_name(aliases, #[trigger] later[k].1.links[l]) matches Ok(link)
                && speaks_of(link, identity))),
{
    let known = identities(aliases, targets)->Ok_0;
    let given = grants(aliases, known, earlier, later)->Ok_0;
    let all = authorized(earlier, later, targets, aliases)->Ok_0;
    lemma_identities(aliases, targets);
    let identity = canonical_name(aliases, target)->Ok_0;
    assert(lookup(known, target) == Some(identity));
    let n = choose|n: int| 0 <= n < known.len() && #[trigger] known[n].0 == target;
    lemma_lookup_at(known, n);
    assert(known[n] == (target, identity));
    assert(ordered(all)) by {
        assert forall|i: int, j: int| 0 <= i < j < all.len() implies crate::text::before(
            (#[trigger] all[i]).0,
            (#[trigger] all[j]).0,
        ) by {
            assert(all[i].0 == known[i].0 && all[j].0 == known[j].0);
        }
    }
    assert(all[n].0 == target);
    lemma_lookup_at(all, n);
    let f = each_grant(target);
    let ids = given.filter_map(f);
    assert(all[n].1 == ids);
    if ids.contains(id) {
        let q = choose|q: int| 0 <= q < ids.len() && ids[q] == id;
        let g = crate::answer_laws::lemma_filtered_from(given, f, q);
        crate::mutation_policy::law_only_supplied_decisions_authorise(
            aliases,
            known,
            earlier,
            later,
            g,
        );
        let k = choose|k: int|
            0 <= k < later.len() && (#[trigger] later[k]).0 == given[g].0 && is_supplied(
                earlier,
                later[k],
            ) && linked_targets(aliases, known, given[g].0, later[k].1.links) == Ok::<
                Seq<Seq<char>>,
                Seq<char>,
            >(given[g].1);
        lemma_linked(aliases, known, id, later[k].1.links, n);
        let links = later[k].1.links;
        let l = choose|l: int|
            0 <= l < links.len() && (canonical_name(aliases, #[trigger] links[l]) matches Ok(link)
                && speaks_of(link, known[n].1));
        assert(later[k].1.links[l] == links[l]);
    }
    if exists|k: int, l: int|
        0 <= k < later.len() && 0 <= l < later[k].1.links.len() && later[k].0 == id
            && later[k].1.status == DecisionStatus::Active && lookup(earlier, id) != Some(
            later[k].1,
        ) && (canonical_name(aliases, #[trigger] later[k].1.links[l]) matches Ok(link) && speaks_of(
            link,
            identity,
        )) {
        let (k, l) = choose|k: int, l: int|
            0 <= k < later.len() && 0 <= l < later[k].1.links.len() && later[k].0 == id
                && later[k].1.status == DecisionStatus::Active && lookup(earlier, id) != Some(
                later[k].1,
            ) && (canonical_name(aliases, #[trigger] later[k].1.links[l]) matches Ok(link)
                && speaks_of(link, identity));
        let g = lemma_granted(aliases, known, earlier, later, k);
        lemma_linked(aliases, known, later[k].0, later[k].1.links, n);
        let links = later[k].1.links;
        assert(canonical_name(aliases, links[l]) matches Ok(link) && speaks_of(link, known[n].1));
        assert(given[g].1.contains(target));
        lemma_kept_by_filter_map(given, f, g);
    }
}

/// A link that speaks of more than one target is refused: nothing is authorised
/// by a guess.
pub proof fn law_ambiguous_links_are_refused(
    aliases: Seq<(Seq<char>, Seq<char>)>,
    known: Seq<(Seq<char>, Seq<char>)>,
    id: Seq<char>,
    links: Seq<Seq<char>>,
    l: int,
    i: int,
    j: int,
)
    requires
        0 <= l < links.len(),
        0 <= i < j < known.len(),
        canonical_name(aliases, links[l]) matches Ok(link) && speaks_of(link, known[i].1) && speaks_of(
            link,
            known[j].1,
        ),
    ensures
        linked_targets(aliases, known, id, links) is Err,
    decreases links.len(),
{
    let front = links.drop_last();
    if l < front.len() {
        assert(front[l] == links[l]);
        law_ambiguous_links_are_refused(aliases, known, id, front, l, i, j);
    } else {
        let f = each_spoken_of(canonical_name(aliases, links[l])->Ok_0);
        lemma_two_pass(known, f, i, j);
    }
}

proof fn lemma_two_pass<A, B>(s: Seq<A>, f: spec_fn(A) -> Option<B>, i: int, j: int)
    requires
        0 <= i < j < s.len(),
        f(s[i]) is Some,
        f(s[j]) is Some,
    ensures
        s.filter_map(f).len() >= 2,
    decreases s.len(),
{
    let n = s.len() - 1;
    let front = s.take(n);
    s.lemma_filter_map_take_succ(f, n);
    assert(s.take(n + 1) =~= s);
    if j < n {
        assert(front[i] == s[i] && front[j] == s[j]);
        lemma_two_pass(front, f, i, j);
    } else {
        assert(front[i] == s[i]);
        lemma_kept_by_filter_map(front, f, i);
    }
}

/// An alias that leads nowhere spoils every judgement, whether a target needs it
/// or not.
pub proof fn law_one_bad_alias_spoils_all(
    earlier: Seq<(Seq<char>, AuthorizationView)>,
    later: Seq<(Seq<char>, AuthorizationView)>,
    targets: Seq<Seq<char>>,
    aliases: Seq<(Seq<char>, Seq<char>)>,
    i: int,
)
    requires
        0 <= i < aliases.len(),
        canonical_name(aliases, aliases[i].0) is Err,
    ensures
        authorized(earlier, later, targets, aliases) is Err,
{
    lemma_alias_fault(aliases, 0, i);
}

proof fn lemma_alias_fault(aliases: Seq<(Seq<char>, Seq<char>)>, from: int, i: int)
    requires
        0 <= from <= i < aliases.len(),
        canonical_name(aliases, aliases[i].0) is Err,
    ensures
        alias_fault(aliases, from) is Some,
    decreases i - from,
{
    if from < i {
        lemma_alias_fault(aliases, from + 1, i);
    }
}

} // verus!
