//! Shaping of results: a caller may ask for some of the keys only, and for no
//! explanatory prose.
use vstd::prelude::*;
use crate::text::{
    in_class, is_space, join, lemma_run, lemma_trim, lemma_trim_stays, run, split, trim, CharClass,
};
use crate::text::{owned, same, split_at_char, trimmed};
use crate::tree::{
    entry, lemma_list_view, lemma_set_entry, lemma_table_view, set_entry, with_entry, Tree,
    TreeView,
};

verus! {

/// Keys that hold explanation, never evidence.
pub open spec fn is_prose(k: Seq<char>) -> bool {
    k == "note"@ || k == "evidence_note"@
}

/// The asked-for entries of a table, in the order in which they were asked for.
pub open spec fn chosen(entries: Seq<(Seq<char>, TreeView)>, keys: Seq<Seq<char>>) -> Seq<
    (Seq<char>, TreeView),
>
    decreases keys.len(),
{
    if keys.len() == 0 {
        seq![]
    } else {
        let kept = chosen(entries, keys.drop_last());
        match entry(entries, keys.last()) {
            Some(v) => set_entry(kept, keys.last(), v),
            None => kept,
        }
    }
}

/// A tree without its prose, at every depth.
pub open spec fn without_prose(t: TreeView) -> TreeView
    decreases t, 0nat,
{
    match t {
        TreeView::List(items) => TreeView::List(bare_items(items, items.len())),
        TreeView::Table(entries) => TreeView::Table(spoken(entries, entries.len())),
        _ => t,
    }
}

/// The first `n` items of a list without their prose.
pub open spec fn bare_items(items: Seq<TreeView>, n: nat) -> Seq<TreeView>
    decreases items, n,
{
    if n == 0 || n > items.len() {
        seq![]
    } else {
        bare_items(items, (n - 1) as nat).push(without_prose(items[n - 1]))
    }
}

/// What is left of the first `n` entries of a table without their prose.
pub open spec fn spoken(entries: Seq<(Seq<char>, TreeView)>, n: nat) -> Seq<(Seq<char>, TreeView)>
    decreases entries, n,
{
    if n == 0 || n > entries.len() {
        seq![]
    } else {
        let r = spoken(entries, (n - 1) as nat);
        let e = entries[n - 1];
        if is_prose(e.0) {
            r
        } else {
            r.push((e.0, without_prose(e.1)))
        }
    }
}

/// What a caller gets of a result: only the asked-for keys, where it is a table
/// and any were asked for; without prose, where that was asked for.
pub open spec fn shaped(t: TreeView, only: Option<Seq<Seq<char>>>, compact: bool) -> TreeView {
    let some = match (only, t) {
        (Some(keys), TreeView::Table(entries)) => if keys.len() > 0 {
            TreeView::Table(chosen(entries, keys))
        } else {
            t
        },
        _ => t,
    };
    if compact {
        without_prose(some)
    } else {
        some
    }
}

pub open spec fn each_key() -> spec_fn(Seq<char>) -> Option<Seq<char>> {
    |k: Seq<char>|
        if trim(k).len() == 0 {
            None
        } else {
            Some(trim(k))
        }
}

/// The keys in a comma-separated list; none given where it holds none.
pub open spec fn keys_in(s: Seq<char>) -> Option<Seq<Seq<char>>> {
    let keys = split(trim(s), ',').filter_map(each_key());
    if trim(s).len() == 0 || keys.len() == 0 {
        None
    } else {
        Some(keys)
    }
}

fn choose_entries(t: &Tree, keys: &Vec<String>) -> (r: Vec<(String, Tree)>)
    requires
        t.deep_view() is Table,
    ensures
        r.deep_view() == chosen(t.deep_view()->Table_0, keys.deep_view()),
{
    let ghost kv = keys.deep_view();
    let ghost entries = t.deep_view()->Table_0;
    let mut out: Vec<(String, Tree)> = Vec::new();
    let mut i: usize = 0;
    assert(out.deep_view() =~= chosen(entries, kv.take(0)));
    while i < keys.len()
        invariant
            i <= keys.len(),
            kv == keys.deep_view(),
            t.deep_view() == TreeView::Table(entries),
            out.deep_view() == chosen(entries, kv.take(i as int)),
        decreases keys.len() - i,
    {
        let k = keys[i].as_str();
        proof {
            let step = kv.take(i + 1);
            assert(step.drop_last() =~= kv.take(i as int));
            assert(step.last() == k@);
        }
        if let Some(v) = t.field(k) {
            out = with_entry(out, k, v.copy());
        }
        i += 1;
    }
    assert(kv.take(i as int) =~= kv);
    out
}

fn prose(k: &str) -> (r: bool)
    ensures
        r == is_prose(k@),
{
    same(k, "note") || same(k, "evidence_note")
}

fn strip_prose(t: &Tree) -> (r: Tree)
    ensures
        r.deep_view() == without_prose(t.deep_view()),
    decreases t,
{
    match t {
        Tree::Nothing => Tree::Nothing,
        Tree::Flag(b) => Tree::Flag(*b),
        Tree::Number(s) => Tree::Number(owned(s.as_str())),
        Tree::Text(s) => Tree::Text(owned(s.as_str())),
        Tree::List(v) => {
            let ghost items = v.deep_view();
            let mut out: Vec<Tree> = Vec::new();
            let mut i: usize = 0;
            proof {
                lemma_list_view(*v);
            }
            assert(out.deep_view() =~= bare_items(items, 0));
            while i < v.len()
                invariant
                    i <= v.len(),
                    *t == Tree::List(*v),
                    items == v.deep_view(),
                    out.deep_view() == bare_items(items, i as nat),
                decreases v.len() - i,
            {
                let ghost so_far = out.deep_view();
                assert(decreases_to!(*t => t->List_0));
                assert(decreases_to!(v => v[i as int]));
                let x = strip_prose(&v[i]);
                let ghost xv = x.deep_view();
                assert(items[i as int] == v[i as int].deep_view());
                out.push(x);
                assert(out.deep_view() =~= so_far.push(xv));
                i += 1;
            }
            proof {
                lemma_list_view(out);
            }
            Tree::List(out)
        },
        Tree::Table(v) => {
            let ghost entries = v.deep_view();
            let mut out: Vec<(String, Tree)> = Vec::new();
            let mut i: usize = 0;
            proof {
                lemma_table_view(*v);
            }
            assert(out.deep_view() =~= spoken(entries, 0));
            while i < v.len()
                invariant
                    i <= v.len(),
                    *t == Tree::Table(*v),
                    entries == v.deep_view(),
                    out.deep_view() == spoken(entries, i as nat),
                decreases v.len() - i,
            {
                let ghost so_far = out.deep_view();
                assert(decreases_to!(*t => t->Table_0));
                assert(decreases_to!(v => v[i as int]));
                assert(entries[i as int] == v[i as int].deep_view());
                if !prose(v[i].0.as_str()) {
                    let x = strip_prose(&v[i].1);
                    let ghost xv = x.deep_view();
                    out.push((owned(v[i].0.as_str()), x));
                    assert(out.deep_view() =~= so_far.push((entries[i as int].0, xv)));
                }
                i += 1;
            }
            proof {
                lemma_table_view(out);
            }
            Tree::Table(out)
        },
    }
}

/// A result as a caller asked for it.
pub fn apply(v: Tree, only: Option<&Vec<String>>, compact: bool) -> (r: Tree)
    ensures
        r.deep_view() == shaped(
            v.deep_view(),
            match only {
                Some(k) => Some(k.deep_view()),
                None => None,
            },
            compact,
        ),
{
    let mut some = v;
    if let Some(keys) = only {
        assert(keys.deep_view().len() == keys@.len());
        let table = match &some {
            Tree::Table(_) => true,
            _ => false,
        };
        if keys.len() > 0 && table {
            let kept = choose_entries(&some, keys);
            proof {
                lemma_table_view(kept);
            }
            some = Tree::Table(kept);
        }
    }
    if compact {
        strip_prose(&some)
    } else {
        some
    }
}

/// The keys in a comma-separated list, as it comes from a flag or a query string.
pub fn parse_only(s: Option<&str>) -> (r: Option<Vec<String>>)
    ensures
        r.deep_view() == (match s {
            Some(t) => keys_in(t@),
            None => None,
        }),
{
    let list = match s {
        Some(t) => trimmed(t),
        None => {
            return None;
        },
    };
    if list.as_str().is_empty() {
        return None;
    }
    let parts = split_at_char(list.as_str(), ',');
    let ghost all = parts.deep_view();
    let ghost f = each_key();
    let mut out: Vec<String> = Vec::new();
    let mut i: usize = 0;
    proof {
        assert(all.take(0) =~= seq![]);
        reveal(Seq::filter_map);
    }
    while i < parts.len()
        invariant
            i <= parts.len(),
            all == parts.deep_view(),
            f == each_key(),
            out.deep_view() =~= all.take(i as int).filter_map(f),
        decreases parts.len() - i,
    {
        let ghost so_far = out.deep_view();
        proof {
            all.lemma_filter_map_take_succ(f, i as int);
        }
        assert(all[i as int] == parts[i as int]@);
        let k = trimmed(parts[i].as_str());
        if !k.as_str().is_empty() {
            let ghost kv = k@;
            out.push(k);
            assert(out.deep_view() =~= so_far.push(kv));
        }
        i += 1;
    }
    assert(all.take(i as int) =~= all);
    assert(out.deep_view().len() == out@.len());
    if out.len() == 0 {
        None
    } else {
        Some(out)
    }
}

// ---------------------------------------------------------------------------
// Laws
// ---------------------------------------------------------------------------

/// No table in a tree holds a key of prose.
pub open spec fn is_bare(t: TreeView) -> bool
    decreases t,
{
    match t {
        TreeView::List(items) => forall|i: int|
            0 <= i < items.len() ==> is_bare(#[trigger] items[i]),
        TreeView::Table(entries) => forall|i: int|
            0 <= i < entries.len() ==> !is_prose((#[trigger] entries[i]).0) && is_bare(
                entries[i].1,
            ),
        _ => true,
    }
}

/// A compacted result holds no prose, at any depth.
pub proof fn law_compact_leaves_no_prose(t: TreeView)
    ensures
        is_bare(without_prose(t)),
    decreases t, 0nat,
{
    match t {
        TreeView::List(items) => {
            lemma_bare_items(items, items.len());
            let r = bare_items(items, items.len());
            assert forall|i: int| 0 <= i < r.len() implies is_bare(#[trigger] r[i]) by {}
            assert(is_bare(TreeView::List(r)));
            assert(without_prose(t) == TreeView::List(r));
        },
        TreeView::Table(entries) => {
            lemma_spoken(entries, entries.len());
            let r = spoken(entries, entries.len());
            assert(without_prose(t) == TreeView::Table(r));
            assert(is_bare(TreeView::Table(r)));
        },
        _ => {},
    }
}

proof fn lemma_bare_items(items: Seq<TreeView>, n: nat)
    requires
        n <= items.len(),
    ensures
        forall|i: int| 0 <= i < bare_items(items, n).len() ==> is_bare(#[trigger] bare_items(items, n)[i]),
    decreases items, n,
{
    if n > 0 {
        let before = bare_items(items, (n - 1) as nat);
        let r = bare_items(items, n);
        lemma_bare_items(items, (n - 1) as nat);
        law_compact_leaves_no_prose(items[n - 1]);
        assert(r == before.push(without_prose(items[n - 1])));
        assert forall|i: int| 0 <= i < r.len() implies is_bare(#[trigger] r[i]) by {
            if i < before.len() {
                assert(r[i] == before[i]);
            }
        }
    }
}

proof fn lemma_spoken(entries: Seq<(Seq<char>, TreeView)>, n: nat)
    requires
        n <= entries.len(),
    ensures
        forall|i: int|
            0 <= i < spoken(entries, n).len() ==> !is_prose((#[trigger] spoken(entries, n)[i]).0)
                && is_bare(spoken(entries, n)[i].1),
    decreases entries, n,
{
    if n > 0 {
        let before = spoken(entries, (n - 1) as nat);
        let r = spoken(entries, n);
        lemma_spoken(entries, (n - 1) as nat);
        law_compact_leaves_no_prose(entries[n - 1].1);
        assert forall|i: int| 0 <= i < r.len() implies !is_prose((#[trigger] r[i]).0) && is_bare(
            r[i].1,
        ) by {
            if i < before.len() {
                assert(r[i] == before[i]);
            }
        }
    }
}

/// Compacting takes away prose and nothing else: what holds none stays as it is.
pub proof fn law_compact_keeps_the_rest(t: TreeView)
    requires
        is_bare(t),
    ensures
        without_prose(t) == t,
    decreases t, 0nat,
{
    match t {
        TreeView::List(items) => {
            lemma_bare_items_stay(items, items.len());
            assert(items.take(items.len() as int) =~= items);
        },
        TreeView::Table(entries) => {
            lemma_spoken_stay(entries, entries.len());
            assert(entries.take(entries.len() as int) =~= entries);
        },
        _ => {},
    }
}

proof fn lemma_bare_items_stay(items: Seq<TreeView>, n: nat)
    requires
        n <= items.len(),
        forall|i: int| 0 <= i < items.len() ==> is_bare(#[trigger] items[i]),
    ensures
        bare_items(items, n) =~= items.take(n as int),
    decreases items, n,
{
    if n > 0 {
        lemma_bare_items_stay(items, (n - 1) as nat);
        law_compact_keeps_the_rest(items[n - 1]);
    }
}

proof fn lemma_spoken_stay(entries: Seq<(Seq<char>, TreeView)>, n: nat)
    requires
        n <= entries.len(),
        forall|i: int|
            0 <= i < entries.len() ==> !is_prose((#[trigger] entries[i]).0) && is_bare(
                entries[i].1,
            ),
    ensures
        spoken(entries, n) =~= entries.take(n as int),
    decreases entries, n,
{
    if n > 0 {
        lemma_spoken_stay(entries, (n - 1) as nat);
        law_compact_keeps_the_rest(entries[n - 1].1);
    }
}

/// To compact twice is to compact once.
pub proof fn law_compact_is_idempotent(t: TreeView)
    ensures
        without_prose(without_prose(t)) == without_prose(t),
{
    law_compact_leaves_no_prose(t);
    law_compact_keeps_the_rest(without_prose(t));
}

/// Of the asked-for keys a result gives those that were there, with their values,
/// and it gives nothing that was not asked for.
pub proof fn law_only_gives_what_was_asked_for(
    entries: Seq<(Seq<char>, TreeView)>,
    keys: Seq<Seq<char>>,
    k: Seq<char>,
)
    ensures
        entry(chosen(entries, keys), k) == (if keys.contains(k) {
            entry(entries, k)
        } else {
            None
        }),
    decreases keys.len(),
{
    if keys.len() > 0 {
        let rest = keys.drop_last();
        let last = keys.last();
        law_only_gives_what_was_asked_for(entries, rest, k);
        if entry(entries, last) is Some {
            lemma_set_entry(chosen(entries, rest), last, entry(entries, last)->Some_0, k);
        }
        assert(keys.contains(k) <==> rest.contains(k) || k == last) by {
            if keys.contains(k) {
                let i = choose|i: int| 0 <= i < keys.len() && keys[i] == k;
                if i < rest.len() {
                    assert(rest[i] == k);
                }
            }
            if rest.contains(k) {
                let i = choose|i: int| 0 <= i < rest.len() && rest[i] == k;
                assert(keys[i] == k);
            }
            assert(keys[keys.len() - 1] == last);
        }
    }
}

/// Without an `only` and without `compact` a result stays as it is.
pub proof fn law_unshaped_results_stay(t: TreeView)
    ensures
        shaped(t, None, false) == t,
        shaped(t, Some(seq![]), false) == t,
{
}

proof fn lemma_chosen_alike(
    a: Seq<(Seq<char>, TreeView)>,
    b: Seq<(Seq<char>, TreeView)>,
    keys: Seq<Seq<char>>,
)
    requires
        forall|k: Seq<char>| #[trigger] keys.contains(k) ==> entry(a, k) == entry(b, k),
    ensures
        chosen(a, keys) == chosen(b, keys),
    decreases keys.len(),
{
    if keys.len() > 0 {
        let rest = keys.drop_last();
        assert forall|k: Seq<char>| #[trigger] rest.contains(k) implies entry(a, k) == entry(b, k) by {
            let i = choose|i: int| 0 <= i < rest.len() && rest[i] == k;
            assert(keys[i] == k);
            assert(keys.contains(k));
        }
        lemma_chosen_alike(a, b, rest);
        assert(keys.contains(keys.last()));
    }
}

proof fn lemma_chosen_again(entries: Seq<(Seq<char>, TreeView)>, keys: Seq<Seq<char>>)
    ensures
        chosen(chosen(entries, keys), keys) == chosen(entries, keys),
{
    assert forall|k: Seq<char>| #[trigger] keys.contains(k) implies entry(chosen(entries, keys), k)
        == entry(entries, k) by {
        law_only_gives_what_was_asked_for(entries, keys, k);
    }
    lemma_chosen_alike(chosen(entries, keys), entries, keys);
}

/// What is left of one entry without its prose.
pub open spec fn left_of(e: (Seq<char>, TreeView)) -> Seq<(Seq<char>, TreeView)> {
    if is_prose(e.0) {
        seq![]
    } else {
        seq![(e.0, without_prose(e.1))]
    }
}

proof fn lemma_spoken_head(entries: Seq<(Seq<char>, TreeView)>, n: nat)
    requires
        0 < n <= entries.len(),
    ensures
        spoken(entries, n) == left_of(entries[0]) + spoken(entries.skip(1), (n - 1) as nat),
    decreases n,
{
    let rest = entries.skip(1);
    if n == 1 {
        assert(spoken(entries, 0) =~= seq![]);
        assert(spoken(rest, 0) =~= seq![]);
        assert(spoken(entries, 1) =~= left_of(entries[0]) + spoken(rest, 0));
    } else {
        lemma_spoken_head(entries, (n - 1) as nat);
        assert(rest[n - 2] == entries[n - 1]);
        assert(spoken(entries, n) =~= left_of(entries[0]) + spoken(rest, (n - 1) as nat));
    }
}

proof fn lemma_spoken_entry(entries: Seq<(Seq<char>, TreeView)>, k: Seq<char>)
    ensures
        entry(spoken(entries, entries.len()), k) == (if is_prose(k) {
            None
        } else {
            match entry(entries, k) {
                Some(v) => Some(without_prose(v)),
                None => None,
            }
        }),
    decreases entries.len(),
{
    let r = spoken(entries, entries.len());
    if entries.len() > 0 {
        let rest = entries.skip(1);
        lemma_spoken_head(entries, entries.len());
        lemma_spoken_entry(rest, k);
        let tail = spoken(rest, rest.len());
        if is_prose(entries[0].0) {
            assert(r =~= tail);
        } else {
            assert(r[0] == (entries[0].0, without_prose(entries[0].1)));
            assert(r.skip(1) =~= tail);
        }
    }
}

proof fn lemma_spoken_set(entries: Seq<(Seq<char>, TreeView)>, k: Seq<char>, v: TreeView)
    ensures
        ({
            let after = set_entry(entries, k, v);
            let kept = spoken(entries, entries.len());
            spoken(after, after.len()) == (if is_prose(k) {
                kept
            } else {
                set_entry(kept, k, without_prose(v))
            })
        }),
    decreases entries.len(),
{
    let after = set_entry(entries, k, v);
    let kept = spoken(entries, entries.len());
    let got = spoken(after, after.len());
    lemma_spoken_head(after, after.len());
    if entries.len() == 0 {
        assert(after.skip(1) =~= entries);
        assert(got =~= left_of((k, v)));
    } else {
        let rest = entries.skip(1);
        let tail = spoken(rest, rest.len());
        lemma_spoken_head(entries, entries.len());
        if entries[0].0 == k {
            assert(after.skip(1) =~= rest);
            if is_prose(k) {
                assert(got =~= kept);
            } else {
                assert(kept.skip(1) =~= tail);
                assert(got =~= set_entry(kept, k, without_prose(v)));
            }
        } else {
            lemma_spoken_set(rest, k, v);
            let on = set_entry(rest, k, v);
            assert(after.skip(1) =~= on);
            assert(got =~= left_of(entries[0]) + spoken(on, on.len()));
            if is_prose(entries[0].0) {
                assert(kept =~= tail);
                assert(got =~= spoken(on, on.len()));
            } else {
                assert(kept.skip(1) =~= tail);
                if is_prose(k) {
                    assert(got =~= kept);
                } else {
                    assert(got =~= set_entry(kept, k, without_prose(v)));
                }
            }
        }
    }
}

/// To choose from what is left without prose is to take the prose from what was
/// chosen.
proof fn lemma_chosen_spoken(entries: Seq<(Seq<char>, TreeView)>, keys: Seq<Seq<char>>)
    ensures
        chosen(spoken(entries, entries.len()), keys) == spoken(
            chosen(entries, keys),
            chosen(entries, keys).len(),
        ),
    decreases keys.len(),
{
    if keys.len() > 0 {
        let last = keys.last();
        let kept = chosen(entries, keys.drop_last());
        lemma_chosen_spoken(entries, keys.drop_last());
        lemma_spoken_entry(entries, last);
        if let Some(v) = entry(entries, last) {
            lemma_spoken_set(kept, last, v);
        }
    } else {
        assert(chosen(entries, keys) =~= seq![]);
    }
}

/// To shape a result twice in the same way is to shape it once.
pub proof fn law_shaping_is_idempotent(t: TreeView, only: Option<Seq<Seq<char>>>, compact: bool)
    ensures
        shaped(shaped(t, only, compact), only, compact) == shaped(t, only, compact),
{
    if let (Some(keys), TreeView::Table(entries)) = (only, t) {
        if keys.len() > 0 {
            let some = chosen(entries, keys);
            lemma_chosen_again(entries, keys);
            if compact {
                lemma_chosen_spoken(some, keys);
                law_compact_is_idempotent(TreeView::Table(some));
            }
        } else if compact {
            law_compact_is_idempotent(t);
        }
    } else if compact {
        law_compact_is_idempotent(t);
    }
}

// ---------------------------------------------------------------------------
// Lists of keys
// ---------------------------------------------------------------------------

/// A key as a list of keys gives it: trimmed, not empty, without commas.
pub open spec fn is_key(k: Seq<char>) -> bool {
    k.len() > 0 && trim(k) == k && !k.contains(',')
}

/// Nothing but commas and white space.
pub open spec fn names_nothing(s: Seq<char>) -> bool {
    forall|i: int| 0 <= i < s.len() ==> is_space(#[trigger] s[i]) || s[i] == ','
}

proof fn lemma_split_parts(s: Seq<char>)
    ensures
        split(s, ',').len() > 0,
        forall|i: int| 0 <= i < split(s, ',').len() ==> !(#[trigger] split(s, ',')[i]).contains(','),
        names_nothing(s) <==> forall|i: int|
            0 <= i < split(s, ',').len() ==> trim(#[trigger] split(s, ',')[i]).len() == 0,
    decreases s.len(),
{
    let n = run(s, CharClass::Not(',')) as int;
    lemma_run(s, CharClass::Not(','));
    let parts = split(s, ',');
    let head = s.take(n);
    lemma_trim(head);
    assert(!head.contains(',')) by {
        if head.contains(',') {
            let i = choose|i: int| 0 <= i < head.len() && head[i] == ',';
            assert(in_class(CharClass::Not(','), s[i]));
        }
    }
    assert forall|i: int| 0 <= i < n implies s[i] != ',' && #[trigger] s[i] == head[i] by {
        assert(in_class(CharClass::Not(','), s[i]));
    }
    if n < s.len() {
        let rest = s.skip(n + 1);
        let more = split(rest, ',');
        lemma_split_parts(rest);
        assert(s[n] == ',');
        assert(parts[0] == head);
        assert forall|i: int| 0 <= i < parts.len() implies !(#[trigger] parts[i]).contains(',') by {
            if i > 0 {
                assert(parts[i] == more[i - 1]);
            }
        }
        if names_nothing(s) {
            assert forall|i: int| 0 <= i < head.len() implies is_space(#[trigger] head[i]) by {
                assert(s[i] == head[i]);
            }
            assert(names_nothing(rest)) by {
                assert forall|i: int| 0 <= i < rest.len() implies is_space(#[trigger] rest[i])
                    || rest[i] == ',' by {
                    assert(rest[i] == s[i + n + 1]);
                }
            }
            assert forall|i: int| 0 <= i < parts.len() implies trim(#[trigger] parts[i]).len() == 0 by {
                if i > 0 {
                    assert(parts[i] == more[i - 1]);
                }
            }
        }
        if forall|i: int| 0 <= i < parts.len() ==> trim(#[trigger] parts[i]).len() == 0 {
            assert(trim(parts[0]).len() == 0);
            assert forall|i: int| 0 <= i < more.len() implies trim(#[trigger] more[i]).len() == 0 by {
                assert(parts[i + 1] == more[i]);
            }
            assert forall|i: int| 0 <= i < s.len() implies is_space(#[trigger] s[i]) || s[i] == ',' by {
                if i < n {
                    assert(is_space(head[i]));
                } else if i > n {
                    assert(rest[i - n - 1] == s[i]);
                }
            }
        }
    } else {
        assert(head =~= s);
        assert(parts =~= seq![s]);
        if names_nothing(s) {
            assert forall|i: int| 0 <= i < s.len() implies is_space(#[trigger] s[i]) by {
                assert(s[i] == head[i]);
            }
            assert forall|i: int| 0 <= i < parts.len() implies trim(#[trigger] parts[i]).len() == 0 by {}
        }
        if forall|i: int| 0 <= i < parts.len() ==> trim(#[trigger] parts[i]).len() == 0 {
            assert(trim(parts[0]).len() == 0);
        }
    }
}

proof fn lemma_named_keys(parts: Seq<Seq<char>>)
    requires
        forall|i: int| 0 <= i < parts.len() ==> !(#[trigger] parts[i]).contains(','),
    ensures
        forall|i: int|
            0 <= i < parts.filter_map(each_key()).len() ==> is_key(
                #[trigger] parts.filter_map(each_key())[i],
            ),
        parts.filter_map(each_key()).len() == 0 <==> forall|i: int|
            0 <= i < parts.len() ==> trim(#[trigger] parts[i]).len() == 0,
    decreases parts.len(),
{
    let f = each_key();
    let r = parts.filter_map(f);
    if parts.len() == 0 {
        reveal(Seq::filter_map);
    } else {
        let front = parts.drop_last();
        let last = parts.last();
        parts.lemma_filter_map_take_succ(f, parts.len() - 1);
        assert(parts.take(parts.len() as int) =~= parts);
        assert(parts.take(parts.len() - 1) =~= front);
        assert forall|i: int| 0 <= i < front.len() implies !(#[trigger] front[i]).contains(',') by {
            assert(front[i] == parts[i]);
        }
        lemma_named_keys(front);
        let before = front.filter_map(f);
        assert(parts[parts.len() - 1] == last);
        lemma_trim(last);
        if trim(last).len() > 0 {
            lemma_trim_stays(trim(last));
            assert(!trim(last).contains(',')) by {
                if trim(last).contains(',') {
                    let i = choose|i: int| 0 <= i < trim(last).len() && trim(last)[i] == ',';
                    assert(last[i + run(last, CharClass::Space) as int] == ',');
                }
            }
            assert(r =~= before.push(trim(last)));
            assert forall|i: int| 0 <= i < r.len() implies is_key(#[trigger] r[i]) by {
                if i < before.len() {
                    assert(r[i] == before[i]);
                }
            }
        } else {
            assert(r =~= before);
            if r.len() == 0 {
                assert forall|i: int| 0 <= i < parts.len() implies trim(#[trigger] parts[i]).len()
                    == 0 by {
                    if i < front.len() {
                        assert(front[i] == parts[i]);
                    }
                }
            }
        }
        if forall|i: int| 0 <= i < parts.len() ==> trim(#[trigger] parts[i]).len() == 0 {
            assert forall|i: int| 0 <= i < front.len() implies trim(#[trigger] front[i]).len() == 0 by {
                assert(front[i] == parts[i]);
            }
        }
    }
}

proof fn lemma_split_one_more(a: Seq<char>, b: Seq<char>)
    requires
        !b.contains(','),
    ensures
        split(a + seq![','] + b, ',') == split(a, ',').push(b),
    decreases a.len(),
{
    let s = a + seq![','] + b;
    let n = run(a, CharClass::Not(',')) as int;
    lemma_run(a, CharClass::Not(','));
    let m = run(s, CharClass::Not(',')) as int;
    lemma_run(s, CharClass::Not(','));
    assert(m == n) by {
        if m < n {
            assert(s[m] == a[m]);
            assert(in_class(CharClass::Not(','), a[m]));
        }
        if m > n {
            assert(in_class(CharClass::Not(','), s[n]));
            if n < a.len() {
                assert(s[n] == a[n]);
            } else {
                assert(s[n] == ',');
            }
        }
    }
    assert(s.take(m) =~= a.take(n));
    if n < a.len() {
        assert(s.skip(n + 1) =~= a.skip(n + 1) + seq![','] + b);
        lemma_split_one_more(a.skip(n + 1), b);
        assert(split(s, ',') =~= split(a, ',').push(b));
    } else {
        assert(s.skip(n + 1) =~= b);
        let k = run(b, CharClass::Not(',')) as int;
        lemma_run(b, CharClass::Not(','));
        if k < b.len() {
            assert(b[k] == ',');
            assert(b.contains(','));
        }
        assert(split(b, ',') =~= seq![b]);
        assert(a.take(n) =~= a);
        assert(split(s, ',') =~= split(a, ',').push(b));
    }
}

proof fn lemma_join_split(keys: Seq<Seq<char>>)
    requires
        keys.len() > 0,
        forall|i: int| 0 <= i < keys.len() ==> is_key(#[trigger] keys[i]),
    ensures
        split(join(keys, ","@), ',') == keys,
        join(keys, ","@).len() > 0,
        join(keys, ","@)[0] == keys[0][0],
        join(keys, ","@).last() == keys.last().last(),
    decreases keys.len(),
{
    reveal_strlit(",");
    assert(","@ =~= seq![',']);
    let last = keys.last();
    assert(is_key(keys[keys.len() - 1]));
    if keys.len() == 1 {
        let k = run(last, CharClass::Not(',')) as int;
        lemma_run(last, CharClass::Not(','));
        if k < last.len() {
            assert(last[k] == ',');
            assert(last.contains(','));
        }
        assert(split(last, ',') =~= seq![last]);
        assert(keys =~= seq![last]);
    } else {
        let front = keys.drop_last();
        assert forall|i: int| 0 <= i < front.len() implies is_key(#[trigger] front[i]) by {
            assert(front[i] == keys[i]);
        }
        lemma_join_split(front);
        lemma_split_one_more(join(front, ","@), last);
        assert(keys =~= front.push(last));
    }
}

proof fn lemma_keys_stay(keys: Seq<Seq<char>>)
    requires
        forall|i: int| 0 <= i < keys.len() ==> is_key(#[trigger] keys[i]),
    ensures
        keys.filter_map(each_key()) == keys,
    decreases keys.len(),
{
    let f = each_key();
    if keys.len() == 0 {
        reveal(Seq::filter_map);
        assert(keys.filter_map(f) =~= keys);
    } else {
        let front = keys.drop_last();
        keys.lemma_filter_map_take_succ(f, keys.len() - 1);
        assert(keys.take(keys.len() as int) =~= keys);
        assert(keys.take(keys.len() - 1) =~= front);
        assert forall|i: int| 0 <= i < front.len() implies is_key(#[trigger] front[i]) by {
            assert(front[i] == keys[i]);
        }
        lemma_keys_stay(front);
        assert(is_key(keys[keys.len() - 1]));
        assert(keys.filter_map(f) =~= keys);
    }
}

/// A list of keys names none exactly where it holds nothing but commas and white
/// space. The keys that it names are trimmed, not empty and free of commas, and
/// with commas between them they are read again as the same keys.
pub proof fn law_keys_are_read_again(s: Seq<char>)
    ensures
        keys_in(s) is None <==> names_nothing(s),
        keys_in(s) matches Some(keys) ==> {
            &&& keys.len() > 0
            &&& forall|i: int| 0 <= i < keys.len() ==> is_key(#[trigger] keys[i])
            &&& keys_in(join(keys, ","@)) == Some(keys)
        },
{
    let t = trim(s);
    lemma_trim(s);
    let from = run(s, CharClass::Space) as int;
    assert(names_nothing(s) <==> names_nothing(t)) by {
        if names_nothing(s) {
            assert forall|i: int| 0 <= i < t.len() implies is_space(#[trigger] t[i]) || t[i] == ',' by {
                assert(t[i] == s[from + i]);
            }
        }
        if names_nothing(t) {
            assert forall|i: int| 0 <= i < s.len() implies is_space(#[trigger] s[i]) || s[i] == ',' by {
                if from <= i < from + t.len() {
                    assert(t[i - from] == s[i]);
                }
            }
        }
    }
    lemma_split_parts(t);
    lemma_named_keys(split(t, ','));
    if let Some(keys) = keys_in(s) {
        lemma_join_split(keys);
        let again = join(keys, ","@);
        assert(is_key(keys[0]));
        assert(is_key(keys[keys.len() - 1]));
        lemma_trim(keys[0]);
        lemma_trim(keys.last());
        lemma_trim_stays(again);
        lemma_keys_stay(keys);
    }
}

} // verus!
