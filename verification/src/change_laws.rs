//! What every judgement on a patch satisfies, said of the texts and paths of the
//! patch and of the judgement alone.
use vstd::prelude::*;
use crate::extract::declared;
use crate::model::{DeclFragmentView, IndexView};
use crate::mutation::{
    all_changes, breach_of, breaches, change_of, compared, dependents_of, doubts, each_change,
    each_concept, each_doubt, each_governing_id, each_importer, each_other_file, each_placed,
    each_relationship, each_route, each_seen_key, each_supplied, each_symbol, each_symbol_name,
    each_unknown, earlier_path, evaluated, is_covered, is_documentation, is_protected,
    is_test_segment, is_test_source, judged, key_of, keyed, later_path, lemma_breach_at, link_names,
    move_doubt, needs_decision, objects_in, ordered_fragment, placed, repeated, settings_from,
    spelled_names, supplied_in, targets_in, things_in, with_importers, BreachView, EvaluationView,
    MutationKind, MutationView, ObservationView, SeenView, SnapshotView, ThingView,
};
use crate::patch::FileChangeView;
use crate::paths::extension;
use crate::query::lemma_kept_by_filter_map;
use crate::scan::{is_excluded, is_within};
use crate::structural::{GraphView, ImportView};
use crate::table::{
    has_key, insert_last, lemma_put, lemma_sorted_set, lookup, ordered, sorted, sorted_set,
};
use crate::text::{
    before, contains, ends_with, find_from, lemma_find_from, occurs_at, split, starts_with,
    trim_end_of, CharClass,
};

verus! {

// ---------------------------------------------------------------------------
// Objects of a text
// ---------------------------------------------------------------------------

proof fn lemma_keyed_ordered(list: Seq<SeenView>)
    ensures
        ordered(keyed(list)),
    decreases list.len(),
{
    if list.len() > 0 {
        lemma_keyed_ordered(list.drop_last());
        lemma_put(keyed(list.drop_last()), key_of(list.last().thing), list.last());
    }
}

proof fn lemma_keyed_last(list: Seq<SeenView>, i: int)
    requires
        0 <= i < list.len(),
        forall|j: int|
            i < j < list.len() ==> key_of((#[trigger] list[j]).thing) != key_of(list[i].thing),
    ensures
        lookup(keyed(list), key_of(list[i].thing)) == Some(list[i]),
        has_key(keyed(list), key_of(list[i].thing)),
    decreases list.len(),
{
    let front = list.drop_last();
    lemma_keyed_ordered(front);
    lemma_put(keyed(front), key_of(list.last().thing), list.last());
    if i < list.len() - 1 {
        assert(key_of(list[list.len() - 1].thing) != key_of(list[i].thing));
        assert forall|j: int| i < j < front.len() implies key_of((#[trigger] front[j]).thing)
            != key_of(front[i].thing) by {
            assert(front[j] == list[j]);
        }
        lemma_keyed_last(front, i);
    }
}

proof fn lemma_keyed_none(list: Seq<SeenView>, k: Seq<char>)
    requires
        forall|j: int| 0 <= j < list.len() ==> key_of((#[trigger] list[j]).thing) != k,
    ensures
        !has_key(keyed(list), k),
        lookup(keyed(list), k) is None,
    decreases list.len(),
{
    if list.len() > 0 {
        let front = list.drop_last();
        assert forall|j: int| 0 <= j < front.len() implies key_of((#[trigger] front[j]).thing)
            != k by {
            assert(front[j] == list[j]);
        }
        lemma_keyed_none(front, k);
        lemma_keyed_ordered(front);
        assert(key_of(list[list.len() - 1].thing) != k);
        lemma_put(keyed(front), key_of(list.last().thing), list.last());
    }
}

/// The key of a concept tells its name, and nothing but a concept bears it.
proof fn lemma_concept_key(d: DeclFragmentView, t: ThingView)
    ensures
        key_of(t) == key_of(ThingView::Concept(d)) <==> (t matches ThingView::Concept(x) && x.name
            == d.name),
{
    reveal_strlit("concept");
    reveal_strlit("symbol");
    reveal_strlit("relationship");
    reveal_strlit("route");
    reveal_strlit("::");
    let a = key_of(t);
    let b = key_of(ThingView::Concept(d));
    assert(b[0] == 'c');
    assert(b.skip(9) =~= d.name);
    match t {
        ThingView::Concept(x) => {
            assert(a.skip(9) =~= x.name);
        },
        ThingView::Symbol(_) => {
            assert(a[0] == 's');
        },
        ThingView::Relationship(_, _) => {
            assert(a[0] == 'r');
        },
        ThingView::Route(_) => {
            assert(a[0] == 'r');
        },
    }
}

/// The last declaration of a name in a list stands at `i`.
pub open spec fn is_last_named(decls: Seq<DeclFragmentView>, name: Seq<char>, i: int) -> bool {
    &&& 0 <= i < decls.len()
    &&& decls[i].name == name
    &&& forall|j: int| i < j < decls.len() ==> (#[trigger] decls[j]).name != name
}

/// A text that is not empty declares a name.
pub open spec fn declares(path: Seq<char>, text: Seq<char>, name: Seq<char>) -> bool {
    text.len() > 0 && exists|i: int|
        0 <= i < declared(path, text).decls.len() && (#[trigger] declared(path, text).decls[i]).name
            == name
}

/// The declaration of a name in a text: its last one.
pub open spec fn declaration(path: Seq<char>, text: Seq<char>, name: Seq<char>) -> DeclFragmentView {
    let decls = declared(path, text).decls;
    decls[choose|i: int| is_last_named(decls, name, i)]
}

proof fn lemma_some_last(decls: Seq<DeclFragmentView>, name: Seq<char>, i: int)
    requires
        0 <= i < decls.len(),
        decls[i].name == name,
    ensures
        exists|k: int| is_last_named(decls, name, k),
    decreases decls.len() - i,
{
    if exists|j: int| i < j < decls.len() && (#[trigger] decls[j]).name == name {
        let j = choose|j: int| i < j < decls.len() && (#[trigger] decls[j]).name == name;
        lemma_some_last(decls, name, j);
    } else {
        assert(is_last_named(decls, name, i));
    }
}

pub open spec fn concept_key(name: Seq<char>) -> Seq<char> {
    "concept"@ + "::"@ + name
}

/// A declared name is an object of its text, as its last declaration has it.
proof fn lemma_declared_object(path: Seq<char>, text: Seq<char>, s: SnapshotView, name: Seq<char>)
    requires
        declares(path, text, name),
    ensures
        lookup(objects_in(path, text, s), concept_key(name)) == Some(
            SeenView {
                name,
                thing: ThingView::Concept(ordered_fragment(declaration(path, text, name))),
            },
        ),
        has_key(objects_in(path, text, s), concept_key(name)),
        declaration(path, text, name).name == name,
{
    let decls = declared(path, text).decls;
    let w = choose|i: int| 0 <= i < decls.len() && (#[trigger] decls[i]).name == name;
    lemma_some_last(decls, name, w);
    let i = choose|i: int| is_last_named(decls, name, i);
    let list = things_in(path, text, s);
    let concepts = decls.map_values(each_concept());
    assert(list[i] == concepts[i]);
    let d = ordered_fragment(decls[i]);
    assert(list[i].thing == ThingView::Concept(d));
    assert forall|j: int| i < j < list.len() implies key_of((#[trigger] list[j]).thing) != key_of(
        list[i].thing,
    ) by {
        lemma_concept_key(d, list[j].thing);
        if j < decls.len() {
            assert(list[j] == concepts[j]);
            assert(decls[j].name != name);
        } else {
            assert(list[j].thing !is Concept) by {
                lemma_others(path, text, s, j);
            }
        }
    }
    lemma_keyed_last(list, i);
    assert(key_of(list[i].thing) =~= concept_key(name));
}

proof fn lemma_others(path: Seq<char>, text: Seq<char>, s: SnapshotView, j: int)
    requires
        declared(path, text).decls.len() <= j < things_in(path, text, s).len(),
    ensures
        things_in(path, text, s)[j].thing !is Concept,
{
    let a = declared(path, text).decls.map_values(each_concept());
    let b = s.symbols.map_values(each_symbol());
    let c = s.imports.map_values(each_relationship(path));
    let d = s.routes.map_values(each_route(path));
    let list = things_in(path, text, s);
    if j < a.len() + b.len() {
        assert(list[j] == b[j - a.len()]);
    } else if j < a.len() + b.len() + c.len() {
        assert(list[j] == c[j - a.len() - b.len()]);
    } else {
        assert(list[j] == d[j - a.len() - b.len() - c.len()]);
    }
}

/// A name that a text does not declare is no concept of it.
proof fn lemma_undeclared_object(path: Seq<char>, text: Seq<char>, s: SnapshotView, name: Seq<char>)
    requires
        !declares(path, text, name),
    ensures
        lookup(objects_in(path, text, s), concept_key(name)) is None,
{
    if text.len() > 0 {
        let decls = declared(path, text).decls;
        let list = things_in(path, text, s);
        let concepts = decls.map_values(each_concept());
        let probe = DeclFragmentView {
            name,
            kind: seq![],
            fields: seq![],
            relations: seq![],
            table: None,
        };
        assert(key_of(ThingView::Concept(probe)) =~= concept_key(name));
        assert forall|j: int| 0 <= j < list.len() implies key_of((#[trigger] list[j]).thing)
            != concept_key(name) by {
            lemma_concept_key(probe, list[j].thing);
            if j < decls.len() {
                assert(list[j] == concepts[j]);
                assert(decls[j].name != name);
            } else {
                lemma_others(path, text, s, j);
            }
        }
        lemma_keyed_none(list, concept_key(name));
    }
}

// ---------------------------------------------------------------------------
// Declarations that differ
// ---------------------------------------------------------------------------

proof fn lemma_insert_last_keeps(s: Seq<Seq<char>>, x: Seq<char>)
    ensures
        insert_last(s, x).to_multiset() =~= s.push(x).to_multiset(),
    decreases s.len(),
{
    broadcast use vstd::seq_lib::group_to_multiset_ensures;

    if s.len() > 0 && !before(x, s[0]) {
        let rest = s.skip(1);
        lemma_insert_last_keeps(rest, x);
        vstd::seq_lib::lemma_multiset_commutative(seq![s[0]], insert_last(rest, x));
        vstd::seq_lib::lemma_multiset_commutative(seq![s[0]], rest);
        assert(s =~= seq![s[0]] + rest);
    } else if s.len() > 0 {
        vstd::seq_lib::lemma_multiset_commutative(seq![x], s);
        assert(s.push(x) =~= s + seq![x]);
        vstd::seq_lib::lemma_multiset_commutative(s, seq![x]);
    } else {
        assert(s.push(x) =~= seq![x]);
    }
}

/// To put a list in order changes nothing of what it holds.
pub proof fn law_ordering_keeps_everything(s: Seq<Seq<char>>)
    ensures
        sorted(s).to_multiset() =~= s.to_multiset(),
    decreases s.len(),
{
    broadcast use vstd::seq_lib::group_to_multiset_ensures;

    if s.len() > 0 {
        law_ordering_keeps_everything(s.drop_last());
        lemma_insert_last_keeps(sorted(s.drop_last()), s.last());
        assert(s =~= s.drop_last().push(s.last()));
    }
}

/// Two declarations say different things, whatever the order of their lists.
pub open spec fn differ(a: DeclFragmentView, b: DeclFragmentView) -> bool {
    ||| a.name != b.name
    ||| a.kind != b.kind
    ||| a.table != b.table
    ||| a.fields.to_multiset() != b.fields.to_multiset()
    ||| a.relations.to_multiset() != b.relations.to_multiset()
}

proof fn lemma_differ(a: DeclFragmentView, b: DeclFragmentView)
    requires
        differ(a, b),
    ensures
        ordered_fragment(a) != ordered_fragment(b),
{
    law_ordering_keeps_everything(a.fields);
    law_ordering_keeps_everything(b.fields);
    law_ordering_keeps_everything(a.relations);
    law_ordering_keeps_everything(b.relations);
}

// ---------------------------------------------------------------------------
// From one file to the whole patch
// ---------------------------------------------------------------------------

proof fn lemma_all_changes(graph: GraphView, list: Seq<ObservationView>, o: int, m: MutationView)
    requires
        0 <= o < list.len(),
        compared(
            list[o].change,
            list[o].before,
            list[o].after,
            spelled_names(list[o].change.before),
            spelled_names(list[o].change.after),
            dependents_of(graph, earlier_path(list[o].change)),
        ).contains(m),
    ensures
        all_changes(graph, list).contains(m),
    decreases list.len(),
{
    let front = all_changes(graph, list.drop_last());
    let x = list.last();
    let here = compared(
        x.change,
        x.before,
        x.after,
        spelled_names(x.change.before),
        spelled_names(x.change.after),
        dependents_of(graph, earlier_path(x.change)),
    );
    let all = all_changes(graph, list);
    assert(all == front + here);
    if o < list.len() - 1 {
        assert(list.drop_last()[o] == list[o]);
        lemma_all_changes(graph, list.drop_last(), o, m);
        let k = choose|k: int| 0 <= k < front.len() && front[k] == m;
        assert(all[k] == m);
    } else {
        let k = choose|k: int| 0 <= k < here.len() && here[k] == m;
        assert(all[front.len() + k] == m);
    }
}

proof fn lemma_no_settings(list: Seq<ObservationView>, i: int)
    requires
        0 <= i,
        forall|j: int|
            0 <= j < list.len() ==> (#[trigger] list[j]).change.after_path != Some(
                "archietect.toml"@,
            ),
    ensures
        settings_from(list, i) is None,
    decreases list.len() - i,
{
    if i < list.len() {
        lemma_no_settings(list, i + 1);
    }
}

/// The change of an object that its file's two texts show differently.
proof fn lemma_changed_object(
    c: FileChangeView,
    bs: SnapshotView,
    s: SnapshotView,
    b_spelled: Seq<Seq<char>>,
    a_spelled: Seq<Seq<char>>,
    deps: Seq<Seq<char>>,
    k: Seq<char>,
)
    requires
        !is_documentation(later_path(c)),
        later_path(c) != "archietect.toml"@,
        ({
            let b = lookup(objects_in(earlier_path(c), c.before, bs), k);
            let a = lookup(objects_in(later_path(c), c.after, s), k);
            b != a
        }),
    ensures
        ({
            let b = lookup(objects_in(earlier_path(c), c.before, bs), k);
            let a = lookup(objects_in(later_path(c), c.after, s), k);
            let m = change_of(later_path(c), b, a, deps);
            m is Some && compared(c, bs, s, b_spelled, a_spelled, deps).contains(m->Some_0)
        }),
{
    let path = later_path(c);
    let bo = objects_in(earlier_path(c), c.before, bs);
    let ao = objects_in(path, c.after, s);
    let bk = bo.map_values(each_seen_key());
    let ak = ao.map_values(each_seen_key());
    let keys = sorted_set(bk + ak);
    lemma_sorted_set(bk + ak);
    assert((bk + ak).contains(k)) by {
        if has_key(bo, k) {
            let i = choose|i: int| 0 <= i < bo.len() && #[trigger] bo[i].0 == k;
            assert((bk + ak)[i] == k);
        } else {
            let i = choose|i: int| 0 <= i < ao.len() && #[trigger] ao[i].0 == k;
            assert((bk + ak)[bk.len() + i] == k);
        }
    }
    assert(keys.contains(k));
    let n = choose|n: int| 0 <= n < keys.len() && keys[n] == k;
    let f = each_change(path, bo, ao, deps);
    lemma_kept_by_filter_map(keys, f, n);
    let m = f(k)->Some_0;
    let mid = keys.filter_map(f);
    let reasons = sorted_set(
        doubts(earlier_path(c), c.before, bs, b_spelled) + doubts(path, c.after, s, a_spelled),
    ).map_values(each_unknown(path));
    let whole = compared(c, bs, s, b_spelled, a_spelled, deps);
    assert(whole == reasons + mid + move_doubt(c));
    let p = choose|p: int| 0 <= p < mid.len() && mid[p] == m;
    assert(whole[reasons.len() + p] == m);
}

/// Where a mutation of a patch ends up in the judgement on it.
proof fn lemma_judged_at(
    idx: IndexView,
    graph: GraphView,
    list: Seq<ObservationView>,
    m: MutationView,
) -> (k: int)
    requires
        all_changes(graph, list).contains(m),
    ensures
        ({
            let e = evaluated(idx, graph, Ok(list));
            let x = e.mutations[k];
            &&& 0 <= k < e.mutations.len()
            &&& x.resource == m.resource
            &&& x.file == m.file
            &&& x.object == m.object
            &&& x.kind == m.kind
            &&& x.before == m.before
            &&& x.after == m.after
            &&& x.decision_required == needs_decision(idx, m)
            &&& x.decision_required && x.kind != MutationKind::Unknown && x.supplied_decisions.len()
                == 0 ==> e.violations.contains(BreachView::Undecided(k))
            &&& x.decision_required && x.kind == MutationKind::Unknown ==> e.violations.contains(
                BreachView::Unknown(k),
            )
            &&& (forall|j: int|
                0 <= j < list.len() ==> (#[trigger] list[j]).change.after_path != Some(
                    "archietect.toml"@,
                )) ==> x.supplied_decisions.len() == 0
        }),
{
    let all = all_changes(graph, list);
    let k = choose|k: int| 0 <= k < all.len() && all[k] == m;
    let changes = placed(idx, graph, list);
    assert(changes[k] == each_placed(idx)(all[k]));
    let supplied = supplied_in(list, targets_in(changes), idx.aliases);
    let given = match supplied {
        Ok(g) => g,
        Err(_) => seq![],
    };
    let e = evaluated(idx, graph, Ok(list));
    assert(e == judged(idx, changes, supplied));
    assert(e.mutations[k] == each_supplied(given)(changes[k]));
    let x = e.mutations[k];
    if x.decision_required && (x.kind == MutationKind::Unknown || x.supplied_decisions.len() == 0) {
        lemma_breach_at(e.mutations, e.mutations.len() as int, k);
        let b = breach_of(x, k)->Some_0;
        let list_of = breaches(e.mutations, e.mutations.len() as int);
        let n = choose|n: int| 0 <= n < list_of.len() && list_of[n] == b;
        let fault = match supplied {
            Ok(_) => seq![],
            Err(r) => if idx.decision_required_paths.len() > 0 {
                seq![BreachView::InvalidUpdate(r)]
            } else {
                seq![]
            },
        };
        assert(e.violations == fault + list_of);
        assert(e.violations[fault.len() + n] == b);
    }
    if forall|j: int|
        0 <= j < list.len() ==> (#[trigger] list[j]).change.after_path != Some("archietect.toml"@) {
        lemma_no_settings(list, 0);
        assert(given =~= seq![]);
        assert(!has_key(given, x.resource));
    }
    k
}

/// The paths of a change before and after: a new file lies before where it lies
/// after, and a removed one after where it lay before.
pub open spec fn lies_at(c: FileChangeView, old_path: Seq<char>, path: Seq<char>) -> bool {
    &&& c.after_path == Some(path) || (c.after_path is None && c.before_path == Some(path))
    &&& c.before_path == Some(old_path) || (c.before_path is None && old_path == path)
}

/// A judgement tells of a concept that it was changed in a file and needs a
/// decision, and stops the patch for it where none was supplied.
pub open spec fn is_held_to_account(
    e: EvaluationView,
    name: Seq<char>,
    path: Seq<char>,
    kind: MutationKind,
    k: int,
) -> bool {
    &&& 0 <= k < e.mutations.len()
    &&& e.mutations[k].resource == name
    &&& e.mutations[k].file == path
    &&& e.mutations[k].object == "concept"@
    &&& e.mutations[k].kind == kind
    &&& e.mutations[k].decision_required
    &&& e.mutations[k].supplied_decisions.len() == 0 ==> e.violations.contains(
        BreachView::Undecided(k),
    )
}

/// A concept that a patch declares, takes away or declares differently on a path
/// that asks for decisions is told of and needs one. A patch that leaves the
/// settings alone brings none, and is stopped.
pub proof fn law_no_concept_changes_undecided(
    idx: IndexView,
    graph: GraphView,
    list: Seq<ObservationView>,
    o: int,
    old_path: Seq<char>,
    path: Seq<char>,
    name: Seq<char>,
) -> (k: int)
    requires
        0 <= o < list.len(),
        lies_at(list[o].change, old_path, path),
        is_protected(idx, path),
        !is_test_source(path),
        !is_documentation(path),
        path != "archietect.toml"@,
        ({
            let was = declares(old_path, list[o].change.before, name);
            let now = declares(path, list[o].change.after, name);
            ||| was != now
            ||| was && now && differ(
                declaration(old_path, list[o].change.before, name),
                declaration(path, list[o].change.after, name),
            )
        }),
    ensures
        ({
            let was = declares(old_path, list[o].change.before, name);
            let now = declares(path, list[o].change.after, name);
            let e = evaluated(idx, graph, Ok(list));
            let kind = if !was {
                MutationKind::Added
            } else if !now {
                MutationKind::Removed
            } else {
                MutationKind::Modified
            };
            &&& is_held_to_account(e, name, path, kind, k)
            &&& (forall|j: int|
                0 <= j < list.len() ==> (#[trigger] list[j]).change.after_path != Some(
                    "archietect.toml"@,
                )) ==> e.violations.contains(BreachView::Undecided(k))
        }),
{
    let c = list[o].change;
    let was = declares(old_path, c.before, name);
    let now = declares(path, c.after, name);
    assert(later_path(c) == path);
    assert(earlier_path(c) == old_path);
    let bs = list[o].before;
    let s = list[o].after;
    if was {
        lemma_declared_object(old_path, c.before, bs, name);
    } else {
        lemma_undeclared_object(old_path, c.before, bs, name);
    }
    if now {
        lemma_declared_object(path, c.after, s, name);
    } else {
        lemma_undeclared_object(path, c.after, s, name);
    }
    if was && now {
        lemma_differ(declaration(old_path, c.before, name), declaration(path, c.after, name));
    }
    let key = concept_key(name);
    let b = lookup(objects_in(old_path, c.before, bs), key);
    let a = lookup(objects_in(path, c.after, s), key);
    assert(b != a);
    let deps = dependents_of(graph, old_path);
    lemma_changed_object(
        c,
        bs,
        s,
        spelled_names(c.before),
        spelled_names(c.after),
        deps,
        key,
    );
    let m = change_of(path, b, a, deps)->Some_0;
    lemma_all_changes(graph, list, o, m);
    lemma_judged_at(idx, graph, list, m)
}

// ---------------------------------------------------------------------------
// Other objects
// ---------------------------------------------------------------------------

/// A text that is not empty shows a symbol.
pub open spec fn shows_symbol(text: Seq<char>, s: SnapshotView, name: Seq<char>) -> bool {
    text.len() > 0 && exists|i: int|
        0 <= i < s.symbols.len() && (#[trigger] s.symbols[i]).name == name
}

pub open spec fn symbol_key(name: Seq<char>) -> Seq<char> {
    "symbol"@ + "::"@ + name
}

proof fn lemma_symbol_key(name: Seq<char>, t: ThingView)
    ensures
        key_of(t) == symbol_key(name) <==> (t matches ThingView::Symbol(x) && x.name == name),
{
    reveal_strlit("concept");
    reveal_strlit("symbol");
    reveal_strlit("relationship");
    reveal_strlit("route");
    reveal_strlit("::");
    let a = key_of(t);
    let b = symbol_key(name);
    assert(b[0] == 's');
    assert(b.skip(8) =~= name);
    match t {
        ThingView::Concept(_) => {
            assert(a[0] == 'c');
        },
        ThingView::Symbol(x) => {
            assert(a.skip(8) =~= x.name);
        },
        ThingView::Relationship(_, _) => {
            assert(a[0] == 'r');
        },
        ThingView::Route(_) => {
            assert(a[0] == 'r');
        },
    }
}

proof fn lemma_key_found(list: Seq<SeenView>, k: Seq<char>, i: int)
    requires
        0 <= i < list.len(),
        key_of(list[i].thing) == k,
    ensures
        lookup(keyed(list), k) matches Some(x) && key_of(x.thing) == k && list.contains(x),
    decreases list.len() - i,
{
    if exists|j: int| i < j < list.len() && key_of((#[trigger] list[j]).thing) == k {
        let j = choose|j: int| i < j < list.len() && key_of((#[trigger] list[j]).thing) == k;
        lemma_key_found(list, k, j);
    } else {
        lemma_keyed_last(list, i);
    }
}

proof fn lemma_symbol_object(path: Seq<char>, text: Seq<char>, s: SnapshotView, name: Seq<char>)
    ensures
        match lookup(objects_in(path, text, s), symbol_key(name)) {
            Some(x) => shows_symbol(text, s, name) && x.name == name && x.thing is Symbol,
            None => !shows_symbol(text, s, name),
        },
{
    if text.len() > 0 {
        let list = things_in(path, text, s);
        let n = declared(path, text).decls.map_values(each_concept()).len();
        let k = symbol_key(name);
        if shows_symbol(text, s, name) {
            let i = choose|i: int| 0 <= i < s.symbols.len() && (#[trigger] s.symbols[i]).name
                == name;
            assert(list[n + i] == each_symbol()(s.symbols[i]));
            lemma_symbol_key(name, list[n + i].thing);
            lemma_key_found(list, k, n + i);
            let x = lookup(keyed(list), k)->Some_0;
            lemma_symbol_key(name, x.thing);
            let j = choose|j: int| 0 <= j < list.len() && list[j] == x;
            lemma_thing_at(path, text, s, j);
        } else {
            assert forall|j: int| 0 <= j < list.len() implies key_of((#[trigger] list[j]).thing)
                != k by {
                lemma_symbol_key(name, list[j].thing);
                lemma_thing_at(path, text, s, j);
            }
            lemma_keyed_none(list, k);
        }
    } else {
        assert(!has_key(objects_in(path, text, s), symbol_key(name)));
    }
}

/// Which object stands where among those of a text.
proof fn lemma_thing_at(path: Seq<char>, text: Seq<char>, s: SnapshotView, j: int)
    requires
        0 <= j < things_in(path, text, s).len(),
    ensures
        ({
            let x = things_in(path, text, s)[j];
            match x.thing {
                ThingView::Concept(_) => j < declared(path, text).decls.len(),
                ThingView::Symbol(y) => x.name == y.name && s.symbols.contains(y),
                ThingView::Relationship(_, _) => x.name == path && s.imports.len() > 0,
                ThingView::Route(y) => x.name == path && s.routes.contains(y),
            }
        }),
{
    let a = declared(path, text).decls.map_values(each_concept());
    let b = s.symbols.map_values(each_symbol());
    let c = s.imports.map_values(each_relationship(path));
    let d = s.routes.map_values(each_route(path));
    let list = things_in(path, text, s);
    if j < a.len() {
        assert(list[j] == a[j]);
    } else if j < a.len() + b.len() {
        assert(list[j] == b[j - a.len()]);
        assert(s.symbols.contains(s.symbols[j - a.len()]));
    } else if j < a.len() + b.len() + c.len() {
        assert(list[j] == c[j - a.len() - b.len()]);
    } else {
        assert(list[j] == d[j - a.len() - b.len() - c.len()]);
        assert(s.routes.contains(s.routes[j - a.len() - b.len() - c.len()]));
    }
}

/// A symbol that comes or goes with a patch is told of. It needs a decision
/// exactly where ten files or more depend on its file, on a path that asks for
/// decisions and holds no tests.
pub proof fn law_symbols_come_and_go(
    idx: IndexView,
    graph: GraphView,
    list: Seq<ObservationView>,
    o: int,
    old_path: Seq<char>,
    path: Seq<char>,
    name: Seq<char>,
) -> (k: int)
    requires
        0 <= o < list.len(),
        lies_at(list[o].change, old_path, path),
        !is_documentation(path),
        path != "archietect.toml"@,
        shows_symbol(list[o].change.before, list[o].before, name) != shows_symbol(
            list[o].change.after,
            list[o].after,
            name,
        ),
    ensures
        ({
            let e = evaluated(idx, graph, Ok(list));
            let m = e.mutations[k];
            &&& 0 <= k < e.mutations.len()
            &&& m.resource == path + "::"@ + name
            &&& m.file == path
            &&& m.object == "symbol"@
            &&& m.kind == (if shows_symbol(list[o].change.after, list[o].after, name) {
                MutationKind::Added
            } else {
                MutationKind::Removed
            })
            &&& m.decision_required <==> dependents_of(graph, old_path).len() >= 10 && is_protected(
                idx,
                path,
            ) && !is_test_source(path)
            &&& m.decision_required && m.supplied_decisions.len() == 0 ==> e.violations.contains(
                BreachView::Undecided(k),
            )
        }),
{
    let c = list[o].change;
    let bs = list[o].before;
    let s = list[o].after;
    assert(later_path(c) == path);
    assert(earlier_path(c) == old_path);
    lemma_symbol_object(old_path, c.before, bs, name);
    lemma_symbol_object(path, c.after, s, name);
    let key = symbol_key(name);
    let b = lookup(objects_in(old_path, c.before, bs), key);
    let a = lookup(objects_in(path, c.after, s), key);
    let deps = dependents_of(graph, old_path);
    lemma_changed_object(c, bs, s, spelled_names(c.before), spelled_names(c.after), deps, key);
    let m = change_of(path, b, a, deps)->Some_0;
    lemma_all_changes(graph, list, o, m);
    lemma_judged_at(idx, graph, list, m)
}

proof fn lemma_relation_key(t: ThingView)
    ensures
        key_of(t).len() > 2,
        t is Relationship ==> key_of(t)[1] == 'e' && key_of(t)[0] == 'r',
        t is Route ==> key_of(t)[1] == 'o' && key_of(t)[0] == 'r',
        t is Symbol ==> key_of(t)[0] == 's',
        t is Concept ==> key_of(t)[0] == 'c',
{
    reveal_strlit("concept");
    reveal_strlit("symbol");
    reveal_strlit("relationship");
    reveal_strlit("route");
    reveal_strlit("::");
}

/// The imports and routes of a file that a patch adds or removes as a whole are
/// told of, each as a relationship that came or went.
pub proof fn law_relationships_come_and_go(
    idx: IndexView,
    graph: GraphView,
    list: Seq<ObservationView>,
    o: int,
    old_path: Seq<char>,
    path: Seq<char>,
    of_routes: bool,
) -> (k: int)
    requires
        0 <= o < list.len(),
        lies_at(list[o].change, old_path, path),
        !is_documentation(path),
        path != "archietect.toml"@,
        (list[o].change.before.len() == 0) != (list[o].change.after.len() == 0),
        ({
            let s = if list[o].change.before.len() == 0 {
                list[o].after
            } else {
                list[o].before
            };
            if of_routes {
                s.routes.len() > 0
            } else {
                s.imports.len() > 0
            }
        }),
    ensures
        ({
            let e = evaluated(idx, graph, Ok(list));
            let m = e.mutations[k];
            &&& 0 <= k < e.mutations.len()
            &&& m.file == path
            &&& m.object == (if of_routes {
                "route"@
            } else {
                "relationship"@
            })
            &&& m.kind == (if list[o].change.before.len() == 0 {
                MutationKind::RelationshipAdded
            } else {
                MutationKind::RelationshipRemoved
            })
            &&& m.decision_required <==> dependents_of(graph, old_path).len() >= 10 && is_protected(
                idx,
                path,
            ) && !is_test_source(path)
            &&& m.decision_required && m.supplied_decisions.len() == 0 ==> e.violations.contains(
                BreachView::Undecided(k),
            )
        }),
{
    let c = list[o].change;
    assert(later_path(c) == path);
    assert(earlier_path(c) == old_path);
    let comes = c.before.len() == 0;
    let (there, text, s) = if comes {
        (path, c.after, list[o].after)
    } else {
        (old_path, c.before, list[o].before)
    };
    let all = things_in(there, text, s);
    let n = declared(there, text).decls.len() + s.symbols.len();
    let i = if of_routes {
        (n + s.imports.len()) as int
    } else {
        n as int
    };
    assert(all.len() == n + s.imports.len() + s.routes.len());
    if of_routes {
        assert(all[i] == each_route(there)(s.routes[0]));
    } else {
        assert(all[i] == each_relationship(there)(s.imports[0]));
    }
    let key = key_of(all[i].thing);
    lemma_key_found(all, key, i);
    let x = lookup(keyed(all), key)->Some_0;
    lemma_relation_key(x.thing);
    lemma_relation_key(all[i].thing);
    let b = lookup(objects_in(old_path, c.before, list[o].before), key);
    let a = lookup(objects_in(path, c.after, list[o].after), key);
    let deps = dependents_of(graph, old_path);
    lemma_changed_object(
        c,
        list[o].before,
        list[o].after,
        spelled_names(c.before),
        spelled_names(c.after),
        deps,
        key,
    );
    let m = change_of(path, b, a, deps)->Some_0;
    lemma_all_changes(graph, list, o, m);
    lemma_judged_at(idx, graph, list, m)
}

// ---------------------------------------------------------------------------
// What is unclear
// ---------------------------------------------------------------------------

proof fn lemma_reason_told(
    idx: IndexView,
    graph: GraphView,
    list: Seq<ObservationView>,
    o: int,
    old_path: Seq<char>,
    path: Seq<char>,
    reason: Seq<char>,
) -> (k: int)
    requires
        0 <= o < list.len(),
        lies_at(list[o].change, old_path, path),
        !is_documentation(path),
        path != "archietect.toml"@,
        doubts(
            old_path,
            list[o].change.before,
            list[o].before,
            spelled_names(list[o].change.before),
        ).contains(reason) || doubts(
            path,
            list[o].change.after,
            list[o].after,
            spelled_names(list[o].change.after),
        ).contains(reason),
    ensures
        is_told_unknown(idx, evaluated(idx, graph, Ok(list)), path, reason, k),
{
    let c = list[o].change;
    assert(later_path(c) == path);
    assert(earlier_path(c) == old_path);
    let first = doubts(old_path, c.before, list[o].before, spelled_names(c.before));
    let second = doubts(path, c.after, list[o].after, spelled_names(c.after));
    lemma_sorted_set(first + second);
    assert((first + second).contains(reason)) by {
        if first.contains(reason) {
            let i = choose|i: int| 0 <= i < first.len() && first[i] == reason;
            assert((first + second)[i] == reason);
        } else {
            let i = choose|i: int| 0 <= i < second.len() && second[i] == reason;
            assert((first + second)[first.len() + i] == reason);
        }
    }
    let reasons = sorted_set(first + second);
    assert(reasons.contains(reason));
    let n = choose|n: int| 0 <= n < reasons.len() && reasons[n] == reason;
    let m = each_unknown(path)(reason);
    let whole = compared(
        c,
        list[o].before,
        list[o].after,
        spelled_names(c.before),
        spelled_names(c.after),
        dependents_of(graph, old_path),
    );
    assert(whole[n] == reasons.map_values(each_unknown(path))[n]);
    assert(whole[n] == m);
    lemma_all_changes(graph, list, o, m);
    lemma_evidence(idx, graph, list, m)
}

proof fn lemma_evidence(
    idx: IndexView,
    graph: GraphView,
    list: Seq<ObservationView>,
    m: MutationView,
) -> (n: int)
    requires
        all_changes(graph, list).contains(m),
        m.kind == MutationKind::Unknown,
        m.decision_required,
        m.evidence.len() == 1,
    ensures
        is_told_unknown(idx, evaluated(idx, graph, Ok(list)), m.file, m.evidence[0], n),
{
    let all = all_changes(graph, list);
    let n = choose|n: int| 0 <= n < all.len() && all[n] == m;
    let changes = placed(idx, graph, list);
    assert(changes[n] == each_placed(idx)(all[n]));
    let supplied = supplied_in(list, targets_in(changes), idx.aliases);
    let given = match supplied {
        Ok(g) => g,
        Err(_) => seq![],
    };
    let e = evaluated(idx, graph, Ok(list));
    assert(e == judged(idx, changes, supplied));
    assert(e.mutations[n] == each_supplied(given)(changes[n]));
    let x = e.mutations[n];
    if x.decision_required {
        lemma_breach_at(e.mutations, e.mutations.len() as int, n);
        let list_of = breaches(e.mutations, e.mutations.len() as int);
        let p = choose|p: int| 0 <= p < list_of.len() && list_of[p] == BreachView::Unknown(n);
        let fault = match supplied {
            Ok(_) => seq![],
            Err(r) => if idx.decision_required_paths.len() > 0 {
                seq![BreachView::InvalidUpdate(r)]
            } else {
                seq![]
            },
        };
        assert(e.violations == fault + list_of);
        assert(e.violations[fault.len() + p] == BreachView::Unknown(n));
    }
    assert(x.evidence =~= seq![m.evidence[0]]);
    assert(e.unknown);
    n
}

/// A judgement says of a file that something is unknown, and why, and stops the
/// patch for it on a path that asks for decisions and holds no tests.
pub open spec fn is_told_unknown(
    idx: IndexView,
    e: EvaluationView,
    path: Seq<char>,
    reason: Seq<char>,
    k: int,
) -> bool {
    &&& e.unknown
    &&& 0 <= k < e.mutations.len()
    &&& e.mutations[k].file == path
    &&& e.mutations[k].kind == MutationKind::Unknown
    &&& e.mutations[k].evidence == seq![reason]
    &&& is_protected(idx, path) && !is_test_source(path) ==> e.violations.contains(
        BreachView::Unknown(k),
    )
}

/// What a parser could not make out of a text is told, and never passes on a
/// path that asks for decisions.
pub proof fn law_uncertainty_is_told(
    idx: IndexView,
    graph: GraphView,
    list: Seq<ObservationView>,
    o: int,
    old_path: Seq<char>,
    path: Seq<char>,
    i: int,
    of_before: bool,
) -> (k: int)
    requires
        0 <= o < list.len(),
        lies_at(list[o].change, old_path, path),
        !is_documentation(path),
        path != "archietect.toml"@,
        of_before ==> list[o].change.before.len() > 0 && 0 <= i < list[o].before.uncertainty.len(),
        !of_before ==> list[o].change.after.len() > 0 && 0 <= i < list[o].after.uncertainty.len(),
    ensures
        is_told_unknown(
            idx,
            evaluated(idx, graph, Ok(list)),
            path,
            if of_before {
                list[o].before.uncertainty[i]
            } else {
                list[o].after.uncertainty[i]
            },
            k,
        ),
{
    let c = list[o].change;
    if of_before {
        let d = doubts(old_path, c.before, list[o].before, spelled_names(c.before));
        assert(d[i] == list[o].before.uncertainty[i]);
        lemma_reason_told(idx, graph, list, o, old_path, path, d[i])
    } else {
        let d = doubts(path, c.after, list[o].after, spelled_names(c.after));
        assert(d[i] == list[o].after.uncertainty[i]);
        lemma_reason_told(idx, graph, list, o, old_path, path, d[i])
    }
}

proof fn lemma_repeated(names: Seq<Seq<char>>, i: int, j: int)
    requires
        0 <= i < j < names.len(),
        names[i] == names[j],
    ensures
        repeated(names).contains(names[j]),
    decreases names.len(),
{
    let front = names.drop_last();
    let r = repeated(front);
    let whole = repeated(names);
    if j < names.len() - 1 {
        assert(front[i] == front[j]);
        lemma_repeated(front, i, j);
        let k = choose|k: int| 0 <= k < r.len() && r[k] == names[j];
        assert(whole[k] == names[j]);
    } else {
        assert(front[i] == names[j]);
        assert(whole[r.len() as int] == names[j]);
    }
}

/// Two symbols of one name in a text are a doubt about it, which is told.
pub proof fn law_twins_are_doubted(
    idx: IndexView,
    graph: GraphView,
    list: Seq<ObservationView>,
    o: int,
    old_path: Seq<char>,
    path: Seq<char>,
    i: int,
    j: int,
) -> (k: int)
    requires
        0 <= o < list.len(),
        lies_at(list[o].change, old_path, path),
        !is_documentation(path),
        path != "archietect.toml"@,
        list[o].change.after.len() > 0,
        0 <= i < j < list[o].after.symbols.len(),
        list[o].after.symbols[i].name == list[o].after.symbols[j].name,
    ensures
        is_told_unknown(
            idx,
            evaluated(idx, graph, Ok(list)),
            path,
            "Duplicate symbol identity '"@ + list[o].after.symbols[j].name + "' in "@ + path,
            k,
        ),
{
    let c = list[o].change;
    let s = list[o].after;
    let names = s.symbols.map_values(each_symbol_name());
    assert(names[i] == names[j]);
    lemma_repeated(names, i, j);
    let twins = repeated(names);
    let n = choose|n: int| 0 <= n < twins.len() && twins[n] == names[j];
    let reason = each_doubt("Duplicate symbol identity"@, path)(names[j]);
    let d = doubts(path, c.after, s, spelled_names(c.after));
    assert(d[s.uncertainty.len() + n] == reason);
    assert(d.contains(reason));
    reveal_strlit("Duplicate symbol identity");
    reveal_strlit(" '");
    reveal_strlit("Duplicate symbol identity '");
    assert("Duplicate symbol identity"@ + " '"@ =~= "Duplicate symbol identity '"@);
    lemma_reason_told(idx, graph, list, o, old_path, path, reason)
}

/// A file that moves with its content is a doubt about what it holds, which is
/// told.
pub proof fn law_moves_are_doubted(
    idx: IndexView,
    graph: GraphView,
    list: Seq<ObservationView>,
    o: int,
    old_path: Seq<char>,
    path: Seq<char>,
) -> (k: int)
    requires
        0 <= o < list.len(),
        list[o].change.before_path == Some(old_path),
        list[o].change.after_path == Some(path),
        old_path != path,
        list[o].change.before.len() > 0,
        list[o].change.after.len() > 0,
        !is_documentation(path),
        path != "archietect.toml"@,
    ensures
        is_told_unknown(
            idx,
            evaluated(idx, graph, Ok(list)),
            path,
            "File moved: identity continuity across paths has not been established"@,
            k,
        ),
{
    let c = list[o].change;
    assert(later_path(c) == path);
    let whole = compared(
        c,
        list[o].before,
        list[o].after,
        spelled_names(c.before),
        spelled_names(c.after),
        dependents_of(graph, earlier_path(c)),
    );
    let m = move_doubt(c)[0];
    assert(whole[whole.len() - 1] == m);
    lemma_all_changes(graph, list, o, m);
    lemma_evidence(idx, graph, list, m)
}

// ---------------------------------------------------------------------------
// What is no change
// ---------------------------------------------------------------------------

/// A file of words or pictures changes nothing, and neither do the settings.
pub proof fn law_words_are_no_change(
    c: FileChangeView,
    bs: SnapshotView,
    s: SnapshotView,
    b_spelled: Seq<Seq<char>>,
    a_spelled: Seq<Seq<char>>,
    deps: Seq<Seq<char>>,
    old_path: Seq<char>,
    path: Seq<char>,
)
    requires
        lies_at(c, old_path, path),
        path == "archietect.toml"@ || extension(path) == Some("md"@)
            || extension(path) == Some("txt"@) || extension(path) == Some(
            "rst"@,
        ) || extension(path) == Some("png"@) || extension(path) == Some(
            "jpg"@,
        ) || extension(path) == Some("jpeg"@) || extension(path) == Some(
            "svg"@,
        ) || extension(path) == Some("ico"@) || extension(path) == Some(
            "icns"@,
        ),
    ensures
        compared(c, bs, s, b_spelled, a_spelled, deps).len() == 0,
{
}

/// Every change that is told of was seen: its object is not before what it is
/// after. A text that stays as it was, in its place, changes nothing known.
pub proof fn law_every_change_was_seen(
    c: FileChangeView,
    bs: SnapshotView,
    s: SnapshotView,
    b_spelled: Seq<Seq<char>>,
    a_spelled: Seq<Seq<char>>,
    deps: Seq<Seq<char>>,
    i: int,
)
    requires
        0 <= i < compared(c, bs, s, b_spelled, a_spelled, deps).len(),
        compared(c, bs, s, b_spelled, a_spelled, deps)[i].kind != MutationKind::Unknown,
    ensures
        ({
            let m = compared(c, bs, s, b_spelled, a_spelled, deps)[i];
            &&& m.before is Some || m.after is Some
            &&& m.kind == MutationKind::Added || m.kind == MutationKind::RelationshipAdded <==>
                m.before is None
            &&& m.kind == MutationKind::Removed || m.kind == MutationKind::RelationshipRemoved <==>
                m.after is None
            &&& m.before is None ==> c.after.len() > 0
            &&& m.after is None ==> c.before.len() > 0
            &&& !(c.before == c.after && bs == s && c.before_path == c.after_path)
        }),
{
    let path = later_path(c);
    let bo = objects_in(earlier_path(c), c.before, bs);
    let ao = objects_in(path, c.after, s);
    let keys = sorted_set(bo.map_values(each_seen_key()) + ao.map_values(each_seen_key()));
    let f = each_change(path, bo, ao, deps);
    let mid = keys.filter_map(f);
    let reasons = sorted_set(
        doubts(earlier_path(c), c.before, bs, b_spelled) + doubts(path, c.after, s, a_spelled),
    ).map_values(each_unknown(path));
    let whole = compared(c, bs, s, b_spelled, a_spelled, deps);
    assert(whole == reasons + mid + move_doubt(c));
    if i < reasons.len() {
        assert(whole[i] == reasons[i]);
    } else if i < reasons.len() + mid.len() {
        let m = mid[i - reasons.len()];
        assert(whole[i] == m);
        assert(mid.contains(m));
        keys.lemma_filter_map_contains(f, m);
        let n = choose|n: int| 0 <= n < keys.len() && #[trigger] f(keys[n]) == Some(m);
        let k = keys[n];
        let b = lookup(bo, k);
        let a = lookup(ao, k);
        assert(b != a);
        if c.before.len() == 0 {
            assert(!has_key(bo, k));
        }
        if c.after.len() == 0 {
            assert(!has_key(ao, k));
        }
    } else {
        assert(whole[i] == move_doubt(c)[i - reasons.len() - mid.len()]);
    }
}

// ---------------------------------------------------------------------------
// Paths
// ---------------------------------------------------------------------------

/// A path asks for decisions exactly where it lies at or below one that the
/// project names, or the project names its root, and it does not lie at or below
/// one that the project leaves out.
pub proof fn law_named_paths_are_protected(idx: IndexView, path: Seq<char>)
    ensures
        is_protected(idx, path) <==> {
            &&& exists|i: int|
                0 <= i < idx.decision_required_paths.len() && ({
                    let p = trim_end_of(#[trigger] idx.decision_required_paths[i], CharClass::Is('/'));
                    p == "."@ || path == p || (p + "/"@).is_prefix_of(path)
                })
            &&& forall|i: int|
                0 <= i < idx.excludes.len() ==> ({
                    let p = trim_end_of(#[trigger] idx.excludes[i], CharClass::Is('/'));
                    path != p && !(p + "/"@).is_prefix_of(path)
                })
        },
{
    assert forall|p: Seq<char>| #[trigger] starts_with(path, p) == p.is_prefix_of(path) by {
        lemma_prefix(path, p);
    }
    if is_protected(idx, path) {
        let i = choose|i: int|
            0 <= i < idx.decision_required_paths.len() && is_covered(
                path,
                #[trigger] idx.decision_required_paths[i],
            );
        let p = trim_end_of(idx.decision_required_paths[i], CharClass::Is('/'));
        assert(starts_with(path, p + "/"@) == (p + "/"@).is_prefix_of(path));
        assert forall|i: int| 0 <= i < idx.excludes.len() implies ({
            let p = trim_end_of(#[trigger] idx.excludes[i], CharClass::Is('/'));
            path != p && !(p + "/"@).is_prefix_of(path)
        }) by {
            let p = trim_end_of(idx.excludes[i], CharClass::Is('/'));
            assert(starts_with(path, p + "/"@) == (p + "/"@).is_prefix_of(path));
            assert(!is_within(path, idx.excludes[i]));
        }
    } else {
        if exists|i: int|
            0 <= i < idx.decision_required_paths.len() && ({
                let p = trim_end_of(#[trigger] idx.decision_required_paths[i], CharClass::Is('/'));
                p == "."@ || path == p || (p + "/"@).is_prefix_of(path)
            }) {
            let i = choose|i: int|
                0 <= i < idx.decision_required_paths.len() && ({
                    let p = trim_end_of(
                        #[trigger] idx.decision_required_paths[i],
                        CharClass::Is('/'),
                    );
                    p == "."@ || path == p || (p + "/"@).is_prefix_of(path)
                });
            let p = trim_end_of(idx.decision_required_paths[i], CharClass::Is('/'));
            assert(starts_with(path, p + "/"@) == (p + "/"@).is_prefix_of(path));
            assert(is_covered(path, idx.decision_required_paths[i]));
            assert(is_excluded(path, idx.excludes));
            let j = choose|j: int|
                0 <= j < idx.excludes.len() && is_within(path, #[trigger] idx.excludes[j]);
            let q = trim_end_of(idx.excludes[j], CharClass::Is('/'));
            assert(starts_with(path, q + "/"@) == (q + "/"@).is_prefix_of(path));
        }
    }
}

proof fn lemma_prefix(s: Seq<char>, p: Seq<char>)
    ensures
        starts_with(s, p) == p.is_prefix_of(s),
{
    if p.len() <= s.len() {
        assert(s.take(p.len() as int) =~= s.subrange(0, p.len() as int));
    }
}

/// A path holds tests exactly where a directory or file of it is named for tests
/// or fixtures, or its name says `.test.` or `.spec.`.
pub proof fn law_named_tests_are_tests(path: Seq<char>)
    ensures
        is_test_source(path) <==> {
            ||| split(path, '/').contains("test"@)
            ||| split(path, '/').contains("tests"@)
            ||| split(path, '/').contains("__tests__"@)
            ||| split(path, '/').contains("fixtures"@)
            ||| exists|i: int| occurs_at(path, ".test."@, i)
            ||| exists|i: int| occurs_at(path, ".spec."@, i)
        },
{
    let parts = split(path, '/');
    lemma_contains(path, ".test."@);
    lemma_contains(path, ".spec."@);
    if exists|i: int| 0 <= i < parts.len() && is_test_segment(#[trigger] parts[i]) {
        let i = choose|i: int| 0 <= i < parts.len() && is_test_segment(#[trigger] parts[i]);
        assert(parts.contains(parts[i]));
    }
    assert forall|s: Seq<char>| is_test_segment(s) && #[trigger] parts.contains(s) implies exists|
        i: int,
    | 0 <= i < parts.len() && is_test_segment(#[trigger] parts[i]) by {
        let i = choose|i: int| 0 <= i < parts.len() && parts[i] == s;
        assert(is_test_segment(parts[i]));
    }
}

proof fn lemma_contains(s: Seq<char>, p: Seq<char>)
    ensures
        contains(s, p) <==> exists|i: int| occurs_at(s, p, i),
{
    lemma_find_from(s, p, 0);
    if contains(s, p) {
        assert(occurs_at(s, p, find_from(s, p, 0)->Some_0));
    }
}

// ---------------------------------------------------------------------------
// Dependents
// ---------------------------------------------------------------------------

/// A file reaches another through at most `n` resolved imports.
pub open spec fn reaches(imports: Seq<ImportView>, file: Seq<char>, other: Seq<char>, n: nat) -> bool
    decreases n,
{
    file == other || (n > 0 && exists|i: int|
        0 <= i < imports.len() && (#[trigger] imports[i]).resolved is Some
            && imports[i].resolved->Some_0.from == file && reaches(
            imports,
            imports[i].resolved->Some_0.to,
            other,
            (n - 1) as nat,
        ))
}

/// Everything in a list reaches a file through at most `n` imports, and
/// everything that does is in the list.
spec fn holds_reach(imports: Seq<ImportView>, list: Seq<Seq<char>>, other: Seq<char>, n: nat) -> bool {
    forall|f: Seq<char>| #[trigger] list.contains(f) <==> reaches(imports, f, other, n)
}

proof fn lemma_spread(imports: Seq<ImportView>, seen: Seq<Seq<char>>, other: Seq<char>, n: nat)
    requires
        holds_reach(imports, seen, other, n),
    ensures
        holds_reach(imports, with_importers(imports, seen), other, n + 1),
{
    let f = each_importer(seen);
    let more = imports.filter_map(f);
    let all = seen + more;
    lemma_sorted_set(all);
    let out = with_importers(imports, seen);
    assert forall|x: Seq<char>| #[trigger] out.contains(x) <==> reaches(imports, x, other, n + 1) by {
        if out.contains(x) {
            assert(all.contains(x));
            let k = choose|k: int| 0 <= k < all.len() && all[k] == x;
            if k < seen.len() {
                assert(seen[k] == x);
                assert(seen.contains(x));
                lemma_reach_grows(imports, x, other, n);
            } else {
                assert(more[k - seen.len()] == x);
                assert(more.contains(x));
                imports.lemma_filter_map_contains(f, x);
                let i = choose|i: int| 0 <= i < imports.len() && #[trigger] f(imports[i]) == Some(x);
                assert(seen.contains(imports[i].resolved->Some_0.to));
            }
        }
        if reaches(imports, x, other, n + 1) {
            if x == other {
                assert(reaches(imports, x, other, n));
                assert(seen.contains(x));
                let k = choose|k: int| 0 <= k < seen.len() && seen[k] == x;
                assert(all[k] == x);
            } else {
                let i = choose|i: int|
                    0 <= i < imports.len() && (#[trigger] imports[i]).resolved is Some
                        && imports[i].resolved->Some_0.from == x && reaches(
                        imports,
                        imports[i].resolved->Some_0.to,
                        other,
                        n,
                    );
                assert(seen.contains(imports[i].resolved->Some_0.to));
                lemma_kept_by_filter_map(imports, f, i);
                let k = choose|k: int| 0 <= k < more.len() && more[k] == x;
                assert(all[seen.len() + k] == x);
            }
            assert(all.contains(x));
        }
    }
}

proof fn lemma_reach_grows(imports: Seq<ImportView>, file: Seq<char>, other: Seq<char>, n: nat)
    requires
        reaches(imports, file, other, n),
    ensures
        reaches(imports, file, other, n + 1),
    decreases n,
{
    if file != other {
        let i = choose|i: int|
            0 <= i < imports.len() && (#[trigger] imports[i]).resolved is Some
                && imports[i].resolved->Some_0.from == file && reaches(
                imports,
                imports[i].resolved->Some_0.to,
                other,
                (n - 1) as nat,
            );
        lemma_reach_grows(imports, imports[i].resolved->Some_0.to, other, (n - 1) as nat);
    }
}

/// The files that depend on a file are those other than it that reach it through
/// at most three resolved imports.
pub proof fn law_dependents_are_three_imports_away(graph: GraphView, file: Seq<char>, other: Seq<char>)
    ensures
        dependents_of(graph, file).contains(other) <==> other != file && reaches(
            graph.imports,
            other,
            file,
            3,
        ),
{
    let imports = graph.imports;
    let zero = seq![file];
    assert(holds_reach(imports, zero, file, 0)) by {
        assert forall|f: Seq<char>| #[trigger] zero.contains(f) <==> reaches(imports, f, file, 0) by {
            if f == file {
                assert(zero[0] == f);
            }
        }
    }
    lemma_spread(imports, zero, file, 0);
    let one = with_importers(imports, zero);
    lemma_spread(imports, one, file, 1);
    let two = with_importers(imports, one);
    lemma_spread(imports, two, file, 2);
    let three = with_importers(imports, two);
    let f = each_other_file(file);
    if dependents_of(graph, file).contains(other) {
        three.lemma_filter_map_contains(f, other);
        let k = choose|k: int| 0 <= k < three.len() && #[trigger] f(three[k]) == Some(other);
        assert(three.contains(other));
    }
    if other != file && reaches(imports, other, file, 3) {
        assert(three.contains(other));
        let k = choose|k: int| 0 <= k < three.len() && three[k] == other;
        lemma_kept_by_filter_map(three, f, k);
    }
}

// ---------------------------------------------------------------------------
// Decisions
// ---------------------------------------------------------------------------

/// A decision governs a change exactly where it is linked to the changed resource
/// by its whole name or by the name behind the path.
pub proof fn law_linked_decisions_govern(
    idx: IndexView,
    graph: GraphView,
    list: Seq<ObservationView>,
    k: int,
    id: Seq<char>,
)
    requires
        0 <= k < evaluated(idx, graph, Ok(list)).mutations.len(),
    ensures
        ({
            let m = evaluated(idx, graph, Ok(list)).mutations[k];
            m.governing_decisions.contains(id) <==> exists|d: int, l: int|
                0 <= d < idx.decisions.len() && 0 <= l < idx.decisions[d].links.len()
                    && idx.decisions[d].id == id && (#[trigger] idx.decisions[d].links[l] == m.resource
                    || ("::"@ + idx.decisions[d].links[l]).is_suffix_of(m.resource))
        }),
{
    let all = all_changes(graph, list);
    let changes = placed(idx, graph, list);
    let supplied = supplied_in(list, targets_in(changes), idx.aliases);
    let given = match supplied {
        Ok(g) => g,
        Err(_) => seq![],
    };
    let e = evaluated(idx, graph, Ok(list));
    assert(e == judged(idx, changes, supplied));
    assert(changes[k] == each_placed(idx)(all[k]));
    assert(e.mutations[k] == each_supplied(given)(changes[k]));
    let m = e.mutations[k];
    let f = each_governing_id(m.resource);
    assert(m.governing_decisions == idx.decisions.filter_map(f));
    if m.governing_decisions.contains(id) {
        idx.decisions.lemma_filter_map_contains(f, id);
        let d = choose|d: int| 0 <= d < idx.decisions.len() && #[trigger] f(idx.decisions[d]) == Some(id);
        let l = choose|l: int|
            0 <= l < idx.decisions[d].links.len() && link_names(
                #[trigger] idx.decisions[d].links[l],
                m.resource,
            );
        lemma_suffix(m.resource, "::"@ + idx.decisions[d].links[l]);
        assert(idx.decisions[d].links[l] == m.resource || ("::"@
            + idx.decisions[d].links[l]).is_suffix_of(m.resource));
    }
    if exists|d: int, l: int|
        0 <= d < idx.decisions.len() && 0 <= l < idx.decisions[d].links.len() && idx.decisions[d].id
            == id && (#[trigger] idx.decisions[d].links[l] == m.resource || ("::"@
            + idx.decisions[d].links[l]).is_suffix_of(m.resource)) {
        let (d, l) = choose|d: int, l: int|
            0 <= d < idx.decisions.len() && 0 <= l < idx.decisions[d].links.len()
                && idx.decisions[d].id == id && (#[trigger] idx.decisions[d].links[l] == m.resource
                || ("::"@ + idx.decisions[d].links[l]).is_suffix_of(m.resource));
        lemma_suffix(m.resource, "::"@ + idx.decisions[d].links[l]);
        assert(link_names(idx.decisions[d].links[l], m.resource));
        lemma_kept_by_filter_map(idx.decisions, f, d);
    }
}

proof fn lemma_suffix(s: Seq<char>, p: Seq<char>)
    ensures
        ends_with(s, p) == p.is_suffix_of(s),
{
    if p.len() <= s.len() {
        assert(s.skip(s.len() - p.len()) =~= s.subrange(s.len() - p.len(), s.len() as int));
    }
}

/// A patch is stopped only for a reason: because its settings are at fault, or
/// because a change on a path that asks for decisions and holds no tests is
/// unknown or has no decision.
pub proof fn law_every_violation_has_its_reason(
    idx: IndexView,
    graph: GraphView,
    list: Seq<ObservationView>,
    n: int,
)
    requires
        0 <= n < evaluated(idx, graph, Ok(list)).violations.len(),
    ensures
        ({
            let e = evaluated(idx, graph, Ok(list));
            match e.violations[n] {
                BreachView::Unreadable => false,
                BreachView::InvalidUpdate(_) => exists|j: int|
                    0 <= j < list.len() && (#[trigger] list[j]).change.after_path == Some(
                        "archietect.toml"@,
                    ),
                BreachView::Unknown(k) => 0 <= k < e.mutations.len() && e.mutations[k].kind
                    == MutationKind::Unknown && is_protected(idx, e.mutations[k].file)
                    && !is_test_source(e.mutations[k].file),
                BreachView::Undecided(k) => 0 <= k < e.mutations.len() && e.mutations[k].kind
                    != MutationKind::Unknown && e.mutations[k].supplied_decisions.len() == 0
                    && is_protected(idx, e.mutations[k].file) && !is_test_source(
                    e.mutations[k].file,
                ),
            }
        }),
{
    let all = all_changes(graph, list);
    let changes = placed(idx, graph, list);
    let supplied = supplied_in(list, targets_in(changes), idx.aliases);
    let given = match supplied {
        Ok(g) => g,
        Err(_) => seq![],
    };
    let fault = match supplied {
        Ok(_) => seq![],
        Err(r) => if idx.decision_required_paths.len() > 0 {
            seq![BreachView::InvalidUpdate(r)]
        } else {
            seq![]
        },
    };
    let e = evaluated(idx, graph, Ok(list));
    assert(e == judged(idx, changes, supplied));
    let rest = breaches(e.mutations, e.mutations.len() as int);
    assert(e.violations == fault + rest);
    if n < fault.len() {
        assert(e.violations[n] == fault[n]);
        if forall|j: int|
            0 <= j < list.len() ==> (#[trigger] list[j]).change.after_path != Some(
                "archietect.toml"@,
            ) {
            lemma_no_settings(list, 0);
        }
    } else {
        assert(e.violations[n] == rest[n - fault.len()]);
        let k = lemma_breach_from(e.mutations, e.mutations.len() as int, n - fault.len());
        assert(changes[k] == each_placed(idx)(all[k]));
        assert(e.mutations[k] == each_supplied(given)(changes[k]));
    }
}

proof fn lemma_breach_from(list: Seq<MutationView>, n: int, i: int) -> (k: int)
    requires
        0 <= n <= list.len(),
        0 <= i < breaches(list, n).len(),
    ensures
        0 <= k < n,
        breach_of(list[k], k) == Some(breaches(list, n)[i]),
    decreases n,
{
    let r = breaches(list, n - 1);
    if i < r.len() {
        assert(breaches(list, n)[i] == r[i]);
        lemma_breach_from(list, n - 1, i)
    } else {
        n - 1
    }
}

// ---------------------------------------------------------------------------
// Patches that cannot be read, and the settings in a patch
// ---------------------------------------------------------------------------

/// A patch that cannot be read is unknown, says so in one mutation, and may not
/// pass where any path is protected.
pub proof fn law_unreadable_patches_are_unknown(idx: IndexView, graph: GraphView, reason: Seq<char>)
    ensures
        ({
            let e = evaluated(idx, graph, Err(reason));
            &&& e.unknown
            &&& e.mutations.len() == 1 && e.mutations[0].kind == MutationKind::Unknown
            &&& e.mutations[0].evidence.contains(reason)
            &&& idx.decision_required_paths.len() > 0 <==> e.violations.len() > 0
            &&& idx.decision_required_paths.len() > 0 ==> e.violations == seq![
                BreachView::Unreadable,
            ]
        }),
{
    let e = evaluated(idx, graph, Err(reason));
    assert(e.mutations[0].evidence[0] == reason);
}

proof fn lemma_settings_from(list: Seq<ObservationView>, i: int)
    requires
        0 <= i,
    ensures
        match crate::mutation::settings_from(list, i) {
            Some(c) => exists|k: int|
                i <= k < list.len() && (#[trigger] list[k]).change == c && c.after_path == Some(
                    "archietect.toml"@,
                ) && forall|j: int|
                    i <= j < k ==> (#[trigger] list[j]).change.after_path != Some(
                        "archietect.toml"@,
                    ),
            None => forall|j: int|
                i <= j < list.len() ==> (#[trigger] list[j]).change.after_path != Some(
                    "archietect.toml"@,
                ),
        },
    decreases list.len() - i,
{
    if i < list.len() && list[i].change.after_path != Some("archietect.toml"@) {
        lemma_settings_from(list, i + 1);
    } else if i < list.len() {
        assert(list[i].change.after_path == Some("archietect.toml"@));
    }
}

/// The decisions that a patch supplies are those of the settings file that it
/// changes, before against after; a patch that does not change it supplies none.
pub proof fn law_where_supplied_decisions_come_from(
    list: Seq<ObservationView>,
    targets: Seq<Seq<char>>,
    aliases: Seq<(Seq<char>, Seq<char>)>,
    k: int,
)
    ensures
        0 <= k < list.len() && list[k].change.after_path == Some("archietect.toml"@) && (forall|j: int|
            0 <= j < k ==> (#[trigger] list[j]).change.after_path != Some("archietect.toml"@))
            ==> supplied_in(list, targets, aliases) == crate::mutation_policy::ruled(
            list[k].change.before,
            list[k].change.after,
            targets,
            aliases,
        ),
        (forall|j: int|
            0 <= j < list.len() ==> (#[trigger] list[j]).change.after_path != Some(
                "archietect.toml"@,
            )) ==> (supplied_in(list, targets, aliases) matches Ok(g) && g.len() == 0),
{
    lemma_settings_from(list, 0);
}

/// Decisions that are invalid are themselves a violation where any path is
/// protected, and supply nothing.
pub proof fn law_invalid_decisions_are_a_violation(
    idx: IndexView,
    list: Seq<MutationView>,
    reason: Seq<char>,
    k: int,
)
    ensures
        idx.decision_required_paths.len() > 0 ==> judged(idx, list, Err(reason)).violations.len() > 0
            && judged(idx, list, Err(reason)).violations[0] == BreachView::InvalidUpdate(reason),
        0 <= k < list.len() ==> judged(idx, list, Err(reason)).mutations[k].supplied_decisions.len()
            == 0,
{
    let none: Seq<(Seq<char>, Seq<Seq<char>>)> = seq![];
    if 0 <= k < list.len() {
        assert(lookup(none, list[k].resource) is None);
    }
}

/// What stands twice in a list is repeated, and nothing else is.
pub proof fn law_what_is_repeated(names: Seq<Seq<char>>, x: Seq<char>)
    ensures
        crate::mutation::repeated(names).contains(x) <==> exists|i: int, j: int|
            0 <= i < j < names.len() && #[trigger] names[i] == x && #[trigger] names[j] == x,
    decreases names.len(),
{
    if names.len() > 0 {
        let front = names.drop_last();
        let r = crate::mutation::repeated(front);
        let all = crate::mutation::repeated(names);
        law_what_is_repeated(front, x);
        if r.contains(x) {
            let k = choose|k: int| 0 <= k < r.len() && r[k] == x;
            assert(all[k] == x);
            let (i, j) = choose|i: int, j: int|
                0 <= i < j < front.len() && #[trigger] front[i] == x && #[trigger] front[j] == x;
            assert(names[i] == x && names[j] == x);
        }
        if front.contains(names.last()) && names.last() == x {
            let i = choose|i: int| 0 <= i < front.len() && front[i] == x;
            assert(names[i] == x && names[names.len() - 1] == x);
            assert(all[all.len() - 1] == x);
        }
        if all.contains(x) {
            let k = choose|k: int| 0 <= k < all.len() && all[k] == x;
            if k < r.len() {
                assert(r[k] == x);
            }
        }
        if exists|i: int, j: int|
            0 <= i < j < names.len() && #[trigger] names[i] == x && #[trigger] names[j] == x {
            let (i, j) = choose|i: int, j: int|
                0 <= i < j < names.len() && #[trigger] names[i] == x && #[trigger] names[j] == x;
            assert(front[i] == x);
            if j < front.len() {
                assert(front[j] == x);
            } else {
                assert(front.contains(names.last()));
            }
        }
    }
}

/// A change is told of by the path that the file has after it, and a removal by
/// the one that it had.
pub proof fn law_where_a_change_is_told_of(c: FileChangeView, p: Seq<char>)
    ensures
        c.after_path == Some(p) ==> crate::mutation::later_path(c) == p,
        c.after_path is None && c.before_path == Some(p) ==> crate::mutation::later_path(c) == p,
        c.before_path == Some(p) ==> crate::mutation::earlier_path(c) == p,
        c.before_path is None && c.after_path == Some(p) ==> crate::mutation::earlier_path(c) == p,
{
}

} // verus!
