//! Properties that every index must have, whatever repository it is of.
use vstd::prelude::*;
use crate::shown::{blank, whole};
use crate::shown::{count_tree, Page, Shown};
use crate::tree::{Tree, TreeView};
use crate::model::{Concept, ConceptView, DecisionView, Index, IndexView};
use crate::table::{has_key, TextMap};
use crate::text::{ascii_lower, join, quoted};
use crate::text::{joined, owned, quote, same_ignoring_case};

verus! {

/// One property that an index lacks.
#[derive(Debug)]
pub struct Violation {
    pub invariant: &'static str,
    pub detail: String,
}

pub struct ViolationView {
    pub invariant: Seq<char>,
    pub detail: Seq<char>,
}

impl DeepView for Violation {
    type V = ViolationView;

    open spec fn deep_view(&self) -> ViolationView {
        ViolationView { invariant: self.invariant@, detail: self.detail@ }
    }
}

/// A concept states at most one table, so it never has two storage identities;
/// the tables that it states.
pub open spec fn storage_identities(c: ConceptView) -> Seq<Seq<char>> {
    match c.table {
        Some(t) => seq![t],
        None => seq![],
    }
}

pub open spec fn each_stale_alias(idx: IndexView) -> spec_fn((Seq<char>, Seq<char>)) -> Option<
    ViolationView,
> {
    |e: (Seq<char>, Seq<char>)|
        if has_key(idx.concepts, e.1) {
            None
        } else {
            Some(
                ViolationView {
                    invariant: "I-2: alias resolves"@,
                    detail: "alias '"@ + e.0 + "' → '"@ + e.1 + "' but '"@ + e.1
                        + "' is not a declared concept"@,
                },
            )
        }
}

/// A link names a concept, if need be in another case.
pub open spec fn is_known_link(concepts: Seq<(Seq<char>, ConceptView)>, link: Seq<char>) -> bool {
    exists|i: int|
        0 <= i < concepts.len() && ascii_lower((#[trigger] concepts[i]).0) == ascii_lower(link)
}

pub open spec fn links_something(concepts: Seq<(Seq<char>, ConceptView)>, links: Seq<Seq<char>>) -> bool {
    exists|i: int| 0 <= i < links.len() && is_known_link(concepts, #[trigger] links[i])
}

pub open spec fn each_quoted() -> spec_fn(Seq<char>) -> Seq<char> {
    |s: Seq<char>| quoted(s)
}

/// A list of texts as Rust's `{:?}` shows it.
pub open spec fn quoted_list(list: Seq<Seq<char>>) -> Seq<char> {
    "["@ + join(list.map_values(each_quoted()), ", "@) + "]"@
}

pub open spec fn each_dangling(idx: IndexView) -> spec_fn(DecisionView) -> Option<ViolationView> {
    |d: DecisionView|
        if d.links.len() == 0 || links_something(idx.concepts, d.links) {
            None
        } else {
            Some(
                ViolationView {
                    invariant: "I-3: decision links known concept"@,
                    detail: "decision '"@ + d.id + "' links "@ + quoted_list(d.links)
                        + " but none of those are declared concepts"@,
                },
            )
        }
}

pub open spec fn each_ghost() -> spec_fn((Seq<char>, ConceptView)) -> Option<ViolationView> {
    |e: (Seq<char>, ConceptView)|
        if e.1.declared_in.len() > 0 {
            None
        } else {
            Some(
                ViolationView {
                    invariant: "I-4: no ghost concepts"@,
                    detail: "'"@ + e.0
                        + "' exists in the index with no declaration site — this is a scan assembly bug"@,
                },
            )
        }
}

/// Everything that is wrong with an index: aliases to nothing, decisions that
/// link to nothing, concepts without a declaration.
pub open spec fn violations(idx: IndexView) -> Seq<ViolationView> {
    idx.aliases.filter_map(each_stale_alias(idx)) + idx.decisions.filter_map(each_dangling(idx))
        + idx.concepts.filter_map(each_ghost())
}

fn check_i2_aliases_resolve(idx: &Index, out: &mut Vec<Violation>)
    ensures
        final(out).deep_view() == old(out).deep_view() + idx.deep_view().aliases.filter_map(
            each_stale_alias(idx.deep_view()),
        ),
{
    let ghost all = idx.aliases.deep_view();
    let ghost f = each_stale_alias(idx.deep_view());
    let ghost start = out.deep_view();
    let n: usize = idx.aliases.len();
    let mut i: usize = 0;
    proof {
        assert(all.take(0) =~= seq![]);
        reveal(Seq::filter_map);
        assert(start + all.take(0).filter_map(f) =~= start);
    }
    while i < n
        invariant
            i <= n,
            n == all.len(),
            all == idx.aliases.deep_view(),
            f == each_stale_alias(idx.deep_view()),
            out.deep_view() =~= start + all.take(i as int).filter_map(f),
        decreases n - i,
    {
        let ghost so_far = out.deep_view();
        proof {
            all.lemma_filter_map_take_succ(f, i as int);
        }
        let alias = idx.aliases.key(i);
        let target = idx.aliases.value(i).as_str();
        if !idx.concepts.has(target) {
            let mut detail = owned("alias '");
            detail.append(alias);
            detail.append("' → '");
            detail.append(target);
            detail.append("' but '");
            detail.append(target);
            detail.append("' is not a declared concept");
            let v = Violation { invariant: "I-2: alias resolves", detail };
            let ghost x = v.deep_view();
            out.push(v);
            assert(out.deep_view() =~= so_far + seq![x]);
        }
        i += 1;
    }
    assert(all.take(i as int) =~= all);
}

fn known_link(concepts: &TextMap<Concept>, link: &str) -> (r: bool)
    ensures
        r == is_known_link(concepts.deep_view(), link@),
{
    let ghost cv = concepts.deep_view();
    let n: usize = concepts.len();
    let mut i: usize = 0;
    while i < n
        invariant
            i <= n,
            n == cv.len(),
            cv == concepts.deep_view(),
            forall|j: int|
                0 <= j < i ==> ascii_lower((#[trigger] cv[j]).0) != ascii_lower(link@),
        decreases n - i,
    {
        if same_ignoring_case(concepts.key(i), link) {
            return true;
        }
        i += 1;
    }
    false
}

fn any_known_link(concepts: &TextMap<Concept>, links: &Vec<String>) -> (r: bool)
    ensures
        r == links_something(concepts.deep_view(), links.deep_view()),
{
    let mut i: usize = 0;
    while i < links.len()
        invariant
            i <= links.len(),
            forall|j: int|
                0 <= j < i ==> !is_known_link(
                    concepts.deep_view(),
                    #[trigger] links.deep_view()[j],
                ),
        decreases links.len() - i,
    {
        assert(links.deep_view()[i as int] == links[i as int]@);
        if known_link(concepts, links[i].as_str()) {
            return true;
        }
        i += 1;
    }
    false
}

fn quoted_list_of(list: &Vec<String>) -> (r: String)
    ensures
        r@ == quoted_list(list.deep_view()),
{
    let ghost all = list.deep_view().map_values(each_quoted());
    let mut parts: Vec<String> = Vec::new();
    let mut i: usize = 0;
    while i < list.len()
        invariant
            i <= list.len(),
            all == list.deep_view().map_values(each_quoted()),
            parts.deep_view() =~= all.take(i as int),
        decreases list.len() - i,
    {
        let ghost so_far = parts.deep_view();
        assert(list.deep_view()[i as int] == list[i as int]@);
        parts.push(quote(list[i].as_str()));
        assert(parts.deep_view() =~= so_far.push(all[i as int]));
        i += 1;
    }
    assert(all.take(i as int) =~= all);
    let mut out = owned("[");
    out.append(joined(&parts, ", ").as_str());
    out.append("]");
    out
}

fn check_i3_decisions_link_known(idx: &Index, out: &mut Vec<Violation>)
    ensures
        final(out).deep_view() == old(out).deep_view() + idx.deep_view().decisions.filter_map(
            each_dangling(idx.deep_view()),
        ),
{
    let ghost all = idx.decisions.deep_view();
    let ghost f = each_dangling(idx.deep_view());
    let ghost start = out.deep_view();
    let mut i: usize = 0;
    proof {
        assert(all.take(0) =~= seq![]);
        reveal(Seq::filter_map);
        assert(start + all.take(0).filter_map(f) =~= start);
    }
    while i < idx.decisions.len()
        invariant
            i <= idx.decisions.len(),
            all == idx.decisions.deep_view(),
            f == each_dangling(idx.deep_view()),
            out.deep_view() =~= start + all.take(i as int).filter_map(f),
        decreases idx.decisions.len() - i,
    {
        let ghost so_far = out.deep_view();
        proof {
            all.lemma_filter_map_take_succ(f, i as int);
        }
        let d = &idx.decisions[i];
        assert(all[i as int] == d.deep_view());
        if d.links.len() > 0 && !any_known_link(&idx.concepts, &d.links) {
            let mut detail = owned("decision '");
            detail.append(d.id.as_str());
            detail.append("' links ");
            detail.append(quoted_list_of(&d.links).as_str());
            detail.append(" but none of those are declared concepts");
            let v = Violation { invariant: "I-3: decision links known concept", detail };
            let ghost x = v.deep_view();
            out.push(v);
            assert(out.deep_view() =~= so_far + seq![x]);
        }
        i += 1;
    }
    assert(all.take(i as int) =~= all);
}

fn check_i4_no_ghost_concepts(idx: &Index, out: &mut Vec<Violation>)
    ensures
        final(out).deep_view() == old(out).deep_view() + idx.deep_view().concepts.filter_map(
            each_ghost(),
        ),
{
    let ghost all = idx.concepts.deep_view();
    let ghost f = each_ghost();
    let ghost start = out.deep_view();
    let n: usize = idx.concepts.len();
    let mut i: usize = 0;
    proof {
        assert(all.take(0) =~= seq![]);
        reveal(Seq::filter_map);
        assert(start + all.take(0).filter_map(f) =~= start);
    }
    while i < n
        invariant
            i <= n,
            n == all.len(),
            all == idx.concepts.deep_view(),
            f == each_ghost(),
            out.deep_view() =~= start + all.take(i as int).filter_map(f),
        decreases n - i,
    {
        let ghost so_far = out.deep_view();
        proof {
            all.lemma_filter_map_take_succ(f, i as int);
        }
        if idx.concepts.value(i).declared_in.len() == 0 {
            let mut detail = owned("'");
            detail.append(idx.concepts.key(i));
            detail.append(
                "' exists in the index with no declaration site — this is a scan assembly bug",
            );
            let v = Violation { invariant: "I-4: no ghost concepts", detail };
            let ghost x = v.deep_view();
            out.push(v);
            assert(out.deep_view() =~= so_far + seq![x]);
        }
        i += 1;
    }
    assert(all.take(i as int) =~= all);
}

/// Everything that is wrong with an index; nothing means that it is clean.
pub fn check(idx: &Index) -> (r: Vec<Violation>)
    ensures
        r.deep_view() == violations(idx.deep_view()),
{
    let mut out: Vec<Violation> = Vec::new();
    assert(out.deep_view() =~= seq![]);
    check_i2_aliases_resolve(idx, &mut out);
    check_i3_decisions_link_known(idx, &mut out);
    check_i4_no_ghost_concepts(idx, &mut out);
    assert(out.deep_view() =~= violations(idx.deep_view()));
    out
}

/// No concept ever states more than one storage identity.
pub proof fn law_single_storage_identity(c: ConceptView)
    ensures
        storage_identities(c).len() <= 1,
{
}

/// A clean index has no alias that points at nothing and no concept without a
/// declaration.
pub proof fn law_clean_index(idx: IndexView, i: int, j: int)
    requires
        violations(idx).len() == 0,
        0 <= i < idx.aliases.len(),
        0 <= j < idx.concepts.len(),
    ensures
        has_key(idx.concepts, idx.aliases[i].1),
        idx.concepts[j].1.declared_in.len() > 0,
{
    let a = idx.aliases.filter_map(each_stale_alias(idx));
    let g = idx.concepts.filter_map(each_ghost());
    assert(a.len() == 0);
    assert(g.len() == 0);
    if !has_key(idx.concepts, idx.aliases[i].1) {
        lemma_filter_map_hit(idx.aliases, each_stale_alias(idx), i);
    }
    if idx.concepts[j].1.declared_in.len() == 0 {
        lemma_filter_map_hit(idx.concepts, each_ghost(), j);
    }
}

proof fn lemma_filter_map_hit<A, B>(s: Seq<A>, f: spec_fn(A) -> Option<B>, i: int)
    requires
        0 <= i < s.len(),
        f(s[i]) is Some,
    ensures
        s.filter_map(f).len() > 0,
    decreases s.len(),
{
    s.lemma_filter_map_take_succ(f, s.len() - 1);
    assert(s.take(s.len() as int) =~= s);
    if i < s.len() - 1 {
        lemma_filter_map_hit(s.take(s.len() - 1), f, i);
    }
}

// ---------------------------------------------------------------------------
// As trees
// ---------------------------------------------------------------------------

impl Shown for Violation {
    open spec fn tree_of(v: ViolationView) -> TreeView {
        TreeView::Table(
            blank()
                .push(("invariant"@, TreeView::Text(v.invariant)))
                .push(("detail"@, TreeView::Text(v.detail))),
        )
    }

    fn shown(&self) -> Tree {
        Page::new()
            .with_text("invariant", self.invariant)
            .with_text("detail", self.detail.as_str())
            .done()
    }
}

/// What a check of the invariants found.
pub open spec fn violations_tree(list: Seq<ViolationView>) -> TreeView {
    TreeView::Table(
        blank()
            .push(("pass"@, TreeView::Flag(list.len() == 0)))
            .push(("violation_count"@, whole(list.len() as int)))
            .push(("violations"@, Vec::<Violation>::tree_of(list))),
    )
}

/// Shows what a check of the invariants found.
pub fn to_json(list: &Vec<Violation>) -> (r: Tree)
    ensures
        r.deep_view() == violations_tree(list.deep_view()),
{
    Page::new()
        .with("pass", Tree::Flag(list.len() == 0))
        .with("violation_count", count_tree(list.len()))
        .with("violations", list.shown())
        .done()
}

} // verus!
