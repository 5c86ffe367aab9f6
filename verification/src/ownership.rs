//! Who owns a concept: the directories that declare it, before those that use it.
use vstd::prelude::*;
use crate::advice::{target, target_answer};
use crate::model::{first_of, shortened, Concept, ConceptView, Index, IndexView};
use crate::order::{
    in_order, law_sorting_orders, lemma_member_sorted, lemma_sorted_member, stable_sort, Ranked,
};
use crate::paths::lemma_split_nonempty;
use crate::query::{Answer, AnswerView, Surroundings, SurroundingsView};
use crate::structural::{GraphView, StructuralGraph, SymbolView};
use crate::table::{copied_pairs, has_key, lemma_put, lookup, ordered, put, TextMap};
use crate::text::{contains, split};
use crate::text::{holds, owned, same, split_at_char};

verus! {

// ---------------------------------------------------------------------------
// Directories
// ---------------------------------------------------------------------------

/// Directories that hold other projects and own nothing themselves.
pub open spec fn is_container(s: Seq<char>) -> bool {
    s == "crates"@ || s == "packages"@ || s == "apps"@ || s == "bin"@ || s == "services"@ || s
        == "libs"@ || s == "modules"@
}

/// The directory that a file belongs to: the first segment of its path, or the
/// first two where the first is a container and the second is no file.
pub open spec fn top_of(path: Seq<char>) -> Seq<char> {
    let parts = split(path, '/');
    if is_container(parts[0]) && parts.len() > 1 && !contains(parts[1], "."@) {
        parts[0] + "/"@ + parts[1]
    } else {
        parts[0]
    }
}

/// The directory that a file belongs to.
pub fn top_segment(path: &str) -> (r: String)
    ensures
        r@ == top_of(path@),
{
    let parts = split_at_char(path, '/');
    let ghost pv = parts.deep_view();
    proof {
        lemma_split_nonempty(path@, '/');
    }
    assert(pv.len() == parts@.len());
    assert(pv[0] == parts[0]@);
    let first = parts[0].as_str();
    let container = same(first, "crates") || same(first, "packages") || same(first, "apps") || same(
        first,
        "bin",
    ) || same(first, "services") || same(first, "libs") || same(first, "modules");
    if container && parts.len() > 1 {
        assert(pv[1] == parts[1]@);
        if !holds(parts[1].as_str(), ".") {
            let mut out = owned(first);
            out.append("/");
            out.append(parts[1].as_str());
            return out;
        }
    }
    owned(first)
}

// ---------------------------------------------------------------------------
// Counting
// ---------------------------------------------------------------------------

/// How often something was seen.
#[derive(Debug)]
pub struct Count {
    pub n: usize,
}

impl DeepView for Count {
    type V = nat;

    open spec fn deep_view(&self) -> nat {
        self.n as nat
    }
}

pub open spec fn seen_so_far(m: Seq<(Seq<char>, nat)>, k: Seq<char>) -> nat {
    match lookup(m, k) {
        Some(n) => n,
        None => 0,
    }
}

/// How many of the files of a list lie in each directory.
pub open spec fn tally(list: Seq<(Seq<char>, Seq<char>)>) -> Seq<(Seq<char>, nat)>
    decreases list.len(),
{
    if list.len() == 0 {
        seq![]
    } else {
        let m = tally(list.drop_last());
        let d = top_of(list.last().0);
        put(m, d, seen_so_far(m, d) + 1)
    }
}

/// How many of the files of a list lie in each directory.
pub fn tally_of(list: &Vec<(String, String)>) -> (r: TextMap<Count>)
    ensures
        r.deep_view() == tally(list.deep_view()),
        forall|k: Seq<char>| #[trigger] seen_so_far(r.deep_view(), k) <= list@.len(),
{
    let ghost lv = list.deep_view();
    let mut m: TextMap<Count> = TextMap::new();
    let mut i: usize = 0;
    assert(m.deep_view() == tally(lv.take(0)));
    while i < list.len()
        invariant
            i <= list.len(),
            lv == list.deep_view(),
            m.deep_view() == tally(lv.take(i as int)),
            forall|k: Seq<char>| #[trigger] seen_so_far(m.deep_view(), k) <= i,
        decreases list.len() - i,
    {
        let ghost before = m.deep_view();
        let ghost step = lv.take(i + 1);
        assert(lv[i as int] == list[i as int].deep_view());
        proof {
            assert(step.drop_last() =~= lv.take(i as int));
            assert(step.last() == lv[i as int]);
        }
        let d = top_segment(list[i].0.as_str());
        let n: usize = match m.get(d.as_str()) {
            Some(c) => c.n,
            None => 0,
        };
        assert(n == seen_so_far(before, d@));
        let size: usize = m.len();
        proof {
            lemma_put(before, d@, (n + 1) as nat);
        }
        let ghost dv = d@;
        m = m.with(d, Count { n: n + 1 });
        assert(m.deep_view() == put(before, dv, (n + 1) as nat));
        assert forall|k: Seq<char>| #[trigger] seen_so_far(m.deep_view(), k) <= i + 1 by {
            if k != dv {
                assert(lookup(m.deep_view(), k) == lookup(before, k));
                assert(seen_so_far(before, k) <= i);
            }
        }
        i += 1;
    }
    assert(lv.take(i as int) =~= lv);
    m
}

// ---------------------------------------------------------------------------
// Owners
// ---------------------------------------------------------------------------

/// A directory that declares a concept, with its declarations and uses.
#[derive(Debug)]
pub struct Holder {
    pub dir: String,
    pub declared: usize,
    pub used: usize,
}

pub struct HolderView {
    pub dir: Seq<char>,
    pub declared: nat,
    pub used: nat,
}

impl DeepView for Holder {
    type V = HolderView;

    open spec fn deep_view(&self) -> HolderView {
        HolderView { dir: self.dir@, declared: self.declared as nat, used: self.used as nat }
    }
}

impl Ranked for Holder {
    /// More declarations lead; uses break the tie.
    open spec fn leads(a: HolderView, b: HolderView) -> bool {
        a.declared > b.declared || (a.declared == b.declared && a.used > b.used)
    }

    fn goes_before(&self, other: &Self) -> (r: bool) {
        self.declared > other.declared || (self.declared == other.declared && self.used
            > other.used)
    }
}

/// A directory with its weight.
#[derive(Debug)]
pub struct Weighted {
    pub dir: String,
    pub weight: u128,
}

pub struct WeightedView {
    pub dir: Seq<char>,
    pub weight: int,
}

impl DeepView for Weighted {
    type V = WeightedView;

    open spec fn deep_view(&self) -> WeightedView {
        WeightedView { dir: self.dir@, weight: self.weight as int }
    }
}

impl Ranked for Weighted {
    open spec fn leads(a: WeightedView, b: WeightedView) -> bool {
        a.weight > b.weight
    }

    fn goes_before(&self, other: &Self) -> (r: bool) {
        self.weight > other.weight
    }
}

#[derive(Debug)]
pub struct Ownership {
    pub target: String,
    pub owner_directory: Option<String>,
    pub because: Option<String>,
    /// File and kind of each declaration.
    pub declared_in: Vec<(String, String)>,
    pub ranked_directories: Vec<Weighted>,
    /// The target is a symbol of the source and no declared concept.
    pub in_source: bool,
}

pub struct OwnershipView {
    pub target: Seq<char>,
    pub owner_directory: Option<Seq<char>>,
    pub because: Option<Seq<char>>,
    pub declared_in: Seq<(Seq<char>, Seq<char>)>,
    pub ranked_directories: Seq<WeightedView>,
    pub in_source: bool,
}

impl DeepView for Ownership {
    type V = OwnershipView;

    open spec fn deep_view(&self) -> OwnershipView {
        OwnershipView {
            target: self.target@,
            owner_directory: self.owner_directory.deep_view(),
            because: self.because.deep_view(),
            declared_in: self.declared_in.deep_view(),
            ranked_directories: self.ranked_directories.deep_view(),
            in_source: self.in_source,
        }
    }
}

/// Who owns a target; where nothing bears its name, the answer that says so.
#[derive(Debug)]
pub enum Owner {
    Unowned(Answer),
    Known(Ownership),
}

pub enum OwnerView {
    Unowned(AnswerView),
    Known(OwnershipView),
}

impl DeepView for Owner {
    type V = OwnerView;

    open spec fn deep_view(&self) -> OwnerView {
        match self {
            Owner::Unowned(a) => OwnerView::Unowned(a.deep_view()),
            Owner::Known(o) => OwnerView::Known(o.deep_view()),
        }
    }
}

pub open spec fn each_holder(uses: Seq<(Seq<char>, nat)>) -> spec_fn((Seq<char>, nat)) -> HolderView {
    |e: (Seq<char>, nat)|
        HolderView { dir: e.0, declared: e.1, used: seen_so_far(uses, e.0) }
}

/// The directories that declare a concept, the first of them its owner.
pub open spec fn holders(c: ConceptView) -> Seq<HolderView> {
    stable_sort::<Holder>(tally(c.declared_in).map_values(each_holder(tally(c.usage))))
}

pub open spec fn each_weight() -> spec_fn(HolderView) -> WeightedView {
    |h: HolderView| WeightedView { dir: h.dir, weight: (2 * h.declared + h.used) as int }
}

pub open spec fn each_interested(declared: Seq<(Seq<char>, nat)>) -> spec_fn(
    (Seq<char>, nat),
) -> Option<WeightedView> {
    |e: (Seq<char>, nat)|
        if has_key(declared, e.0) {
            None
        } else {
            Some(WeightedView { dir: e.0, weight: e.1 as int })
        }
}

/// All directories that have to do with a concept, by weight: a declaration
/// counts for two uses.
pub open spec fn ranking(c: ConceptView) -> Seq<WeightedView> {
    stable_sort::<Weighted>(
        holders(c).map_values(each_weight()) + tally(c.usage).filter_map(
            each_interested(tally(c.declared_in)),
        ),
    )
}

pub open spec fn declared_ownership(name: Seq<char>, c: ConceptView) -> OwnershipView {
    let h = holders(c);
    let owner = if h.len() > 0 {
        Some(h[0].dir)
    } else {
        None
    };
    OwnershipView {
        target: name,
        owner_directory: owner,
        because: match owner {
            Some(d) => Some(
                "'"@ + d
                    + "' holds the declaration(s) — maintaining the contract is ownership; calling it is only interest"@,
            ),
            None => None,
        },
        declared_in: c.declared_in,
        ranked_directories: first_of(ranking(c), 6),
        in_source: false,
    }
}

/// The first symbol from `i` on that bears a name.
pub open spec fn symbol_from(symbols: Seq<(Seq<char>, SymbolView)>, name: Seq<char>, i: int) -> Option<
    SymbolView,
>
    decreases symbols.len() - i,
{
    if i < 0 || i >= symbols.len() {
        None
    } else if symbols[i].1.name == name {
        Some(symbols[i].1)
    } else {
        symbol_from(symbols, name, i + 1)
    }
}

pub open spec fn symbol_ownership(name: Seq<char>, graph: GraphView) -> OwnershipView {
    match symbol_from(graph.symbols, name, 0) {
        None => OwnershipView {
            target: name,
            owner_directory: None,
            because: None,
            declared_in: seq![],
            ranked_directories: seq![],
            in_source: true,
        },
        Some(s) => OwnershipView {
            target: name,
            owner_directory: Some(top_of(s.file)),
            because: Some(
                "'"@ + top_of(s.file)
                    + "' declares this structural symbol — its only known declaration site"@,
            ),
            declared_in: seq![(s.file, s.kind.label_text())],
            ranked_directories: seq![WeightedView { dir: top_of(s.file), weight: 1 }],
            in_source: true,
        },
    }
}

pub open spec fn owner_of(
    idx: IndexView,
    graph: GraphView,
    around: SurroundingsView,
    term: Seq<char>,
) -> OwnerView {
    let a = target_answer(idx, graph, around, term);
    match a.canonical {
        None => OwnerView::Unowned(a),
        Some(name) => OwnerView::Known(ownership(idx, graph, name)),
    }
}

pub open spec fn ownership(idx: IndexView, graph: GraphView, name: Seq<char>) -> OwnershipView {
    match lookup(idx.concepts, name) {
        Some(c) => declared_ownership(name, c),
        None => symbol_ownership(name, graph),
    }
}

fn holders_of(declared: &TextMap<Count>, uses: &TextMap<Count>) -> (r: Vec<Holder>)
    ensures
        r.deep_view() == stable_sort::<Holder>(
            declared.deep_view().map_values(each_holder(uses.deep_view())),
        ),
{
    let ghost all = declared.deep_view().map_values(each_holder(uses.deep_view()));
    let n: usize = declared.len();
    let mut out: Vec<Holder> = Vec::new();
    let mut i: usize = 0;
    while i < n
        invariant
            i <= n,
            n == declared.deep_view().len(),
            all == declared.deep_view().map_values(each_holder(uses.deep_view())),
            out.deep_view() =~= all.take(i as int),
        decreases n - i,
    {
        let ghost so_far = out.deep_view();
        let dir = declared.key(i);
        let used: usize = match uses.get(dir) {
            Some(c) => c.n,
            None => 0,
        };
        let h = Holder { dir: owned(dir), declared: declared.value(i).n, used };
        assert(h.deep_view() == all[i as int]);
        out.push(h);
        assert(out.deep_view() =~= so_far.push(all[i as int]));
        i += 1;
    }
    assert(all.take(i as int) =~= all);
    in_order(out)
}

fn ranking_of(holders: &Vec<Holder>, declared: &TextMap<Count>, uses: &TextMap<Count>) -> (r: Vec<
    Weighted,
>)
    ensures
        r.deep_view() == stable_sort::<Weighted>(
            holders.deep_view().map_values(each_weight()) + uses.deep_view().filter_map(
                each_interested(declared.deep_view()),
            ),
        ),
{
    let ghost own = holders.deep_view().map_values(each_weight());
    let mut out: Vec<Weighted> = Vec::new();
    let mut i: usize = 0;
    while i < holders.len()
        invariant
            i <= holders.len(),
            own == holders.deep_view().map_values(each_weight()),
            out.deep_view() =~= own.take(i as int),
        decreases holders.len() - i,
    {
        let ghost so_far = out.deep_view();
        let h = &holders[i];
        assert(holders.deep_view()[i as int] == h.deep_view());
        let w = Weighted {
            dir: owned(h.dir.as_str()),
            weight: 2 * (h.declared as u128) + h.used as u128,
        };
        assert(w.deep_view() == own[i as int]);
        out.push(w);
        assert(out.deep_view() =~= so_far.push(own[i as int]));
        i += 1;
    }
    assert(own.take(i as int) =~= own);
    let ghost all = uses.deep_view();
    let ghost f = each_interested(declared.deep_view());
    let n: usize = uses.len();
    let mut j: usize = 0;
    proof {
        assert(all.take(0) =~= seq![]);
        reveal(Seq::filter_map);
        assert(own + all.take(0).filter_map(f) =~= own);
    }
    while j < n
        invariant
            j <= n,
            n == all.len(),
            all == uses.deep_view(),
            f == each_interested(declared.deep_view()),
            out.deep_view() =~= own + all.take(j as int).filter_map(f),
        decreases n - j,
    {
        let ghost so_far = out.deep_view();
        proof {
            all.lemma_filter_map_take_succ(f, j as int);
        }
        let dir = uses.key(j);
        if !declared.has(dir) {
            let w = Weighted { dir: owned(dir), weight: uses.value(j).n as u128 };
            let ghost wv = w.deep_view();
            out.push(w);
            assert(out.deep_view() =~= so_far + seq![wv]);
        }
        j += 1;
    }
    assert(all.take(j as int) =~= all);
    in_order(out)
}

fn ownership_by_declaration(name: &str, c: &Concept) -> (r: Ownership)
    ensures
        r.deep_view() == declared_ownership(name@, c.deep_view()),
{
    let declared = tally_of(&c.declared_in);
    let uses = tally_of(&c.usage);
    let h = holders_of(&declared, &uses);
    let mut owner_directory: Option<String> = None;
    let mut because: Option<String> = None;
    assert(h.deep_view().len() == h@.len());
    if h.len() > 0 {
        assert(h.deep_view()[0] == h[0].deep_view());
        let d = h[0].dir.as_str();
        let mut why = owned("'");
        why.append(d);
        why.append(
            "' holds the declaration(s) — maintaining the contract is ownership; calling it is only interest",
        );
        owner_directory = Some(owned(d));
        because = Some(why);
    }
    Ownership {
        target: owned(name),
        owner_directory,
        because,
        declared_in: copied_pairs(&c.declared_in),
        ranked_directories: shortened(ranking_of(&h, &declared, &uses), 6),
        in_source: false,
    }
}

fn ownership_by_symbol(name: &str, graph: &StructuralGraph) -> (r: Ownership)
    ensures
        r.deep_view() == symbol_ownership(name@, graph.deep_view()),
{
    let ghost sv = graph.symbols.deep_view();
    let n: usize = graph.symbols.len();
    let mut declared_in: Vec<(String, String)> = Vec::new();
    let mut ranked_directories: Vec<Weighted> = Vec::new();
    let mut i: usize = 0;
    while i < n
        invariant
            i <= n,
            n == sv.len(),
            sv == graph.symbols.deep_view(),
            declared_in@.len() == 0,
            ranked_directories@.len() == 0,
            symbol_from(sv, name@, 0) == symbol_from(sv, name@, i as int),
        decreases n - i,
    {
        let s = graph.symbols.value(i);
        if same(s.name.as_str(), name) {
            let d = top_segment(s.file.as_str());
            let mut why = owned("'");
            why.append(d.as_str());
            why.append("' declares this structural symbol — its only known declaration site");
            declared_in.push((owned(s.file.as_str()), owned(s.kind.label())));
            ranked_directories.push(Weighted { dir: owned(d.as_str()), weight: 1 });
            assert(declared_in.deep_view() =~= seq![(s.file@, s.kind.label_text())]);
            assert(ranked_directories.deep_view() =~= seq![
                WeightedView { dir: top_of(s.file@), weight: 1 },
            ]);
            return Ownership {
                target: owned(name),
                owner_directory: Some(d),
                because: Some(why),
                declared_in,
                ranked_directories,
                in_source: true,
            };
        }
        i += 1;
    }
    assert(declared_in.deep_view() =~= seq![]);
    assert(ranked_directories.deep_view() =~= seq![]);
    Ownership {
        target: owned(name),
        owner_directory: None,
        because: None,
        declared_in,
        ranked_directories,
        in_source: true,
    }
}

/// Who owns the thing of this name.
pub fn ownership_of(idx: &Index, graph: &StructuralGraph, name: &str) -> (r: Ownership)
    ensures
        r.deep_view() == ownership(idx.deep_view(), graph.deep_view(), name@),
{
    match idx.concepts.get(name) {
        Some(c) => ownership_by_declaration(name, c),
        None => ownership_by_symbol(name, graph),
    }
}

/// Who owns a target: the directory that declares it, with all that have to do
/// with it in order of weight.
pub fn owner(idx: &Index, graph: &StructuralGraph, around: &Surroundings, term: &str) -> (r: Owner)
    ensures
        r.deep_view() == owner_of(idx.deep_view(), graph.deep_view(), around.deep_view(), term@),
{
    let a = target(idx, graph, around, term);
    match &a.canonical {
        None => {},
        Some(name) => {
            return Owner::Known(ownership_of(idx, graph, name.as_str()));
        },
    }
    Owner::Unowned(a)
}

// ---------------------------------------------------------------------------
// Laws
// ---------------------------------------------------------------------------

proof fn lemma_tally(list: Seq<(Seq<char>, Seq<char>)>)
    ensures
        ordered(tally(list)),
        forall|k: Seq<char>|
            #[trigger] has_key(tally(list), k) ==> exists|i: int|
                0 <= i < list.len() && top_of((#[trigger] list[i]).0) == k,
        forall|i: int| 0 <= i < list.len() ==> has_key(tally(list), top_of((#[trigger] list[i]).0)),
    decreases list.len(),
{
    if list.len() > 0 {
        let rest = list.drop_last();
        let d = top_of(list.last().0);
        let m = tally(rest);
        lemma_tally(rest);
        lemma_put(m, d, seen_so_far(m, d) + 1);
        assert forall|k: Seq<char>| #[trigger] has_key(tally(list), k) implies exists|i: int|
            0 <= i < list.len() && top_of((#[trigger] list[i]).0) == k by {
            if k == d {
                assert(top_of(list[list.len() - 1].0) == k);
            } else {
                assert(has_key(m, k));
                let i = choose|i: int| 0 <= i < rest.len() && top_of((#[trigger] rest[i]).0) == k;
                assert(list[i] == rest[i]);
            }
        }
        assert forall|i: int| 0 <= i < list.len() implies has_key(
            tally(list),
            top_of((#[trigger] list[i]).0),
        ) by {
            if i < rest.len() {
                assert(rest[i] == list[i]);
                assert(has_key(m, top_of(rest[i].0)));
            }
        }
    }
}

/// Only a directory that holds a declaration ever owns a concept, however many
/// others use it; and a concept that is declared has an owner.
pub proof fn law_owner_declares(name: Seq<char>, c: ConceptView)
    ensures
        declared_ownership(name, c).owner_directory matches Some(d) ==> exists|i: int|
            0 <= i < c.declared_in.len() && top_of((#[trigger] c.declared_in[i]).0) == d,
        c.declared_in.len() > 0 ==> declared_ownership(name, c).owner_directory is Some,
{
    let t = tally(c.declared_in);
    let rows = t.map_values(each_holder(tally(c.usage)));
    let h = holders(c);
    lemma_tally(c.declared_in);
    if h.len() > 0 {
        lemma_sorted_member::<Holder>(rows, 0);
        let k = choose|k: int| 0 <= k < rows.len() && rows[k] == h[0];
        assert(t[k].0 == h[0].dir);
        assert(has_key(t, h[0].dir));
    }
    if c.declared_in.len() > 0 {
        assert(has_key(t, top_of(c.declared_in[0].0)));
        lemma_member_sorted::<Holder>(rows, 0);
    }
}

/// A directory holds a declaration of a concept.
pub open spec fn declares(c: ConceptView, d: Seq<char>) -> bool {
    exists|i: int| 0 <= i < c.declared_in.len() && top_of((#[trigger] c.declared_in[i]).0) == d
}

/// A use stands in a directory that declares the concept.
pub open spec fn is_at_home(c: ConceptView) -> spec_fn((Seq<char>, Seq<char>)) -> bool {
    |u: (Seq<char>, Seq<char>)| declares(c, top_of(u.0))
}

proof fn lemma_tally_counts(list: Seq<(Seq<char>, Seq<char>)>, k: Seq<char>)
    ensures
        list.len() > 0 ==> seen_so_far(tally(list), k) == seen_so_far(tally(list.drop_last()), k)
            + (if top_of(list.last().0) == k {
            1nat
        } else {
            0nat
        }),
{
    if list.len() > 0 {
        let m = tally(list.drop_last());
        let d = top_of(list.last().0);
        lemma_tally(list.drop_last());
        lemma_put(m, d, seen_so_far(m, d) + 1);
        if k != d {
            assert(lookup(tally(list), k) == lookup(m, k));
        }
    }
}

proof fn lemma_tally_filtered(
    list: Seq<(Seq<char>, Seq<char>)>,
    f: spec_fn((Seq<char>, Seq<char>)) -> bool,
    d: Seq<char>,
)
    requires
        forall|u: (Seq<char>, Seq<char>)| top_of(u.0) == d ==> #[trigger] f(u),
    ensures
        seen_so_far(tally(list.filter(f)), d) == seen_so_far(tally(list), d),
    decreases list.len(),
{
    reveal(Seq::filter);
    if list.len() > 0 {
        let front = list.drop_last();
        lemma_tally_filtered(front, f, d);
        lemma_tally_counts(list, d);
        if f(list.last()) {
            let r = list.filter(f);
            assert(r == front.filter(f).push(list.last()));
            assert(r.drop_last() =~= front.filter(f));
            lemma_tally_counts(r, d);
        }
    } else {
        assert(list.filter(f) =~= list);
    }
}

/// Interest never outvotes the contract: whoever uses a concept in directories
/// that do not declare it, and however often, its owner stays the same.
pub proof fn law_users_elsewhere_move_no_owner(
    idx: IndexView,
    other: IndexView,
    graph: GraphView,
    around: SurroundingsView,
    term: Seq<char>,
    c: ConceptView,
    d: ConceptView,
)
    requires
        lookup(idx.concepts, term) == Some(c),
        lookup(other.concepts, term) == Some(d),
        d == (ConceptView { usage: d.usage, ..c }),
        d.usage.filter(is_at_home(c)) == c.usage.filter(is_at_home(c)),
    ensures
        owner_of(idx, graph, around, term) matches OwnerView::Known(before) && owner_of(
            other,
            graph,
            around,
            term,
        ) matches OwnerView::Known(after) && before.owner_directory == after.owner_directory
            && before.because == after.because,
{
    let t = tally(c.declared_in);
    lemma_tally(c.declared_in);
    let a = t.map_values(each_holder(tally(c.usage)));
    let b = t.map_values(each_holder(tally(d.usage)));
    assert forall|i: int| 0 <= i < t.len() implies #[trigger] a[i] == b[i] by {
        let k = t[i].0;
        assert(has_key(t, k));
        assert(declares(c, k));
        lemma_tally_filtered(c.usage, is_at_home(c), k);
        lemma_tally_filtered(d.usage, is_at_home(c), k);
    }
    assert(a =~= b);
}

/// The owner of a declared concept holds the most declarations, and among those
/// that do the most uses: no other directory that declares the concept is ahead
/// of it.
pub proof fn law_owner_holds_the_most(name: Seq<char>, c: ConceptView, d: Seq<char>, other: Seq<char>)
    requires
        declared_ownership(name, c).owner_directory == Some(d),
        declares(c, other),
    ensures
        ({
            let mine = seen_so_far(tally(c.declared_in), d);
            let theirs = seen_so_far(tally(c.declared_in), other);
            mine > theirs || (mine == theirs && seen_so_far(tally(c.usage), d) >= seen_so_far(
                tally(c.usage),
                other,
            ))
        }),
{
    let t = tally(c.declared_in);
    let rows = t.map_values(each_holder(tally(c.usage)));
    let h = holders(c);
    lemma_tally(c.declared_in);
    law_sorting_orders::<Holder>(rows);
    lemma_sorted_member::<Holder>(rows, 0);
    let i = choose|i: int| 0 <= i < rows.len() && rows[i] == h[0];
    crate::table::lemma_lookup_at(t, i);
    assert(has_key(t, other));
    let j = choose|j: int| 0 <= j < t.len() && #[trigger] t[j].0 == other;
    crate::table::lemma_lookup_at(t, j);
    assert(rows[j].dir == other);
    lemma_member_sorted::<Holder>(rows, j);
    let k = choose|k: int| 0 <= k < h.len() && h[k] == rows[j];
    if k > 0 {
        assert(!Holder::leads(h[k], h[0]));
    }
}

} // verus!
