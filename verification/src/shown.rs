//! Values as trees, to be written down as JSON.
use vstd::prelude::*;
use crate::model::{Evidence, EvidenceView};
use crate::ownership::Count;
use crate::resource::{Relationship, RelationshipView, Resource, ResourceView};
use crate::structural::{Route, RouteView, Symbol, SymbolView};
use crate::table::{lookup, TextMap};
use crate::text::{decimal, decimal_int};
use crate::text::{number, owned, signed_number, wide_number};
use crate::tree::{lemma_list_view, lemma_table_view, Tree, TreeView};

verus! {

/// What can be shown as a tree.
pub trait Shown: DeepView + Sized {
    /// The tree that shows a value.
    spec fn tree_of(v: Self::V) -> TreeView;

    fn shown(&self) -> (r: Tree)
        ensures
            r.deep_view() == Self::tree_of(self.deep_view()),
    ;
}

// ---------------------------------------------------------------------------
// Plain values
// ---------------------------------------------------------------------------

pub open spec fn natural(n: nat) -> TreeView {
    TreeView::Number(decimal(n))
}

pub open spec fn whole(n: int) -> TreeView {
    TreeView::Number(decimal_int(n))
}

pub fn text_tree(s: &str) -> (r: Tree)
    ensures
        r.deep_view() == TreeView::Text(s@),
{
    Tree::Text(owned(s))
}

pub fn count_tree(n: usize) -> (r: Tree)
    ensures
        r.deep_view() == natural(n as nat),
        r.deep_view() == whole(n as int),
{
    Tree::Number(number(n as u64))
}

pub fn wide_tree(n: u128) -> (r: Tree)
    ensures
        r.deep_view() == natural(n as nat),
        r.deep_view() == whole(n as int),
{
    Tree::Number(wide_number(n))
}

pub fn whole_tree(n: i64) -> (r: Tree)
    ensures
        r.deep_view() == whole(n as int),
{
    Tree::Number(signed_number(n))
}

/// A text, or nothing.
pub open spec fn text_or_nothing(s: Option<Seq<char>>) -> TreeView {
    match s {
        Some(s) => TreeView::Text(s),
        None => TreeView::Nothing,
    }
}

impl Shown for String {
    open spec fn tree_of(v: Seq<char>) -> TreeView {
        TreeView::Text(v)
    }

    fn shown(&self) -> Tree {
        text_tree(self.as_str())
    }
}

impl Shown for bool {
    open spec fn tree_of(v: bool) -> TreeView {
        TreeView::Flag(v)
    }

    fn shown(&self) -> Tree {
        Tree::Flag(*self)
    }
}

impl Shown for Count {
    open spec fn tree_of(v: nat) -> TreeView {
        natural(v)
    }

    fn shown(&self) -> Tree {
        count_tree(self.n)
    }
}

impl Shown for (String, String) {
    open spec fn tree_of(v: (Seq<char>, Seq<char>)) -> TreeView {
        TreeView::List(seq![TreeView::Text(v.0), TreeView::Text(v.1)])
    }

    fn shown(&self) -> Tree {
        let mut both: Vec<Tree> = Vec::new();
        both.push(text_tree(self.0.as_str()));
        both.push(text_tree(self.1.as_str()));
        proof {
            lemma_list_view(both);
            assert(both.deep_view() =~= seq![TreeView::Text(self.0@), TreeView::Text(self.1@)]);
        }
        Tree::List(both)
    }
}

impl<T: Shown> Shown for Option<T> {
    open spec fn tree_of(v: Option<T::V>) -> TreeView {
        match v {
            Some(x) => T::tree_of(x),
            None => TreeView::Nothing,
        }
    }

    fn shown(&self) -> Tree {
        match self {
            Some(x) => {
                let t = x.shown();
                assert(self.deep_view() == Some(x.deep_view()));
                assert(t.deep_view() == T::tree_of(x.deep_view()));
                assert(Self::tree_of(Some(x.deep_view())) == T::tree_of(x.deep_view()));
                t
            },
            None => {
                assert(self.deep_view() == None::<T::V>);
                Tree::Nothing
            },
        }
    }
}

impl<T: Shown> Shown for Vec<T> {
    open spec fn tree_of(v: Seq<T::V>) -> TreeView {
        TreeView::List(v.map_values(|x: T::V| T::tree_of(x)))
    }

    fn shown(&self) -> Tree {
        let ghost all = self.deep_view().map_values(|x: T::V| T::tree_of(x));
        let mut out: Vec<Tree> = Vec::new();
        let mut i: usize = 0;
        while i < self.len()
            invariant
                i <= self.len(),
                all == self.deep_view().map_values(|x: T::V| T::tree_of(x)),
                out.deep_view() =~= all.take(i as int),
            decreases self.len() - i,
        {
            let ghost so_far = out.deep_view();
            assert(self.deep_view()[i as int] == self[i as int].deep_view());
            out.push(self[i].shown());
            assert(out.deep_view() =~= so_far.push(all[i as int]));
            i += 1;
        }
        assert(all.take(i as int) =~= all);
        proof {
            lemma_list_view(out);
        }
        Tree::List(out)
    }
}

impl<T: Shown> Shown for TextMap<T> {
    open spec fn tree_of(v: Seq<(Seq<char>, T::V)>) -> TreeView {
        TreeView::Table(v.map_values(|e: (Seq<char>, T::V)| (e.0, T::tree_of(e.1))))
    }

    fn shown(&self) -> Tree {
        let ghost all = self.deep_view().map_values(
            |e: (Seq<char>, T::V)| (e.0, T::tree_of(e.1)),
        );
        let mut out: Vec<(String, Tree)> = Vec::new();
        let n: usize = self.len();
        let mut i: usize = 0;
        while i < n
            invariant
                i <= n,
                n == self.deep_view().len(),
                all == self.deep_view().map_values(
                    |e: (Seq<char>, T::V)| (e.0, T::tree_of(e.1)),
                ),
                out.deep_view() =~= all.take(i as int),
            decreases n - i,
        {
            let ghost so_far = out.deep_view();
            out.push((owned(self.key(i)), self.value(i).shown()));
            assert(out.deep_view() =~= so_far.push(all[i as int]));
            i += 1;
        }
        assert(all.take(i as int) =~= all);
        proof {
            lemma_table_view(out);
        }
        Tree::Table(out)
    }
}

pub open spec fn blank() -> Seq<(Seq<char>, TreeView)> {
    Seq::empty()
}

/// A table that is being filled.
pub struct Page {
    entries: Vec<(String, Tree)>,
}

impl View for Page {
    type V = Seq<(Seq<char>, TreeView)>;

    closed spec fn view(&self) -> Seq<(Seq<char>, TreeView)> {
        self.entries.deep_view()
    }
}

impl Page {
    pub fn new() -> (r: Page)
        ensures
            r@ == blank(),
    {
        let r = Page { entries: Vec::new() };
        assert(r@ =~= blank());
        r
    }

    pub fn with(self, key: &str, value: Tree) -> (r: Page)
        ensures
            r@ == self@.push((key@, value.deep_view())),
    {
        let mut entries = self.entries;
        entries.push((owned(key), value));
        let r = Page { entries };
        assert(r@ =~= self@.push((key@, value.deep_view())));
        r
    }

    pub fn with_text(self, key: &str, value: &str) -> (r: Page)
        ensures
            r@ == self@.push((key@, TreeView::Text(value@))),
    {
        self.with(key, text_tree(value))
    }

    pub fn done(self) -> (r: Tree)
        ensures
            r.deep_view() == TreeView::Table(self@),
    {
        proof {
            lemma_table_view(self.entries);
        }
        Tree::Table(self.entries)
    }
}

// ---------------------------------------------------------------------------
// Ages
// ---------------------------------------------------------------------------

/// How long ago a moment was, in words, where that is at hand: `ages` holds the
/// words by the moment's milliseconds in decimal.
pub open spec fn age_tree(ages: Seq<(Seq<char>, Seq<char>)>, ms: int) -> TreeView {
    text_or_nothing(lookup(ages, decimal_int(ms)))
}

/// Shows how long ago a moment was.
pub fn age_shown(ages: &TextMap<String>, ms: i64) -> (r: Tree)
    ensures
        r.deep_view() == age_tree(ages.deep_view(), ms as int),
{
    match ages.get(signed_number(ms).as_str()) {
        Some(words) => text_tree(words.as_str()),
        None => Tree::Nothing,
    }
}

// ---------------------------------------------------------------------------
// Evidence, resources, symbols
// ---------------------------------------------------------------------------

impl Shown for Evidence {
    open spec fn tree_of(v: EvidenceView) -> TreeView {
        TreeView::Table(
            blank()
                .push(("tier"@, TreeView::Text(v.tier.label_text())))
                .push(("what"@, TreeView::Text(v.what))),
        )
    }

    fn shown(&self) -> Tree {
        Page::new()
            .with_text("tier", self.tier.label())
            .with_text("what", self.what.as_str())
            .done()
    }
}

/// A line, where there is one.
pub open spec fn line_tree(line: Option<int>) -> TreeView {
    match line {
        Some(n) => whole(n),
        None => TreeView::Nothing,
    }
}

impl Shown for Resource {
    open spec fn tree_of(v: ResourceView) -> TreeView {
        TreeView::Table(
            blank()
                .push(("id"@, TreeView::Text(v.id)))
                .push(("kind"@, TreeView::Text(v.kind)))
                .push(("domain"@, TreeView::Text(v.domain)))
                .push(
                    (
                        "location"@,
                        TreeView::Table(
                            blank()
                                .push(("file"@, TreeView::Text(v.file)))
                                .push(("line"@, line_tree(v.line))),
                        ),
                    ),
                )
                .push(("attributes"@, TextMap::<String>::tree_of(v.attributes)))
                .push(("evidence"@, Vec::<Evidence>::tree_of(v.evidence))),
        )
    }

    fn shown(&self) -> Tree {
        let line = match self.location.line {
            Some(n) => count_tree(n),
            None => Tree::Nothing,
        };
        let place = Page::new().with_text("file", self.location.file.as_str()).with("line", line);
        Page::new()
            .with_text("id", self.id.0.as_str())
            .with_text("kind", self.kind.as_str())
            .with_text("domain", self.domain.as_str())
            .with("location", place.done())
            .with("attributes", self.attributes.shown())
            .with("evidence", self.evidence.shown())
            .done()
    }
}

impl Shown for Relationship {
    open spec fn tree_of(v: RelationshipView) -> TreeView {
        TreeView::Table(
            blank()
                .push(("from"@, TreeView::Text(v.from)))
                .push(("kind"@, TreeView::Text(v.kind)))
                .push(("to"@, TreeView::Text(v.to)))
                .push(("evidence"@, Evidence::tree_of(v.evidence))),
        )
    }

    fn shown(&self) -> Tree {
        Page::new()
            .with_text("from", self.from.0.as_str())
            .with_text("kind", self.kind.as_str())
            .with_text("to", self.to.0.as_str())
            .with("evidence", self.evidence.shown())
            .done()
    }
}

impl Shown for Symbol {
    open spec fn tree_of(v: SymbolView) -> TreeView {
        TreeView::Table(
            blank()
                .push(("name"@, TreeView::Text(v.name)))
                .push(("kind"@, TreeView::Text(v.kind.label_text())))
                .push(("file"@, TreeView::Text(v.file)))
                .push(("line"@, natural(v.line))),
        )
    }

    fn shown(&self) -> Tree {
        Page::new()
            .with_text("name", self.name.as_str())
            .with_text("kind", self.kind.label())
            .with_text("file", self.file.as_str())
            .with("line", count_tree(self.line))
            .done()
    }
}

impl Shown for Route {
    open spec fn tree_of(v: RouteView) -> TreeView {
        TreeView::Table(
            blank()
                .push(("method"@, TreeView::Text(v.method)))
                .push(("path"@, TreeView::Text(v.path)))
                .push(("handler"@, TreeView::Text(v.handler)))
                .push(("file"@, TreeView::Text(v.file))),
        )
    }

    fn shown(&self) -> Tree {
        Page::new()
            .with_text("method", self.method.as_str())
            .with_text("path", self.path.as_str())
            .with_text("handler", self.handler.as_str())
            .with_text("file", self.file.as_str())
            .done()
    }
}

} // verus!
