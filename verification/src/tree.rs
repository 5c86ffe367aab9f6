//! Trees of plain values: what a configuration file or a JSON message says.
use vstd::prelude::*;
use crate::text::{owned, same};

verus! {

/// A value read from JSON or TOML. A number keeps its spelling.
#[derive(Debug, PartialEq, Eq)]
pub enum Tree {
    Nothing,
    Flag(bool),
    Number(String),
    Text(String),
    List(Vec<Tree>),
    Table(Vec<(String, Tree)>),
}

pub enum TreeView {
    Nothing,
    Flag(bool),
    Number(Seq<char>),
    Text(Seq<char>),
    List(Seq<TreeView>),
    Table(Seq<(Seq<char>, TreeView)>),
}

impl DeepView for Tree {
    type V = TreeView;

    open spec fn deep_view(&self) -> TreeView
        decreases self,
    {
        match self {
            Tree::Nothing => TreeView::Nothing,
            Tree::Flag(b) => TreeView::Flag(*b),
            Tree::Number(s) => TreeView::Number(s@),
            Tree::Text(s) => TreeView::Text(s@),
            Tree::List(v) => TreeView::List(
                Seq::new(
                    v@.len(),
                    |i: int|
                        if 0 <= i < v@.len() {
                            v@[i].deep_view()
                        } else {
                            TreeView::Nothing
                        },
                ),
            ),
            Tree::Table(v) => TreeView::Table(
                Seq::new(
                    v@.len(),
                    |i: int|
                        (
                            v@[i].0@,
                            if 0 <= i < v@.len() {
                                v@[i].1.deep_view()
                            } else {
                                TreeView::Nothing
                            },
                        ),
                ),
            ),
        }
    }
}

pub proof fn lemma_table_view(v: Vec<(String, Tree)>)
    ensures
        (Tree::Table(v)).deep_view() is Table,
        (Tree::Table(v)).deep_view()->Table_0 == v.deep_view(),
{
    let t = (Tree::Table(v)).deep_view();
    assert(t->Table_0 =~= v.deep_view());
}

pub proof fn lemma_list_view(v: Vec<Tree>)
    ensures
        (Tree::List(v)).deep_view() is List,
        (Tree::List(v)).deep_view()->List_0 == v.deep_view(),
{
    let t = (Tree::List(v)).deep_view();
    assert(t->List_0 =~= v.deep_view());
}

/// The first entry of a table under a key.
pub open spec fn entry(entries: Seq<(Seq<char>, TreeView)>, k: Seq<char>) -> Option<TreeView>
    decreases entries.len(),
{
    if entries.len() == 0 {
        None
    } else if entries[0].0 == k {
        Some(entries[0].1)
    } else {
        entry(entries.skip(1), k)
    }
}

/// What a tree holds under a key; nothing unless it is a table with that key.
pub open spec fn field(t: TreeView, k: Seq<char>) -> Option<TreeView> {
    match t {
        TreeView::Table(entries) => entry(entries, k),
        _ => None,
    }
}

/// The entries of a table with one value set.
pub open spec fn set_entry(entries: Seq<(Seq<char>, TreeView)>, k: Seq<char>, v: TreeView) -> Seq<
    (Seq<char>, TreeView),
>
    decreases entries.len(),
{
    if entries.len() == 0 {
        seq![(k, v)]
    } else if entries[0].0 == k {
        seq![(k, v)] + entries.skip(1)
    } else {
        seq![entries[0]] + set_entry(entries.skip(1), k, v)
    }
}

/// What was set under a key is found there, and every other key keeps its
/// value.
pub proof fn lemma_set_entry(
    entries: Seq<(Seq<char>, TreeView)>,
    k: Seq<char>,
    v: TreeView,
    other: Seq<char>,
)
    ensures
        entry(set_entry(entries, k, v), k) == Some(v),
        other != k ==> entry(set_entry(entries, k, v), other) == entry(entries, other),
    decreases entries.len(),
{
    let r = set_entry(entries, k, v);
    if entries.len() == 0 {
        assert(r.skip(1) =~= seq![]);
        assert(entry(r.skip(1), other) is None);
    } else if entries[0].0 == k {
        assert(r.skip(1) =~= entries.skip(1));
    } else {
        lemma_set_entry(entries.skip(1), k, v, other);
        assert(r.skip(1) =~= set_entry(entries.skip(1), k, v));
    }
}

/// Sets one value of a table.
pub fn with_entry(entries: Vec<(String, Tree)>, k: &str, v: Tree) -> (r: Vec<(String, Tree)>)
    ensures
        r.deep_view() == set_entry(entries.deep_view(), k@, v.deep_view()),
{
    let ghost whole = entries.deep_view();
    let ghost val = v.deep_view();
    let mut out = entries;
    let mut i: usize = 0;
    assert(whole.skip(0) =~= whole);
    assert(whole.take(0) + set_entry(whole, k@, val) =~= set_entry(whole, k@, val));
    while i < out.len()
        invariant
            i <= out.len(),
            out.deep_view() == whole,
            whole == entries.deep_view(),
            val == v.deep_view(),
            set_entry(whole, k@, val) =~= whole.take(i as int) + set_entry(
                whole.skip(i as int),
                k@,
                val,
            ),
        decreases out.len() - i,
    {
        let ghost rest = whole.skip(i as int);
        assert(rest[0] == whole[i as int]);
        assert(whole[i as int] == out[i as int].deep_view());
        if same(out[i].0.as_str(), k) {
            out.set(i, (owned(k), v));
            assert(out.deep_view() =~= whole.take(i as int) + (seq![(k@, val)] + rest.skip(1)));
            return out;
        }
        assert(rest.skip(1) =~= whole.skip(i + 1));
        assert(whole.take(i as int) + (seq![rest[0]] + set_entry(rest.skip(1), k@, val))
            =~= whole.take(i + 1) + set_entry(rest.skip(1), k@, val));
        i += 1;
    }
    assert(whole.skip(i as int) =~= seq![]);
    assert(whole.take(i as int) =~= whole);
    out.push((owned(k), v));
    assert(out.deep_view() =~= whole + seq![(k@, val)]);
    out
}

pub open spec fn text(t: TreeView) -> Option<Seq<char>> {
    match t {
        TreeView::Text(s) => Some(s),
        _ => None,
    }
}

pub open spec fn text_field(t: TreeView, k: Seq<char>) -> Option<Seq<char>> {
    match field(t, k) {
        Some(v) => text(v),
        None => None,
    }
}

/// A part of a record, which is written as a table with a key for each part or as
/// a list with the parts in order.
pub open spec fn part(t: TreeView, k: Seq<char>, i: int) -> Option<TreeView> {
    match t {
        TreeView::List(items) => if 0 <= i < items.len() {
            Some(items[i])
        } else {
            None
        },
        _ => field(t, k),
    }
}

/// The text that a part of a record is.
pub open spec fn text_part(t: TreeView, k: Seq<char>, i: int) -> Option<Seq<char>> {
    match part(t, k, i) {
        Some(v) => text(v),
        None => None,
    }
}

pub open spec fn each_text() -> spec_fn(TreeView) -> Option<Seq<char>> {
    |t: TreeView| text(t)
}

/// The texts among the items of a list; none unless the tree is a list.
pub open spec fn texts(t: Option<TreeView>) -> Seq<Seq<char>> {
    match t {
        Some(TreeView::List(items)) => items.filter_map(each_text()),
        _ => seq![],
    }
}

impl Tree {
    pub fn field(&self, k: &str) -> (r: Option<&Tree>)
        ensures
            match r {
                Some(t) => field(self.deep_view(), k@) == Some(t.deep_view()),
                None => field(self.deep_view(), k@) is None,
            },
    {
        if let Tree::Table(v) = self {
            let ghost all = v.deep_view();
            proof {
                lemma_table_view(*v);
            }
            let mut i: usize = 0;
            assert(all.skip(0) =~= all);
            while i < v.len()
                invariant
                    i <= v.len(),
                    self.deep_view() == TreeView::Table(all),
                    all == v.deep_view(),
                    entry(all, k@) == entry(all.skip(i as int), k@),
                decreases v.len() - i,
            {
                assert(all.skip(i as int)[0] == all[i as int]);
                assert(all[i as int] == (v@[i as int].0@, v@[i as int].1.deep_view()));
                if same(v[i].0.as_str(), k) {
                    return Some(&v[i].1);
                }
                assert(all.skip(i as int).skip(1) =~= all.skip(i + 1));
                i += 1;
            }
            None
        } else {
            None
        }
    }

    pub fn text(&self) -> (r: Option<String>)
        ensures
            r.deep_view() == text(self.deep_view()),
    {
        match self {
            Tree::Text(s) => Some(owned(s.as_str())),
            _ => None,
        }
    }

    pub fn text_field(&self, k: &str) -> (r: Option<String>)
        ensures
            r.deep_view() == text_field(self.deep_view(), k@),
    {
        match self.field(k) {
            Some(t) => t.text(),
            None => None,
        }
    }

    /// A part of a record: by its key in a table, by its place in a list.
    pub fn part(&self, k: &str, i: usize) -> (r: Option<&Tree>)
        ensures
            match r {
                Some(t) => part(self.deep_view(), k@, i as int) == Some(t.deep_view()),
                None => part(self.deep_view(), k@, i as int) is None,
            },
    {
        match self {
            Tree::List(v) => {
                proof {
                    lemma_list_view(*v);
                    assert(v.deep_view().len() == v@.len());
                }
                if i < v.len() {
                    assert(v.deep_view()[i as int] == v[i as int].deep_view());
                    Some(&v[i])
                } else {
                    None
                }
            },
            _ => self.field(k),
        }
    }

    /// The text that a part of a record is.
    pub fn text_part(&self, k: &str, i: usize) -> (r: Option<String>)
        ensures
            r.deep_view() == text_part(self.deep_view(), k@, i as int),
    {
        match self.part(k, i) {
            Some(t) => t.text(),
            None => None,
        }
    }

    /// The texts of the list under a key.
    pub fn texts_field(&self, k: &str) -> (r: Vec<String>)
        ensures
            r.deep_view() == texts(field(self.deep_view(), k@)),
    {
        let mut out: Vec<String> = Vec::new();
        if let Some(Tree::List(v)) = self.field(k) {
            let ghost all = (Tree::List(*v)).deep_view()->List_0;
            let mut i: usize = 0;
            assert(all.take(0) =~= seq![]);
            proof {
                reveal(Seq::filter_map);
            }
            while i < v.len()
                invariant
                    i <= v.len(),
                    all == (Tree::List(*v)).deep_view()->List_0,
                    all.len() == v@.len(),
                    out.deep_view() =~= all.take(i as int).filter_map(each_text()),
                decreases v.len() - i,
            {
                let ghost so_far = out.deep_view();
                proof {
                    all.lemma_filter_map_take_succ(each_text(), i as int);
                }
                assert(all[i as int] == v@[i as int].deep_view());
                if let Some(s) = v[i].text() {
                    out.push(s);
                    assert(out.deep_view() =~= so_far + seq![s@]);
                }
                i += 1;
            }
            assert(all.take(i as int) =~= all);
        }
        assert(out.deep_view() =~= texts(field(self.deep_view(), k@)));
        out
    }

    /// A tree with the same contents.
    pub fn copy(&self) -> (r: Tree)
        ensures
            r.deep_view() == self.deep_view(),
        decreases self,
    {
        match self {
            Tree::Nothing => Tree::Nothing,
            Tree::Flag(b) => Tree::Flag(*b),
            Tree::Number(s) => Tree::Number(owned(s.as_str())),
            Tree::Text(s) => Tree::Text(owned(s.as_str())),
            Tree::List(v) => {
                let mut out: Vec<Tree> = Vec::new();
                let mut i: usize = 0;
                while i < v.len()
                    invariant
                        i <= v.len(),
                        *self == Tree::List(*v),
                        out.deep_view() =~= v.deep_view().take(i as int),
                    decreases v.len() - i,
                {
                    let ghost so_far = out.deep_view();
                    assert(decreases_to!(*self => self->List_0));
                    assert(decreases_to!(v => v[i as int]));
                    out.push(v[i].copy());
                    assert(out.deep_view() =~= so_far.push(v.deep_view()[i as int]));
                    i += 1;
                }
                assert(v.deep_view().take(i as int) =~= v.deep_view());
                proof {
                    lemma_list_view(*v);
                    lemma_list_view(out);
                }
                Tree::List(out)
            },
            Tree::Table(v) => {
                let mut out: Vec<(String, Tree)> = Vec::new();
                let mut i: usize = 0;
                while i < v.len()
                    invariant
                        i <= v.len(),
                        *self == Tree::Table(*v),
                        out.deep_view() =~= v.deep_view().take(i as int),
                    decreases v.len() - i,
                {
                    let ghost so_far = out.deep_view();
                    assert(decreases_to!(*self => self->Table_0));
                    assert(decreases_to!(v => v[i as int]));
                    out.push((owned(v[i].0.as_str()), v[i].1.copy()));
                    assert(out.deep_view() =~= so_far.push(v.deep_view()[i as int]));
                    i += 1;
                }
                assert(v.deep_view().take(i as int) =~= v.deep_view());
                proof {
                    lemma_table_view(*v);
                    lemma_table_view(out);
                }
                Tree::Table(out)
            },
        }
    }
}

} // verus!
