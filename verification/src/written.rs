//! Texts written as JSON, and documents written as TOML.
use vstd::prelude::*;
use crate::outside::{toml_content, toml_shown, toml_tree};
use crate::text::{back_run, CharClass};
use crate::text::chars_of;
use crate::tree::{lemma_list_view, lemma_table_view, Tree, TreeView};

verus! {

pub open spec fn hex_char(n: int) -> char {
    if n < 10 {
        (48 + n) as u32 as char
    } else {
        (87 + n) as u32 as char
    }
}

/// A character within a JSON text: quotes, backslashes and control characters are
/// escaped, by a letter where there is one, else by four hexadecimal digits.
pub open spec fn json_char(c: char) -> Seq<char> {
    if c == '"' || c == '\\' {
        seq!['\\', c]
    } else if c == '\u{8}' {
        seq!['\\', 'b']
    } else if c == '\t' {
        seq!['\\', 't']
    } else if c == '\n' {
        seq!['\\', 'n']
    } else if c == '\u{c}' {
        seq!['\\', 'f']
    } else if c == '\r' {
        seq!['\\', 'r']
    } else if c <= '\u{1f}' {
        seq!['\\', 'u', '0', '0', hex_char(c as int / 16), hex_char(c as int % 16)]
    } else {
        seq![c]
    }
}

/// The characters of a text as JSON writes them.
pub open spec fn json_chars(s: Seq<char>) -> Seq<char>
    decreases s.len(),
{
    if s.len() == 0 {
        seq![]
    } else {
        json_chars(s.drop_last()) + json_char(s.last())
    }
}

/// A text as JSON writes it.
pub open spec fn json_text(s: Seq<char>) -> Seq<char> {
    seq!['"'] + json_chars(s) + seq!['"']
}

/// `serde_json::Value::String` and its `to_string`: a text as JSON writes it, in
/// quotes and with its escapes.
#[verifier::external_body]
pub(crate) fn json_text_of(s: &str) -> (r: String)
    ensures
        r@ == json_text(s@),
{
    serde_json::Value::String(s.to_string()).to_string()
}

// ---------------------------------------------------------------------------
// TOML
// ---------------------------------------------------------------------------

/// How deep a document may nest to be read: the bound that `toml` sets.
pub const DEEPEST_READ: u64 = 80;

/// How deep a document may nest to be written: each level takes some of the
/// stack.
pub const DEEPEST_WRITTEN: u64 = 256;

/// No quote of one kind is repeated so often that its repetitions cannot be
/// counted in a byte.
pub open spec fn is_quotable(s: Seq<char>) -> bool {
    forall|i: int|
        0 <= i <= s.len() ==> back_run(#[trigger] s.take(i), CharClass::Is('\'')) < 256 && back_run(
            s.take(i),
            CharClass::Is('"'),
        ) < 256
}

/// A key that TOML's own dates are marked with, and so stands for no other thing.
pub open spec fn is_date_mark(k: Seq<char>) -> bool {
    k == "$__toml_private_datetime"@
}

/// A tree that nests no deeper than it may and whose texts can be quoted. Dates'
/// own mark is a key of it only where `marks` lets it be.
pub open spec fn is_fit(t: TreeView, depth: nat, marks: bool) -> bool
    decreases t,
{
    match t {
        TreeView::Text(s) => is_quotable(s),
        TreeView::List(items) => {
            &&& depth > 0
            &&& forall|i: int|
                0 <= i < items.len() ==> is_fit(#[trigger] items[i], (depth - 1) as nat, marks)
        },
        TreeView::Table(entries) => {
            &&& depth > 0
            &&& forall|i: int|
                0 <= i < entries.len() ==> {
                    let e = #[trigger] entries[i];
                    (marks || !is_date_mark(e.0)) && is_fit(e.1, (depth - 1) as nat, marks)
                }
        },
        _ => true,
    }
}

/// A document that can be written as TOML.
pub open spec fn is_writable(t: TreeView) -> bool {
    t is Table && is_fit(t, DEEPEST_WRITTEN as nat, true)
}

/// A document that can be written as TOML and read again.
pub open spec fn is_readable(t: TreeView) -> bool {
    t is Table && is_fit(t, DEEPEST_READ as nat, false)
}

/// A tree that is fit stays so where more is let be.
proof fn lemma_fit_widens(t: TreeView, depth: nat, marks: bool, deeper: nat, more: bool)
    requires
        is_fit(t, depth, marks),
        depth <= deeper,
        marks ==> more,
    ensures
        is_fit(t, deeper, more),
    decreases t,
{
    match t {
        TreeView::List(items) => {
            assert forall|i: int| 0 <= i < items.len() implies is_fit(
                #[trigger] items[i],
                (deeper - 1) as nat,
                more,
            ) by {
                lemma_fit_widens(items[i], (depth - 1) as nat, marks, (deeper - 1) as nat, more);
            }
        },
        TreeView::Table(entries) => {
            assert forall|i: int| 0 <= i < entries.len() implies (more || !is_date_mark(
                (#[trigger] entries[i]).0,
            )) && is_fit(entries[i].1, (deeper - 1) as nat, more) by {
                lemma_fit_widens(
                    entries[i].1,
                    (depth - 1) as nat,
                    marks,
                    (deeper - 1) as nat,
                    more,
                );
            }
        },
        _ => {},
    }
}

/// What can be read again can be written.
pub proof fn law_readable_is_writable(t: TreeView)
    requires
        is_readable(t),
    ensures
        is_writable(t),
{
    lemma_fit_widens(t, DEEPEST_READ as nat, false, DEEPEST_WRITTEN as nat, true);
}

fn quotable(s: &str) -> (r: bool)
    ensures
        r == is_quotable(s@),
{
    let cs = chars_of(s);
    let mut single: u64 = 0;
    let mut double: u64 = 0;
    let mut i: usize = 0;
    assert(s@.take(0) =~= seq![]);
    while i < cs.len()
        invariant
            i <= cs.len(),
            cs@ == s@,
            single == back_run(s@.take(i as int), CharClass::Is('\'')),
            double == back_run(s@.take(i as int), CharClass::Is('"')),
            single < 256,
            double < 256,
            forall|j: int|
                0 <= j <= i ==> back_run(#[trigger] s@.take(j), CharClass::Is('\'')) < 256 && back_run(
                    s@.take(j),
                    CharClass::Is('"'),
                ) < 256,
        decreases cs.len() - i,
    {
        let ghost step = s@.take(i + 1);
        assert(step.drop_last() =~= s@.take(i as int));
        assert(step.last() == cs[i as int]);
        single = if cs[i] == '\'' {
            single + 1
        } else {
            0
        };
        double = if cs[i] == '"' {
            double + 1
        } else {
            0
        };
        assert(single == back_run(step, CharClass::Is('\'')));
        assert(double == back_run(step, CharClass::Is('"')));
        if single >= 256 || double >= 256 {
            assert(!is_quotable(s@));
            return false;
        }
        i += 1;
    }
    assert(s@.take(i as int) =~= s@);
    true
}

proof fn lemma_fit_item(t: TreeView, i: int, depth: nat, marks: bool)
    requires
        t is List,
        0 <= i < t->List_0.len(),
        is_fit(t, depth, marks),
    ensures
        depth > 0,
        is_fit(t->List_0[i], (depth - 1) as nat, marks),
{
}

proof fn lemma_fit_entry(t: TreeView, i: int, depth: nat, marks: bool)
    requires
        t is Table,
        0 <= i < t->Table_0.len(),
        is_fit(t, depth, marks),
    ensures
        depth > 0,
        is_fit(t->Table_0[i].1, (depth - 1) as nat, marks),
{
}

fn fit(t: &Tree, depth: u64) -> (r: bool)
    ensures
        r == is_fit(t.deep_view(), depth as nat, true),
    decreases t,
{
    match t {
        Tree::Text(s) => quotable(s.as_str()),
        Tree::List(v) => {
            let ghost items = v.deep_view();
            proof {
                lemma_list_view(*v);
            }
            if depth == 0 {
                return false;
            }
            let mut i: usize = 0;
            while i < v.len()
                invariant
                    i <= v.len(),
                    depth > 0,
                    *t == Tree::List(*v),
                    t.deep_view() == TreeView::List(items),
                    items == v.deep_view(),
                    forall|j: int|
                        0 <= j < i ==> is_fit(#[trigger] items[j], (depth - 1) as nat, true),
                decreases v.len() - i,
            {
                assert(items[i as int] == v[i as int].deep_view());
                assert(decreases_to!(*t => t->List_0));
                assert(decreases_to!(v => v[i as int]));
                if !fit(&v[i], depth - 1) {
                    proof {
                        if is_fit(t.deep_view(), depth as nat, true) {
                            lemma_fit_item(t.deep_view(), i as int, depth as nat, true);
                        }
                    }
                    return false;
                }
                i += 1;
            }
            true
        },
        Tree::Table(v) => {
            let ghost entries = v.deep_view();
            proof {
                lemma_table_view(*v);
            }
            if depth == 0 {
                return false;
            }
            let mut i: usize = 0;
            while i < v.len()
                invariant
                    i <= v.len(),
                    depth > 0,
                    *t == Tree::Table(*v),
                    t.deep_view() == TreeView::Table(entries),
                    entries == v.deep_view(),
                    forall|j: int|
                        0 <= j < i ==> is_fit(
                            (#[trigger] entries[j]).1,
                            (depth - 1) as nat,
                            true,
                        ),
                decreases v.len() - i,
            {
                assert(entries[i as int] == (v@[i as int].0@, v@[i as int].1.deep_view()));
                assert(decreases_to!(*t => t->Table_0));
                assert(decreases_to!(v => v[i as int]));
                if !fit(&v[i].1, depth - 1) {
                    proof {
                        if is_fit(t.deep_view(), depth as nat, true) {
                            lemma_fit_entry(t.deep_view(), i as int, depth as nat, true);
                        }
                    }
                    return false;
                }
                i += 1;
            }
            true
        },
        _ => true,
    }
}

/// `toml::to_string_pretty`: writes a document, which reads as it was unless it
/// nests too deep for that or holds dates' own mark. What the text looks like
/// beside that is left unsaid.
#[verifier::external_body]
fn toml_text(v: &toml::Value) -> (r: Option<String>)
    requires
        is_writable(toml_content(*v)),
    ensures
        match r {
            Some(s) => is_readable(toml_content(*v)) ==> toml_tree(s@) == Ok::<
                TreeView,
                Seq<char>,
            >(toml_content(*v)),
            None => false,
        },
{
    toml::to_string_pretty(v).ok()
}

/// A document as text, which reads as the document where any text of it can;
/// nothing where it cannot be written.
pub(crate) fn document_text(v: &toml::Value) -> (r: Option<String>)
    ensures
        r is Some == is_writable(toml_content(*v)),
        match r {
            Some(s) => is_readable(toml_content(*v)) ==> toml_tree(s@) == Ok::<
                TreeView,
                Seq<char>,
            >(toml_content(*v)),
            None => true,
        },
{
    let t = toml_shown(v);
    let is_table = match &t {
        Tree::Table(_) => true,
        _ => false,
    };
    if is_table && fit(&t, DEEPEST_WRITTEN) {
        toml_text(v)
    } else {
        None
    }
}

} // verus!
