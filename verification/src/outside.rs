//! What the library has from other crates: regular expressions, TOML and JSON.
use vstd::prelude::*;
use vstd::utf8::{decode_utf8, encode_utf8, is_char_boundary, valid_utf8};
use vstd::utf8::{
    encode_utf8_decode_utf8, encode_utf8_valid_utf8, is_char_boundary_iff_not_is_continuation_byte,
    is_char_boundary_start_end_of_seq, valid_utf8_split,
};
use crate::text::{chars_of, owned, push_char};
use crate::tree::{field, Tree, TreeView};

verus! {

/// A matched group: where it stands, in bytes, and its text.
#[derive(Debug)]
pub struct Span {
    pub start: usize,
    pub end: usize,
    pub text: String,
}

pub struct SpanView {
    pub start: int,
    pub end: int,
    pub text: Seq<char>,
}

impl DeepView for Span {
    type V = SpanView;

    open spec fn deep_view(&self) -> SpanView {
        SpanView { start: self.start as int, end: self.end as int, text: self.text@ }
    }
}

/// The matches of a regular expression in a text, from left to right, each with
/// its groups; nothing where the expression is malformed.
pub uninterp spec fn regex_captures(pattern: Seq<char>, text: Seq<char>) -> Option<
    Seq<Seq<Option<SpanView>>>,
>;

/// A value of `serde_json`.
#[verifier::external_type_specification]
#[verifier::external_body]
pub struct ExJsonValue(serde_json::Value);

/// What a JSON value holds.
pub uninterp spec fn json_content(v: serde_json::Value) -> TreeView;

/// A JSON text as a tree; nothing where it is malformed.
pub uninterp spec fn json_tree(text: Seq<char>) -> Option<TreeView>;

/// A value of `toml`.
#[verifier::external_type_specification]
#[verifier::external_body]
pub struct ExTomlValue(toml::Value);

/// What a TOML value holds; a date counts as a number.
pub uninterp spec fn toml_content(v: toml::Value) -> TreeView;

/// A TOML text as a tree, or what is wrong with it.
pub uninterp spec fn toml_tree(text: Seq<char>) -> Result<TreeView, Seq<char>>;

/// `regex::Regex::new` and `Regex::captures_iter`: all matches of an expression
/// in a text, each with its groups in order, the whole match first. The result
/// depends on the expression and the text alone; which matches there are is
/// left unsaid.
#[verifier::external_body]
pub(crate) fn captures(pattern: &str, text: &str) -> (r: Option<Vec<Vec<Option<Span>>>>)
    ensures
        r.deep_view() == regex_captures(pattern@, text@),
{
    let re = regex::Regex::new(pattern).ok()?;
    Some(
        re.captures_iter(text)
            .map(|c| {
                c.iter()
                    .map(|g| g.map(|m| Span { start: m.start(), end: m.end(), text: m.as_str().to_string() }))
                    .collect()
            })
            .collect(),
    )
}

/// The characters with a meaning in a regular expression.
pub open spec fn is_meta(c: char) -> bool {
    ||| c == '\\'
    ||| c == '.'
    ||| c == '+'
    ||| c == '*'
    ||| c == '?'
    ||| c == '('
    ||| c == ')'
    ||| c == '|'
    ||| c == '['
    ||| c == ']'
    ||| c == '{'
    ||| c == '}'
    ||| c == '^'
    ||| c == '$'
    ||| c == '#'
    ||| c == '&'
    ||| c == '-'
    ||| c == '~'
}

/// A backslash before each character with a meaning.
pub open spec fn escaped(s: Seq<char>) -> Seq<char>
    decreases s.len(),
{
    if s.len() == 0 {
        seq![]
    } else if is_meta(s.last()) {
        escaped(s.drop_last()).push('\\').push(s.last())
    } else {
        escaped(s.drop_last()).push(s.last())
    }
}

fn meta(c: char) -> (r: bool)
    ensures
        r == is_meta(c),
{
    c == '\\' || c == '.' || c == '+' || c == '*' || c == '?' || c == '(' || c == ')' || c == '|' || c
        == '[' || c == ']' || c == '{' || c == '}' || c == '^' || c == '$' || c == '#' || c == '&' || c
        == '-' || c == '~'
}

/// A text as a regular expression that matches nothing but it.
pub fn escape(s: &str) -> (r: String)
    ensures
        r@ == escaped(s@),
{
    let cs = chars_of(s);
    let mut out = String::new();
    let mut i: usize = 0;
    assert(out@ =~= escaped(s@.take(0)));
    while i < cs.len()
        invariant
            i <= cs.len(),
            cs@ == s@,
            out@ == escaped(s@.take(i as int)),
        decreases cs.len() - i,
    {
        let ghost step = s@.take(i + 1);
        assert(step.drop_last() =~= s@.take(i as int));
        assert(step.last() == cs[i as int]);
        if meta(cs[i]) {
            push_char(&mut out, '\\');
        }
        push_char(&mut out, cs[i]);
        i += 1;
    }
    assert(s@.take(i as int) =~= s@);
    out
}

// ---------------------------------------------------------------------------
// JSON
// ---------------------------------------------------------------------------

/// `serde_json::from_str`: reads a JSON text, or nothing where it is malformed.
/// What is read depends on the text alone; what JSON is, is left unsaid.
#[verifier::external_body]
fn json_value(text: &str) -> (r: Option<serde_json::Value>)
    ensures
        match r {
            Some(v) => json_tree(text@) == Some(json_content(v)),
            None => json_tree(text@) is None,
        },
{
    serde_json::from_str::<serde_json::Value>(text).ok()
}

/// The variants of `serde_json::Value`, one for one: what a value holds.
#[verifier::external_body]
fn json_shown(v: &serde_json::Value) -> (r: Tree)
    ensures
        r.deep_view() == json_content(*v),
{
    match v {
        serde_json::Value::Null => Tree::Nothing,
        serde_json::Value::Bool(b) => Tree::Flag(*b),
        serde_json::Value::Number(n) => Tree::Number(n.to_string()),
        serde_json::Value::String(s) => Tree::Text(s.clone()),
        serde_json::Value::Array(a) => Tree::List(a.iter().map(json_shown).collect()),
        serde_json::Value::Object(m) => Tree::Table(
            m.iter().map(|(k, x)| (k.clone(), json_shown(x))).collect(),
        ),
    }
}

/// A JSON text as a tree, or nothing where it is malformed.
pub fn parse_json(text: &str) -> (r: Option<Tree>)
    ensures
        r.deep_view() == json_tree(text@),
{
    match json_value(text) {
        Some(v) => Some(json_shown(&v)),
        None => None,
    }
}

// ---------------------------------------------------------------------------
// TOML
// ---------------------------------------------------------------------------

/// `toml::from_str`: reads a TOML document, or says what is wrong with it. What
/// is read depends on the text alone; what TOML is, is left unsaid.
#[verifier::external_body]
pub(crate) fn toml_value(text: &str) -> (r: Result<toml::Value, String>)
    ensures
        match r {
            Ok(v) => toml_tree(text@) == Ok::<TreeView, Seq<char>>(toml_content(v)),
            Err(e) => toml_tree(text@) == Err::<TreeView, Seq<char>>(e@),
        },
{
    toml::from_str::<toml::Value>(text).map_err(|e| e.to_string())
}

/// The variants of `toml::Value`, one for one: what a value holds.
#[verifier::external_body]
pub(crate) fn toml_shown(v: &toml::Value) -> (r: Tree)
    ensures
        r.deep_view() == toml_content(*v),
{
    match v {
        toml::Value::String(s) => Tree::Text(s.clone()),
        toml::Value::Integer(n) => Tree::Number(n.to_string()),
        toml::Value::Float(x) => Tree::Number(x.to_string()),
        toml::Value::Boolean(b) => Tree::Flag(*b),
        toml::Value::Datetime(d) => Tree::Number(d.to_string()),
        toml::Value::Array(a) => Tree::List(a.iter().map(toml_shown).collect()),
        toml::Value::Table(m) => Tree::Table(
            m.iter().map(|(k, x)| (k.clone(), toml_shown(x))).collect(),
        ),
    }
}

/// `toml::Value::get` with a key: what a table holds under it; nothing for
/// anything but a table.
#[verifier::external_body]
pub(crate) fn toml_get(v: &toml::Value, k: &str) -> (r: Option<toml::Value>)
    ensures
        match r {
            Some(x) => field(toml_content(*v), k@) == Some(toml_content(x))
                && toml_content(*v)->Table_0.contains((k@, toml_content(x))),
            None => field(toml_content(*v), k@) is None,
        },
{
    v.get(k).cloned()
}

/// `insert` on the map of a `toml::Value`: the value comes under the key, in
/// place of what was there, and every other entry stays.
#[verifier::external_body]
pub(crate) fn toml_put(v: toml::Value, k: &str, x: toml::Value) -> (r: toml::Value)
    requires
        toml_content(v) is Table,
    ensures
        toml_content(r) is Table,
        field(toml_content(r), k@) == Some(toml_content(x)),
        forall|other: Seq<char>|
            other != k@ ==> #[trigger] field(toml_content(r), other) == field(toml_content(v), other),
        forall|i: int|
            0 <= i < toml_content(r)->Table_0.len() ==> {
                let e = #[trigger] toml_content(r)->Table_0[i];
                e == (k@, toml_content(x)) || toml_content(v)->Table_0.contains(e)
            },
{
    let mut v = v;
    if let Some(m) = v.as_table_mut() {
        m.insert(k.to_string(), x);
    }
    v
}

/// `toml::Value::Boolean`: a value that is a flag.
#[verifier::external_body]
pub(crate) fn toml_flag(b: bool) -> (r: toml::Value)
    ensures
        toml_content(r) == TreeView::Flag(b),
{
    toml::Value::Boolean(b)
}

/// `toml::Table::new`: a value that is a table without entries.
#[verifier::external_body]
pub(crate) fn toml_table() -> (r: toml::Value)
    ensures
        toml_content(r) == TreeView::Table(Seq::empty()),
{
    toml::Value::Table(toml::Table::new())
}

/// A TOML text as a tree, or what is wrong with it.
pub fn parse_toml(text: &str) -> (r: Result<Tree, String>)
    ensures
        match r {
            Ok(t) => toml_tree(text@) == Ok::<TreeView, Seq<char>>(t.deep_view()),
            Err(e) => toml_tree(text@) == Err::<TreeView, Seq<char>>(e@),
        },
{
    match toml_value(text) {
        Ok(v) => Ok(toml_shown(&v)),
        Err(e) => Err(e),
    }
}

// ---------------------------------------------------------------------------
// Matches
// ---------------------------------------------------------------------------

/// The matches of an expression; none where it is malformed.
pub open spec fn found(pattern: Seq<char>, text: Seq<char>) -> Seq<Seq<Option<SpanView>>> {
    match regex_captures(pattern, text) {
        Some(m) => m,
        None => seq![],
    }
}

/// The text of a group, where it took part in the match.
pub open spec fn group(m: Seq<Option<SpanView>>, g: int) -> Option<Seq<char>> {
    if 0 <= g < m.len() {
        match m[g] {
            Some(s) => Some(s.text),
            None => None,
        }
    } else {
        None
    }
}

pub open spec fn group_text(m: Seq<Option<SpanView>>, g: int) -> Seq<char> {
    match group(m, g) {
        Some(t) => t,
        None => seq![],
    }
}

/// Where the whole match ends, in bytes.
pub open spec fn match_end(m: Seq<Option<SpanView>>) -> int {
    if m.len() > 0 && m[0] is Some {
        m[0]->0.end
    } else {
        0
    }
}

/// Where the whole match starts, in bytes.
pub open spec fn match_start(m: Seq<Option<SpanView>>) -> int {
    if m.len() > 0 && m[0] is Some {
        m[0]->0.start
    } else {
        0
    }
}

pub open spec fn group_texts(ms: Seq<Seq<Option<SpanView>>>, g: int) -> Seq<Seq<char>> {
    ms.map_values(|m: Seq<Option<SpanView>>| group_text(m, g))
}

/// The text between two places given in bytes, where both are places between
/// characters.
pub open spec fn bytes_between(s: Seq<char>, from: int, to: int) -> Option<Seq<char>> {
    let b = encode_utf8(s);
    if 0 <= from <= to <= b.len() && is_char_boundary(b, from) && is_char_boundary(b, to) {
        Some(decode_utf8(b.subrange(from, to)))
    } else {
        None
    }
}

pub fn found_in(pattern: &str, text: &str) -> (r: Vec<Vec<Option<Span>>>)
    ensures
        r.deep_view() == found(pattern@, text@),
{
    match captures(pattern, text) {
        Some(v) => v,
        None => {
            let v: Vec<Vec<Option<Span>>> = Vec::new();
            assert(v.deep_view() =~= seq![]);
            v
        },
    }
}

pub fn group_of(m: &Vec<Option<Span>>, g: usize) -> (r: Option<String>)
    ensures
        r.deep_view() == group(m.deep_view(), g as int),
{
    if g < m.len() {
        assert(m.deep_view()[g as int] == m[g as int].deep_view());
        match &m[g] {
            Some(s) => Some(owned(s.text.as_str())),
            None => None,
        }
    } else {
        None
    }
}

pub fn group_text_of(m: &Vec<Option<Span>>, g: usize) -> (r: String)
    ensures
        r@ == group_text(m.deep_view(), g as int),
{
    match group_of(m, g) {
        Some(t) => t,
        None => {
            let t = String::new();
            assert(t@ =~= seq![]);
            t
        },
    }
}

pub fn end_of(m: &Vec<Option<Span>>) -> (r: usize)
    ensures
        r == match_end(m.deep_view()),
{
    if m.len() > 0 {
        assert(m.deep_view()[0] == m[0].deep_view());
        match &m[0] {
            Some(s) => s.end,
            None => 0,
        }
    } else {
        0
    }
}

pub fn start_of(m: &Vec<Option<Span>>) -> (r: usize)
    ensures
        r == match_start(m.deep_view()),
{
    if m.len() > 0 {
        assert(m.deep_view()[0] == m[0].deep_view());
        match &m[0] {
            Some(s) => s.start,
            None => 0,
        }
    } else {
        0
    }
}

pub fn group_texts_of(ms: &Vec<Vec<Option<Span>>>, g: usize) -> (r: Vec<String>)
    ensures
        r.deep_view() == group_texts(ms.deep_view(), g as int),
{
    let mut out: Vec<String> = Vec::new();
    let mut i: usize = 0;
    while i < ms.len()
        invariant
            i <= ms.len(),
            out.deep_view() =~= group_texts(ms.deep_view(), g as int).take(i as int),
        decreases ms.len() - i,
    {
        let ghost so_far = out.deep_view();
        assert(ms.deep_view()[i as int] == ms[i as int].deep_view());
        out.push(group_text_of(&ms[i], g));
        assert(out.deep_view() =~= so_far.push(group_texts(ms.deep_view(), g as int)[i as int]));
        i += 1;
    }
    out
}

proof fn lemma_boundary_in_front(b: Seq<u8>, from: int, to: int)
    requires
        valid_utf8(b),
        0 <= from <= to,
        is_char_boundary(b, from),
        is_char_boundary(b, to),
    ensures
        to <= b.len(),
        valid_utf8(b.subrange(0, to)),
        is_char_boundary(b.subrange(0, to), from),
{
    let head = b.subrange(0, to);
    valid_utf8_split(b, to);
    if from < to {
        is_char_boundary_iff_not_is_continuation_byte(b, from);
        is_char_boundary_iff_not_is_continuation_byte(head, from);
        assert(head[from] == b[from]);
    } else {
        is_char_boundary_start_end_of_seq(head);
    }
}

/// The text between two places given in bytes.
pub fn between_bytes(s: &str, from: usize, to: usize) -> (r: Option<String>)
    ensures
        r.deep_view() == bytes_between(s@, from as int, to as int),
{
    let ghost b = encode_utf8(s@);
    proof {
        encode_utf8_valid_utf8(s@);
    }
    if from <= to && s.is_char_boundary(from) && s.is_char_boundary(to) {
        let (head, _) = s.split_at(to);
        proof {
            lemma_boundary_in_front(b, from as int, to as int);
        }
        assert(encode_utf8(head@) == b.subrange(0, to as int));
        let (_, tail) = head.split_at(from);
        assert(encode_utf8(tail@) =~= b.subrange(from as int, to as int));
        proof {
            encode_utf8_decode_utf8(tail@);
        }
        Some(owned(tail))
    } else {
        None
    }
}

} // verus!
