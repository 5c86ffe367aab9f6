//! Text as a sequence of characters: the operations on strings that the rest
//! of the library is stated over.
use vstd::prelude::*;
use vstd::utf8::is_ascii_chars;

verus! {

/// A set of characters that a scan can run over.
#[derive(Clone, Copy, PartialEq, Eq, Structural)]
pub enum CharClass {
    Space,
    Solid,
    Is(char),
    Not(char),
    /// Anything but two characters.
    Neither(char, char),
}

/// The characters that carry the Unicode property `White_Space`.
pub open spec fn is_space(c: char) -> bool {
    ||| '\t' <= c <= '\r'
    ||| c == ' '
    ||| c == '\u{85}'
    ||| c == '\u{a0}'
    ||| c == '\u{1680}'
    ||| '\u{2000}' <= c <= '\u{200a}'
    ||| c == '\u{2028}'
    ||| c == '\u{2029}'
    ||| c == '\u{202f}'
    ||| c == '\u{205f}'
    ||| c == '\u{3000}'
}

pub open spec fn in_class(k: CharClass, c: char) -> bool {
    match k {
        CharClass::Space => is_space(c),
        CharClass::Solid => !is_space(c),
        CharClass::Is(d) => c == d,
        CharClass::Not(d) => c != d,
        CharClass::Neither(d, e) => c != d && c != e,
    }
}

pub open spec fn is_digit(c: char) -> bool {
    '0' <= c <= '9'
}

pub open spec fn is_upper(c: char) -> bool {
    'A' <= c <= 'Z'
}

pub open spec fn is_lower(c: char) -> bool {
    'a' <= c <= 'z'
}

pub open spec fn is_alnum(c: char) -> bool {
    is_digit(c) || is_upper(c) || is_lower(c)
}

/// An ASCII capital becomes the small letter; every other character stays.
pub open spec fn lower_char(c: char) -> char {
    if is_upper(c) {
        ((c as u32) + 32) as u32 as char
    } else {
        c
    }
}

pub open spec fn ascii_lower(s: Seq<char>) -> Seq<char> {
    s.map_values(|c: char| lower_char(c))
}

/// No ASCII capital occurs in a text.
pub open spec fn has_no_capitals(s: Seq<char>) -> bool {
    forall|i: int| 0 <= i < s.len() ==> !is_upper(#[trigger] s[i])
}

/// What Unicode lowercasing makes of a text that is not plain ASCII.
pub uninterp spec fn unicode_lowercase(s: Seq<char>) -> Seq<char>;

/// A text in small letters.
pub open spec fn lowered(s: Seq<char>) -> Seq<char> {
    if is_ascii_chars(s) {
        ascii_lower(s)
    } else {
        unicode_lowercase(s)
    }
}

/// How Rust's `{:?}` shows a string that holds more than printable ASCII.
pub uninterp spec fn escaped_quote(s: Seq<char>) -> Seq<char>;

pub open spec fn is_plain(c: char) -> bool {
    ' ' <= c <= '~' && c != '"' && c != '\\'
}

/// A text between double quotes, escaped as Rust's `{:?}` escapes it.
pub open spec fn quoted(s: Seq<char>) -> Seq<char> {
    if forall|i: int| 0 <= i < s.len() ==> is_plain(#[trigger] s[i]) {
        seq!['"'] + s + seq!['"']
    } else {
        escaped_quote(s)
    }
}

/// How many characters at the front of `s` belong to `k` without a break.
pub open spec fn run(s: Seq<char>, k: CharClass) -> nat
    decreases s.len(),
{
    if s.len() > 0 && in_class(k, s[0]) {
        1 + run(s.skip(1), k)
    } else {
        0
    }
}

/// How many characters at the end of `s` belong to `k` without a break.
pub open spec fn back_run(s: Seq<char>, k: CharClass) -> nat
    decreases s.len(),
{
    if s.len() > 0 && in_class(k, s.last()) {
        1 + back_run(s.drop_last(), k)
    } else {
        0
    }
}

pub proof fn lemma_run(s: Seq<char>, k: CharClass)
    ensures
        run(s, k) <= s.len(),
        run(s, k) < s.len() ==> !in_class(k, s[run(s, k) as int]),
        forall|i: int| 0 <= i < run(s, k) ==> in_class(k, #[trigger] s[i]),
    decreases s.len(),
{
    if s.len() > 0 && in_class(k, s[0]) {
        lemma_run(s.skip(1), k);
        assert forall|i: int| 0 <= i < run(s, k) implies in_class(k, #[trigger] s[i]) by {
            if i > 0 {
                assert(s.skip(1)[i - 1] == s[i]);
            }
        }
    }
}

/// Without the leading white space.
pub open spec fn trim_start(s: Seq<char>) -> Seq<char> {
    s.skip(run(s, CharClass::Space) as int)
}

/// Without the trailing characters of `k`.
pub open spec fn trim_end_of(s: Seq<char>, k: CharClass) -> Seq<char> {
    s.take(s.len() - back_run(s, k))
}

pub open spec fn trim_end(s: Seq<char>) -> Seq<char> {
    trim_end_of(s, CharClass::Space)
}

/// Without white space at either end.
pub open spec fn trim(s: Seq<char>) -> Seq<char> {
    trim_end(trim_start(s))
}

pub proof fn lemma_back_run(s: Seq<char>, k: CharClass)
    ensures
        back_run(s, k) <= s.len(),
        back_run(s, k) < s.len() ==> !in_class(k, s[s.len() - back_run(s, k) - 1]),
        forall|i: int| s.len() - back_run(s, k) <= i < s.len() ==> in_class(k, #[trigger] s[i]),
    decreases s.len(),
{
    if s.len() > 0 && in_class(k, s.last()) {
        lemma_back_run(s.drop_last(), k);
        assert forall|i: int| s.len() - back_run(s, k) <= i < s.len() implies in_class(
            k,
            #[trigger] s[i],
        ) by {
            if i < s.len() - 1 {
                assert(s.drop_last()[i] == s[i]);
            }
        }
    }
}

/// Trimming takes white space from both ends and nothing else.
pub proof fn lemma_trim(s: Seq<char>)
    ensures
        ({
            let from = run(s, CharClass::Space) as int;
            &&& 0 <= from && from + trim(s).len() <= s.len()
            &&& trim(s) == s.subrange(from, from + trim(s).len())
            &&& forall|i: int| 0 <= i < from ==> is_space(#[trigger] s[i])
            &&& forall|i: int| from + trim(s).len() <= i < s.len() ==> is_space(#[trigger] s[i])
        }),
        trim(s).len() > 0 ==> !is_space(trim(s)[0]) && !is_space(trim(s).last()),
        trim(s).len() == 0 <==> forall|i: int| 0 <= i < s.len() ==> is_space(#[trigger] s[i]),
{
    let from = run(s, CharClass::Space) as int;
    lemma_run(s, CharClass::Space);
    let t = trim_start(s);
    lemma_back_run(t, CharClass::Space);
    let n = trim(s).len();
    assert(trim(s) =~= s.subrange(from, from + n));
    assert forall|i: int| from + n <= i < s.len() implies is_space(#[trigger] s[i]) by {
        assert(t[i - from] == s[i]);
    }
    assert forall|i: int| 0 <= i < from implies is_space(#[trigger] s[i]) by {
        assert(in_class(CharClass::Space, s[i]));
    }
    if n > 0 {
        assert(trim(s)[0] == s[from]);
        assert(trim(s).last() == t[n - 1]);
    } else {
        assert forall|i: int| 0 <= i < s.len() implies is_space(#[trigger] s[i]) by {}
    }
}

/// What neither begins nor ends in white space is trimmed already.
pub proof fn lemma_trim_stays(s: Seq<char>)
    requires
        s.len() > 0 ==> !is_space(s[0]) && !is_space(s.last()),
    ensures
        trim(s) == s,
{
    reveal_with_fuel(run, 2);
    reveal_with_fuel(back_run, 2);
    assert(trim_start(s) =~= s);
    assert(trim(s) =~= s);
}

/// The parts between the occurrences of `sep`: one more than there are
/// occurrences.
pub open spec fn split(s: Seq<char>, sep: char) -> Seq<Seq<char>>
    decreases s.len(),
{
    let n = run(s, CharClass::Not(sep)) as int;
    if 0 <= n < s.len() {
        seq![s.take(n)] + split(s.skip(n + 1), sep)
    } else {
        seq![s]
    }
}

/// The lines of a text, each without its line feed. A text that ends in a line
/// feed has no empty line after it.
pub open spec fn rows(s: Seq<char>) -> Seq<Seq<char>>
    decreases s.len(),
{
    let n = run(s, CharClass::Not('\n')) as int;
    if n < s.len() {
        seq![s.take(n)] + rows(s.skip(n + 1))
    } else if s.len() > 0 {
        seq![s]
    } else {
        seq![]
    }
}

/// The lines of a text, each with its line feed where it has one.
pub open spec fn full_rows(s: Seq<char>) -> Seq<Seq<char>>
    decreases s.len(),
{
    let n = run(s, CharClass::Not('\n')) as int;
    if n < s.len() {
        seq![s.take(n + 1)] + full_rows(s.skip(n + 1))
    } else if s.len() > 0 {
        seq![s]
    } else {
        seq![]
    }
}

/// Without one carriage return at the end.
pub open spec fn without_return(s: Seq<char>) -> Seq<char> {
    if s.len() > 0 && s.last() == '\r' {
        s.drop_last()
    } else {
        s
    }
}

/// The lines of a text, each without its line feed or the carriage return and
/// line feed that end it.
pub open spec fn lines(s: Seq<char>) -> Seq<Seq<char>>
    decreases s.len(),
{
    let n = run(s, CharClass::Not('\n')) as int;
    if n < s.len() {
        seq![without_return(s.take(n))] + lines(s.skip(n + 1))
    } else if s.len() > 0 {
        seq![s]
    } else {
        seq![]
    }
}

/// The maximal stretches without white space.
pub open spec fn words(s: Seq<char>) -> Seq<Seq<char>>
    decreases s.len(),
{
    let t = trim_start(s);
    if t.len() == 0 {
        seq![]
    } else {
        proof {
            lemma_run(s, CharClass::Space);
            lemma_run(t, CharClass::Solid);
            assert(t[0] == s[run(s, CharClass::Space) as int]);
            assert(run(t, CharClass::Solid) >= 1);
        }
        let n = run(t, CharClass::Solid);
        seq![t.take(n as int)] + words(t.skip(n as int))
    }
}

/// The texts in order with `sep` between neighbours.
pub open spec fn join(parts: Seq<Seq<char>>, sep: Seq<char>) -> Seq<char>
    decreases parts.len(),
{
    if parts.len() == 0 {
        seq![]
    } else if parts.len() == 1 {
        parts[0]
    } else {
        join(parts.drop_last(), sep) + sep + parts.last()
    }
}

pub open spec fn occurs_at(s: Seq<char>, p: Seq<char>, i: int) -> bool {
    0 <= i && i + p.len() <= s.len() && s.subrange(i, i + p.len()) == p
}

/// The first place at or after `i` where `p` occurs.
pub open spec fn find_from(s: Seq<char>, p: Seq<char>, i: int) -> Option<int>
    decreases s.len() + 1 - i,
{
    if i < 0 || i + p.len() > s.len() {
        None
    } else if occurs_at(s, p, i) {
        Some(i)
    } else {
        find_from(s, p, i + 1)
    }
}

pub open spec fn contains(s: Seq<char>, p: Seq<char>) -> bool {
    exists|i: int| occurs_at(s, p, i)
}

pub proof fn lemma_find_from(s: Seq<char>, p: Seq<char>, i: int)
    requires
        0 <= i,
    ensures
        match find_from(s, p, i) {
            Some(j) => i <= j && occurs_at(s, p, j) && forall|k: int|
                i <= k < j ==> !occurs_at(s, p, k),
            None => forall|k: int| i <= k ==> !occurs_at(s, p, k),
        },
    decreases s.len() + 1 - i,
{
    if i + p.len() > s.len() {
    } else if occurs_at(s, p, i) {
    } else {
        lemma_find_from(s, p, i + 1);
    }
}

/// The text before and after the first `p`.
pub open spec fn split_once(s: Seq<char>, p: Seq<char>) -> Option<(Seq<char>, Seq<char>)> {
    match find_from(s, p, 0) {
        Some(i) => Some((s.take(i), s.skip(i + p.len()))),
        None => None,
    }
}

pub open spec fn starts_with(s: Seq<char>, p: Seq<char>) -> bool {
    p.len() <= s.len() && s.take(p.len() as int) == p
}

pub open spec fn ends_with(s: Seq<char>, p: Seq<char>) -> bool {
    p.len() <= s.len() && s.skip(s.len() - p.len()) == p
}

pub open spec fn strip_prefix(s: Seq<char>, p: Seq<char>) -> Option<Seq<char>> {
    if starts_with(s, p) {
        Some(s.skip(p.len() as int))
    } else {
        None
    }
}

pub open spec fn strip_suffix(s: Seq<char>, p: Seq<char>) -> Option<Seq<char>> {
    if ends_with(s, p) {
        Some(s.take(s.len() - p.len()))
    } else {
        None
    }
}

/// Every `from` replaced by `to`.
pub open spec fn replace_char(s: Seq<char>, from: char, to: Seq<char>) -> Seq<char>
    decreases s.len(),
{
    if s.len() == 0 {
        seq![]
    } else {
        replace_char(s.drop_last(), from, to) + (if s.last() == from {
            to
        } else {
            seq![s.last()]
        })
    }
}

/// Lexicographic order by code point, which is also the order of the UTF-8
/// bytes.
pub open spec fn before(a: Seq<char>, b: Seq<char>) -> bool
    decreases a.len(),
{
    if b.len() == 0 {
        false
    } else if a.len() == 0 {
        true
    } else if a[0] == b[0] {
        before(a.skip(1), b.skip(1))
    } else {
        a[0] < b[0]
    }
}

pub open spec fn digit_char(d: nat) -> char {
    (48 + d) as u32 as char
}

/// A number in decimal, without leading zeros.
pub open spec fn decimal(n: nat) -> Seq<char>
    decreases n,
{
    if n < 10 {
        seq![digit_char(n)]
    } else {
        decimal(n / 10).push(digit_char(n % 10))
    }
}

/// A signed number in decimal.
pub open spec fn decimal_int(n: int) -> Seq<char> {
    if n < 0 {
        seq!['-'] + decimal((-n) as nat)
    } else {
        decimal(n as nat)
    }
}

// ---------------------------------------------------------------------------
// Order
// ---------------------------------------------------------------------------

/// No text comes before itself.
pub proof fn lemma_before_irreflexive(a: Seq<char>)
    ensures
        !before(a, a),
    decreases a.len(),
{
    if a.len() > 0 {
        lemma_before_irreflexive(a.skip(1));
    }
}

pub proof fn lemma_before_transitive(a: Seq<char>, b: Seq<char>, c: Seq<char>)
    requires
        before(a, b),
        before(b, c),
    ensures
        before(a, c),
    decreases a.len(),
{
    if a.len() > 0 && a[0] == b[0] && b[0] == c[0] {
        lemma_before_transitive(a.skip(1), b.skip(1), c.skip(1));
    }
}

/// Of two different texts one comes before the other.
pub proof fn lemma_before_total(a: Seq<char>, b: Seq<char>)
    ensures
        a == b || before(a, b) || before(b, a),
    decreases a.len(),
{
    if a.len() > 0 && b.len() > 0 && a[0] == b[0] {
        lemma_before_total(a.skip(1), b.skip(1));
        if a.skip(1) == b.skip(1) {
            assert(a =~= seq![a[0]] + a.skip(1));
            assert(b =~= seq![b[0]] + b.skip(1));
        }
    } else if a.len() == 0 && b.len() == 0 {
        assert(a =~= b);
    }
}

// ---------------------------------------------------------------------------
// Characters
// ---------------------------------------------------------------------------

pub fn space(c: char) -> (r: bool)
    ensures
        r == is_space(c),
{
    ('\t' <= c && c <= '\r') || c == ' ' || c == '\u{85}' || c == '\u{a0}' || c == '\u{1680}' || (
    '\u{2000}' <= c && c <= '\u{200a}') || c == '\u{2028}' || c == '\u{2029}' || c == '\u{202f}' || c
        == '\u{205f}' || c == '\u{3000}'
}

pub fn class_has(k: CharClass, c: char) -> (r: bool)
    ensures
        r == in_class(k, c),
{
    match k {
        CharClass::Space => space(c),
        CharClass::Solid => !space(c),
        CharClass::Is(d) => c == d,
        CharClass::Not(d) => c != d,
        CharClass::Neither(d, e) => c != d && c != e,
    }
}

pub fn digit(c: char) -> (r: bool)
    ensures
        r == is_digit(c),
{
    '0' <= c && c <= '9'
}

pub fn upper(c: char) -> (r: bool)
    ensures
        r == is_upper(c),
{
    'A' <= c && c <= 'Z'
}

pub fn lower(c: char) -> (r: bool)
    ensures
        r == is_lower(c),
{
    'a' <= c && c <= 'z'
}

pub fn alnum(c: char) -> (r: bool)
    ensures
        r == is_alnum(c),
{
    digit(c) || upper(c) || lower(c)
}

// ---------------------------------------------------------------------------
// Strings
// ---------------------------------------------------------------------------

/// `str`'s equality: two strings are equal when they hold the same characters.
#[verifier::external_body]
pub(crate) fn same(a: &str, b: &str) -> (r: bool)
    ensures
        r == (a@ == b@),
{
    a == b
}

/// `String::push`: appends one character.
#[verifier::external_body]
pub(crate) fn push_char(s: &mut String, c: char)
    ensures
        final(s)@ == old(s)@.push(c),
{
    s.push(c);
}

/// `str::to_lowercase`: an ASCII text has its capitals replaced by small
/// letters; of any other text the result is a fixed function of the text without
/// ASCII capitals, of which no more is said.
#[verifier::external_body]
pub(crate) fn lowercase(s: &str) -> (r: String)
    ensures
        r@ == (if is_ascii_chars(s@) {
            ascii_lower(s@)
        } else {
            unicode_lowercase(s@)
        }),
        has_no_capitals(r@),
{
    s.to_lowercase()
}

/// The `Debug` form of a string: printable ASCII without quotes or backslashes
/// stands between double quotes as it is; of any other text the result is a
/// fixed function of the text, which is left unsaid.
#[verifier::external_body]
pub(crate) fn quote(s: &str) -> (r: String)
    ensures
        r@ == (if forall|i: int| 0 <= i < s@.len() ==> is_plain(#[trigger] s@[i]) {
            seq!['"'] + s@ + seq!['"']
        } else {
            escaped_quote(s@)
        }),
{
    format!("{s:?}")
}

/// The characters of a string.
pub fn chars_of(s: &str) -> (r: Vec<char>)
    ensures
        r@ == s@,
{
    let mut out: Vec<char> = Vec::new();
    for c in it: s.chars()
        invariant
            out@ == it.seq().take(it.index() as int),
            it.seq() == s@,
    {
        out.push(c);
    }
    out
}

/// A string of its own with the same characters.
pub fn owned(s: &str) -> (r: String)
    ensures
        r@ == s@,
{
    s.to_owned()
}

/// The characters from `from` up to `to` as a string.
pub fn cut(cs: &Vec<char>, from: usize, to: usize) -> (r: String)
    requires
        from <= to <= cs.len(),
    ensures
        r@ == cs@.subrange(from as int, to as int),
{
    let mut out = String::new();
    let mut i: usize = from;
    while i < to
        invariant
            from <= i <= to <= cs.len(),
            out@ == cs@.subrange(from as int, i as int),
        decreases to - i,
    {
        push_char(&mut out, cs[i]);
        i += 1;
    }
    out
}

/// The length of the run of `k` that starts at `from`.
pub fn run_at(cs: &Vec<char>, from: usize, k: CharClass) -> (n: usize)
    requires
        from <= cs.len(),
    ensures
        n == run(cs@.skip(from as int), k),
        from + n <= cs.len(),
{
    let mut i: usize = from;
    while i < cs.len() && class_has(k, cs[i])
        invariant
            from <= i <= cs.len(),
            run(cs@.skip(from as int), k) == (i - from) + run(cs@.skip(i as int), k),
        decreases cs.len() - i,
    {
        assert(cs@.skip(i as int).skip(1) =~= cs@.skip(i + 1));
        i += 1;
    }
    i - from
}

/// The length of the run of `k` that ends the stretch from `from` to `to`.
pub fn back_run_at(cs: &Vec<char>, from: usize, to: usize, k: CharClass) -> (n: usize)
    requires
        from <= to <= cs.len(),
    ensures
        n == back_run(cs@.subrange(from as int, to as int), k),
        n <= to - from,
{
    let mut i: usize = to;
    while i > from && class_has(k, cs[i - 1])
        invariant
            from <= i <= to <= cs.len(),
            back_run(cs@.subrange(from as int, to as int), k) == (to - i) + back_run(
                cs@.subrange(from as int, i as int),
                k,
            ),
        decreases i,
    {
        assert(cs@.subrange(from as int, i as int).drop_last() =~= cs@.subrange(
            from as int,
            i - 1,
        ));
        i -= 1;
    }
    to - i
}

pub fn trimmed_start(s: &str) -> (r: String)
    ensures
        r@ == trim_start(s@),
{
    let cs = chars_of(s);
    assert(cs@.skip(0) =~= cs@);
    let n: usize = run_at(&cs, 0, CharClass::Space);
    assert(cs@.subrange(n as int, cs@.len() as int) =~= cs@.skip(n as int));
    cut(&cs, n, cs.len())
}

pub fn trimmed_end_of(s: &str, k: CharClass) -> (r: String)
    ensures
        r@ == trim_end_of(s@, k),
{
    let cs = chars_of(s);
    assert(cs@.subrange(0, cs@.len() as int) =~= cs@);
    let n: usize = back_run_at(&cs, 0, cs.len(), k);
    assert(cs@.subrange(0, cs@.len() - n) =~= cs@.take(cs@.len() - n));
    cut(&cs, 0, cs.len() - n)
}

pub fn trimmed_end(s: &str) -> (r: String)
    ensures
        r@ == trim_end(s@),
{
    trimmed_end_of(s, CharClass::Space)
}

pub fn trimmed(s: &str) -> (r: String)
    ensures
        r@ == trim(s@),
{
    let t = trimmed_start(s);
    trimmed_end(t.as_str())
}

/// Whether nothing but white space is in the text.
pub fn blank(s: &str) -> (r: bool)
    ensures
        r == (trim(s@).len() == 0),
{
    let t = trimmed(s);
    t.as_str().is_empty()
}

pub fn split_at_char(s: &str, sep: char) -> (r: Vec<String>)
    ensures
        r.deep_view() == split(s@, sep),
{
    let cs = chars_of(s);
    let mut out: Vec<String> = Vec::new();
    let mut pos: usize = 0;
    assert(cs@.skip(0) =~= cs@);
    loop
        invariant
            pos <= cs.len(),
            cs@ == s@,
            out.deep_view() + split(cs@.skip(pos as int), sep) =~= split(s@, sep),
        decreases cs.len() - pos,
    {
        let n: usize = run_at(&cs, pos, CharClass::Not(sep));
        let ghost rest = cs@.skip(pos as int);
        let ghost old_out = out.deep_view();
        if pos + n < cs.len() {
            let part = cut(&cs, pos, pos + n);
            assert(part@ =~= rest.take(n as int));
            assert(rest.skip(n + 1) =~= cs@.skip(pos + n + 1));
            out.push(part);
            assert(out.deep_view() =~= old_out.push(rest.take(n as int)));
            pos = pos + n + 1;
        } else {
            let part = cut(&cs, pos, cs.len());
            assert(part@ =~= rest);
            out.push(part);
            assert(out.deep_view() =~= old_out.push(rest));
            return out;
        }
    }
}

pub fn rows_of(s: &str) -> (r: Vec<String>)
    ensures
        r.deep_view() == rows(s@),
{
    let cs = chars_of(s);
    let mut out: Vec<String> = Vec::new();
    let mut pos: usize = 0;
    assert(cs@.skip(0) =~= cs@);
    while pos < cs.len()
        invariant
            pos <= cs.len(),
            cs@ == s@,
            out.deep_view() + rows(cs@.skip(pos as int)) =~= rows(s@),
        decreases cs.len() - pos,
    {
        let n: usize = run_at(&cs, pos, CharClass::Not('\n'));
        let ghost rest = cs@.skip(pos as int);
        let ghost old_out = out.deep_view();
        let part = cut(&cs, pos, pos + n);
        assert(part@ =~= rest.take(n as int));
        out.push(part);
        assert(out.deep_view() =~= old_out.push(rest.take(n as int)));
        if pos + n < cs.len() {
            assert(rest.skip(n + 1) =~= cs@.skip(pos + n + 1));
            pos = pos + n + 1;
        } else {
            assert(rest.take(n as int) =~= rest);
            pos = cs.len();
            assert(cs@.skip(pos as int) =~= seq![]);
        }
    }
    assert(cs@.skip(pos as int) =~= seq![]);
    assert(out.deep_view() =~= rows(s@));
    out
}

pub fn full_rows_of(s: &str) -> (r: Vec<String>)
    ensures
        r.deep_view() == full_rows(s@),
{
    let cs = chars_of(s);
    let mut out: Vec<String> = Vec::new();
    let mut pos: usize = 0;
    assert(cs@.skip(0) =~= cs@);
    while pos < cs.len()
        invariant
            pos <= cs.len(),
            cs@ == s@,
            out.deep_view() + full_rows(cs@.skip(pos as int)) =~= full_rows(s@),
        decreases cs.len() - pos,
    {
        let n: usize = run_at(&cs, pos, CharClass::Not('\n'));
        let ghost rest = cs@.skip(pos as int);
        let ghost old_out = out.deep_view();
        if pos + n < cs.len() {
            let part = cut(&cs, pos, pos + n + 1);
            assert(part@ =~= rest.take(n + 1));
            out.push(part);
            assert(out.deep_view() =~= old_out.push(rest.take(n + 1)));
            assert(rest.skip(n + 1) =~= cs@.skip(pos + n + 1));
            pos = pos + n + 1;
        } else {
            let part = cut(&cs, pos, pos + n);
            assert(part@ =~= rest);
            out.push(part);
            assert(out.deep_view() =~= old_out.push(rest));
            pos = cs.len();
            assert(cs@.skip(pos as int) =~= seq![]);
        }
    }
    assert(cs@.skip(pos as int) =~= seq![]);
    assert(out.deep_view() =~= full_rows(s@));
    out
}

pub fn lines_of(s: &str) -> (r: Vec<String>)
    ensures
        r.deep_view() == lines(s@),
{
    let cs = chars_of(s);
    let mut out: Vec<String> = Vec::new();
    let mut pos: usize = 0;
    assert(cs@.skip(0) =~= cs@);
    while pos < cs.len()
        invariant
            pos <= cs.len(),
            cs@ == s@,
            out.deep_view() + lines(cs@.skip(pos as int)) =~= lines(s@),
        decreases cs.len() - pos,
    {
        let n: usize = run_at(&cs, pos, CharClass::Not('\n'));
        let ghost rest = cs@.skip(pos as int);
        let ghost old_out = out.deep_view();
        if pos + n < cs.len() {
            let end: usize = if n > 0 && cs[pos + n - 1] == '\r' {
                pos + n - 1
            } else {
                pos + n
            };
            let part = cut(&cs, pos, end);
            assert(part@ =~= without_return(rest.take(n as int)));
            out.push(part);
            assert(out.deep_view() =~= old_out.push(without_return(rest.take(n as int))));
            assert(rest.skip(n + 1) =~= cs@.skip(pos + n + 1));
            pos = pos + n + 1;
        } else {
            let part = cut(&cs, pos, pos + n);
            assert(part@ =~= rest);
            out.push(part);
            assert(out.deep_view() =~= old_out.push(rest));
            pos = cs.len();
            assert(cs@.skip(pos as int) =~= seq![]);
        }
    }
    assert(cs@.skip(pos as int) =~= seq![]);
    assert(out.deep_view() =~= lines(s@));
    out
}

pub fn words_of(s: &str) -> (r: Vec<String>)
    ensures
        r.deep_view() == words(s@),
{
    let cs = chars_of(s);
    let mut out: Vec<String> = Vec::new();
    let mut pos: usize = 0;
    assert(cs@.skip(0) =~= cs@);
    loop
        invariant
            pos <= cs.len(),
            cs@ == s@,
            out.deep_view() + words(cs@.skip(pos as int)) =~= words(s@),
        decreases cs.len() - pos,
    {
        let ghost rest = cs@.skip(pos as int);
        let ghost old_out = out.deep_view();
        let a: usize = run_at(&cs, pos, CharClass::Space);
        let start: usize = pos + a;
        let ghost t = trim_start(rest);
        assert(t =~= cs@.skip(start as int));
        if start == cs.len() {
            return out;
        }
        let n: usize = run_at(&cs, start, CharClass::Solid);
        proof {
            lemma_run(rest, CharClass::Space);
            lemma_run(t, CharClass::Solid);
            assert(t[0] == rest[a as int]);
        }
        let part = cut(&cs, start, start + n);
        assert(part@ =~= t.take(n as int));
        out.push(part);
        assert(out.deep_view() =~= old_out.push(t.take(n as int)));
        assert(t.skip(n as int) =~= cs@.skip(start + n));
        pos = start + n;
    }
}

pub fn joined(parts: &Vec<String>, sep: &str) -> (r: String)
    ensures
        r@ == join(parts.deep_view(), sep@),
{
    let mut out = String::new();
    let mut i: usize = 0;
    while i < parts.len()
        invariant
            i <= parts.len(),
            out@ == join(parts.deep_view().take(i as int), sep@),
        decreases parts.len() - i,
    {
        let ghost before_step = parts.deep_view().take(i as int);
        let ghost after_step = parts.deep_view().take(i + 1);
        assert(after_step.drop_last() =~= before_step);
        assert(after_step.last() == parts[i as int]@);
        if i > 0 {
            out.append(sep);
        }
        out.append(parts[i].as_str());
        assert(out@ =~= join(after_step, sep@));
        i += 1;
    }
    assert(parts.deep_view().take(i as int) =~= parts.deep_view());
    out
}

/// Whether `ps` stands in `cs` at `at`.
pub fn stands_at(cs: &Vec<char>, ps: &Vec<char>, at: usize) -> (r: bool)
    ensures
        r == occurs_at(cs@, ps@, at as int),
{
    if cs.len() < ps.len() || cs.len() - ps.len() < at {
        return false;
    }
    let mut i: usize = 0;
    while i < ps.len()
        invariant
            i <= ps.len(),
            at + ps.len() <= cs.len(),
            forall|j: int| 0 <= j < i ==> cs@[at + j] == #[trigger] ps@[j],
        decreases ps.len() - i,
    {
        if cs[at + i] != ps[i] {
            assert(cs@.subrange(at as int, at + ps.len())[i as int] != ps@[i as int]);
            return false;
        }
        i += 1;
    }
    assert(cs@.subrange(at as int, at + ps.len()) =~= ps@);
    true
}

/// The first place at or after `from` where `p` occurs, in characters.
pub fn find_at(cs: &Vec<char>, ps: &Vec<char>, from: usize) -> (r: Option<usize>)
    requires
        from <= cs.len(),
    ensures
        match r {
            Some(i) => find_from(cs@, ps@, from as int) == Some(i as int) && i + ps.len()
                <= cs.len() && from <= i,
            None => find_from(cs@, ps@, from as int) is None,
        },
{
    let mut i: usize = from;
    loop
        invariant
            from <= i <= cs.len(),
            find_from(cs@, ps@, from as int) == find_from(cs@, ps@, i as int),
        decreases cs.len() - i,
    {
        if cs.len() < ps.len() || cs.len() - ps.len() < i {
            return None;
        }
        if stands_at(cs, ps, i) {
            return Some(i);
        }
        if i == cs.len() {
            assert(cs@.subrange(i as int, i + ps@.len()) =~= ps@);
            return None;
        }
        i += 1;
    }
}

pub fn holds(s: &str, p: &str) -> (r: bool)
    ensures
        r == contains(s@, p@),
{
    let cs = chars_of(s);
    let ps = chars_of(p);
    proof {
        lemma_find_from(s@, p@, 0);
    }
    match find_at(&cs, &ps, 0) {
        Some(_) => true,
        None => {
            assert forall|k: int| !occurs_at(s@, p@, k) by {}
            false
        },
    }
}

pub fn begins(s: &str, p: &str) -> (r: bool)
    ensures
        r == starts_with(s@, p@),
{
    let cs = chars_of(s);
    let ps = chars_of(p);
    proof {
        if p@.len() <= s@.len() {
            assert(s@.subrange(0, p@.len() as int) =~= s@.take(p@.len() as int));
        }
    }
    stands_at(&cs, &ps, 0)
}

pub fn ends(s: &str, p: &str) -> (r: bool)
    ensures
        r == ends_with(s@, p@),
{
    let cs = chars_of(s);
    let ps = chars_of(p);
    if cs.len() < ps.len() {
        return false;
    }
    proof {
        assert(s@.subrange(s@.len() - p@.len(), s@.len() as int) =~= s@.skip(s@.len() - p@.len()));
    }
    stands_at(&cs, &ps, cs.len() - ps.len())
}

pub fn after_prefix(s: &str, p: &str) -> (r: Option<String>)
    ensures
        r.deep_view() == strip_prefix(s@, p@),
{
    if begins(s, p) {
        let cs = chars_of(s);
        let ps = chars_of(p);
        assert(s@.subrange(p@.len() as int, s@.len() as int) =~= s@.skip(p@.len() as int));
        Some(cut(&cs, ps.len(), cs.len()))
    } else {
        None
    }
}

pub fn before_suffix(s: &str, p: &str) -> (r: Option<String>)
    ensures
        r.deep_view() == strip_suffix(s@, p@),
{
    if ends(s, p) {
        let cs = chars_of(s);
        let ps = chars_of(p);
        assert(s@.subrange(0, s@.len() - p@.len()) =~= s@.take(s@.len() - p@.len()));
        Some(cut(&cs, 0, cs.len() - ps.len()))
    } else {
        None
    }
}

pub fn parted(s: &str, p: &str) -> (r: Option<(String, String)>)
    ensures
        match r {
            Some(pair) => split_once(s@, p@) == Some((pair.0@, pair.1@)),
            None => split_once(s@, p@) is None,
        },
{
    let cs = chars_of(s);
    let ps = chars_of(p);
    match find_at(&cs, &ps, 0) {
        Some(i) => {
            let a = cut(&cs, 0, i);
            let b = cut(&cs, i + ps.len(), cs.len());
            assert(a@ =~= s@.take(i as int));
            assert(b@ =~= s@.skip(i + p@.len()));
            Some((a, b))
        },
        None => None,
    }
}

pub fn with_replaced(s: &str, from: char, to: &str) -> (r: String)
    ensures
        r@ == replace_char(s@, from, to@),
{
    let cs = chars_of(s);
    let mut out = String::new();
    let mut i: usize = 0;
    while i < cs.len()
        invariant
            i <= cs.len(),
            out@ == replace_char(cs@.take(i as int), from, to@),
        decreases cs.len() - i,
    {
        assert(cs@.take(i + 1).drop_last() =~= cs@.take(i as int));
        assert(cs@.take(i + 1).last() == cs@[i as int]);
        let c = cs[i];
        let ghost so_far = out@;
        if c == from {
            out.append(to);
        } else {
            push_char(&mut out, c);
            assert(out@ =~= so_far + seq![c]);
        }
        i += 1;
    }
    assert(cs@.take(i as int) =~= cs@);
    out
}

/// Whether `a` comes before `b` in the order of code points.
pub fn precedes(a: &str, b: &str) -> (r: bool)
    ensures
        r == before(a@, b@),
{
    let x = chars_of(a);
    let y = chars_of(b);
    let mut i: usize = 0;
    assert(x@.skip(0) =~= x@);
    assert(y@.skip(0) =~= y@);
    loop
        invariant
            i <= x.len(),
            i <= y.len(),
            x@ == a@,
            y@ == b@,
            before(a@, b@) == before(x@.skip(i as int), y@.skip(i as int)),
        decreases x.len() - i,
    {
        if i == y.len() {
            return false;
        }
        if i == x.len() {
            return true;
        }
        let c = x[i];
        let d = y[i];
        if c != d {
            return c < d;
        }
        assert(x@.skip(i as int).skip(1) =~= x@.skip(i + 1));
        assert(y@.skip(i as int).skip(1) =~= y@.skip(i + 1));
        i += 1;
    }
}

/// A letter in small; anything else as it is.
pub fn lower_letter(c: char) -> (r: char)
    ensures
        r == lower_char(c),
{
    match c {
        'A' => 'a',
        'B' => 'b',
        'C' => 'c',
        'D' => 'd',
        'E' => 'e',
        'F' => 'f',
        'G' => 'g',
        'H' => 'h',
        'I' => 'i',
        'J' => 'j',
        'K' => 'k',
        'L' => 'l',
        'M' => 'm',
        'N' => 'n',
        'O' => 'o',
        'P' => 'p',
        'Q' => 'q',
        'R' => 'r',
        'S' => 's',
        'T' => 't',
        'U' => 'u',
        'V' => 'v',
        'W' => 'w',
        'X' => 'x',
        'Y' => 'y',
        'Z' => 'z',
        _ => c,
    }
}

/// The text with its ASCII capitals in small letters.
pub fn ascii_lowercase(s: &str) -> (r: String)
    ensures
        r@ == ascii_lower(s@),
{
    let cs = chars_of(s);
    let mut out = String::new();
    let mut i: usize = 0;
    while i < cs.len()
        invariant
            i <= cs.len(),
            cs@ == s@,
            out@ =~= ascii_lower(s@).take(i as int),
        decreases cs.len() - i,
    {
        push_char(&mut out, lower_letter(cs[i]));
        i += 1;
    }
    out
}

/// Whether two texts differ at most in the case of ASCII letters.
pub fn same_ignoring_case(a: &str, b: &str) -> (r: bool)
    ensures
        r == (ascii_lower(a@) == ascii_lower(b@)),
{
    let x = ascii_lowercase(a);
    let y = ascii_lowercase(b);
    same(x.as_str(), y.as_str())
}

fn digit_letter(d: u64) -> (c: char)
    requires
        d < 10,
    ensures
        c == digit_char(d as nat),
{
    match d {
        0 => '0',
        1 => '1',
        2 => '2',
        3 => '3',
        4 => '4',
        5 => '5',
        6 => '6',
        7 => '7',
        8 => '8',
        _ => '9',
    }
}

/// A number in decimal, however large.
pub fn wide_number(n: u128) -> (r: String)
    ensures
        r@ == decimal(n as nat),
    decreases n,
{
    if n < 10 {
        let mut out = String::new();
        push_char(&mut out, digit_letter(n as u64));
        assert(out@ =~= seq![digit_char(n as nat)]);
        out
    } else {
        let mut out = wide_number(n / 10);
        push_char(&mut out, digit_letter((n % 10) as u64));
        out
    }
}

/// A number in decimal.
pub fn number(n: u64) -> (r: String)
    ensures
        r@ == decimal(n as nat),
{
    wide_number(n as u128)
}

/// A signed number in decimal.
pub fn signed_number(n: i64) -> (r: String)
    ensures
        r@ == decimal_int(n as int),
{
    if n >= 0 {
        return number(n as u64);
    }
    let magnitude: u64 = if n == i64::MIN {
        0x8000_0000_0000_0000u64
    } else {
        (-n) as u64
    };
    let digits = number(magnitude);
    let mut out = String::new();
    push_char(&mut out, '-');
    assert(out@ =~= seq!['-']);
    out.append(digits.as_str());
    out
}

/// Whether `x` is one of `list`.
pub fn listed(list: &Vec<String>, x: &str) -> (r: bool)
    ensures
        r == list.deep_view().contains(x@),
{
    let mut i: usize = 0;
    while i < list.len()
        invariant
            i <= list.len(),
            forall|j: int| 0 <= j < i ==> list.deep_view()[j] != x@,
        decreases list.len() - i,
    {
        if same(list[i].as_str(), x) {
            assert(list.deep_view()[i as int] == x@);
            return true;
        }
        i += 1;
    }
    false
}

/// A copy of a list of strings.
pub fn copied(list: &Vec<String>) -> (r: Vec<String>)
    ensures
        r.deep_view() == list.deep_view(),
{
    let mut out: Vec<String> = Vec::new();
    let mut i: usize = 0;
    while i < list.len()
        invariant
            i <= list.len(),
            out.deep_view() =~= list.deep_view().take(i as int),
        decreases list.len() - i,
    {
        let ghost so_far = out.deep_view();
        out.push(owned(list[i].as_str()));
        assert(out.deep_view() =~= so_far.push(list.deep_view()[i as int]));
        i += 1;
    }
    assert(list.deep_view().take(i as int) =~= list.deep_view());
    out
}

/// A copy of an optional string.
pub fn copied_option(x: &Option<String>) -> (r: Option<String>)
    ensures
        r.deep_view() == x.deep_view(),
{
    match x {
        Some(s) => Some(owned(s.as_str())),
        None => None,
    }
}

/// Whether two optional strings agree.
pub fn same_option(a: &Option<String>, b: &Option<String>) -> (r: bool)
    ensures
        r == (a.deep_view() == b.deep_view()),
{
    match (a, b) {
        (Some(x), Some(y)) => same(x.as_str(), y.as_str()),
        (None, None) => true,
        _ => false,
    }
}

} // verus!
