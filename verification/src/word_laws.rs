//! What words, tokens and parts of texts satisfy.
use vstd::prelude::*;
use vstd::utf8::encode_utf8;
use crate::model::{
    answers_to, close_forms, closed_tokens, cutting, is_same_word, is_token_char, shared, tokens,
    Cutting,
};
use crate::text::{
    ascii_lower, in_class, is_alnum, is_digit, is_lower, is_upper, join, lemma_run, lower_char,
    lowered, run, split, CharClass,
};

verus! {

// ---------------------------------------------------------------------------
// Forms of a word
// ---------------------------------------------------------------------------

/// Two byte strings begin alike: they agree on their first `n` bytes, at least
/// four and at least seven in ten of the shorter one, and neither goes on for more
/// than three bytes.
pub open spec fn begin_alike(p: Seq<u8>, q: Seq<u8>, n: int) -> bool {
    &&& 4 <= n <= p.len()
    &&& n <= q.len()
    &&& p.take(n) == q.take(n)
    &&& n * 10 >= p.len() * 7 || n * 10 >= q.len() * 7
    &&& p.len() <= n + 3
    &&& q.len() <= n + 3
}

proof fn lemma_shared_most(p: Seq<u8>, q: Seq<u8>, n: int)
    requires
        0 <= n <= p.len(),
        n <= q.len(),
        p.take(n) == q.take(n),
    ensures
        n <= shared(p, q),
    decreases n,
{
    if n > 0 {
        assert(p.take(n)[0] == p[0]);
        assert(q.take(n)[0] == q[0]);
        assert(p.skip(1).take(n - 1) =~= p.take(n).skip(1));
        assert(q.skip(1).take(n - 1) =~= q.take(n).skip(1));
        lemma_shared_most(p.skip(1), q.skip(1), n - 1);
    }
}

proof fn lemma_shared_agrees(p: Seq<u8>, q: Seq<u8>)
    ensures
        shared(p, q) <= p.len(),
        shared(p, q) <= q.len(),
        p.take(shared(p, q) as int) == q.take(shared(p, q) as int),
    decreases p.len(),
{
    let n = shared(p, q);
    if p.len() > 0 && q.len() > 0 && p[0] == q[0] {
        lemma_shared_agrees(p.skip(1), q.skip(1));
        assert(p.take(n as int) =~= seq![p[0]] + p.skip(1).take(n - 1));
        assert(q.take(n as int) =~= seq![q[0]] + q.skip(1).take(n - 1));
    } else {
        assert(p.take(0) =~= q.take(0));
    }
}

/// Two spellings are forms of one word exactly where they agree in small letters
/// or begin alike.
pub proof fn law_forms_of_a_word(a: Seq<char>, b: Seq<char>)
    ensures
        is_same_word(a, b) <==> lowered(a) == lowered(b) || exists|n: int|
            begin_alike(encode_utf8(lowered(a)), encode_utf8(lowered(b)), n),
{
    let p = encode_utf8(lowered(a));
    let q = encode_utf8(lowered(b));
    lemma_shared_agrees(p, q);
    if close_forms(p, q) {
        assert(begin_alike(p, q, shared(p, q) as int));
    }
    if exists|n: int| begin_alike(p, q, n) {
        let n = choose|n: int| begin_alike(p, q, n);
        lemma_shared_most(p, q, n);
    }
}

/// A name answers to a term exactly where the name, or one of its tokens, is a
/// form of the term.
pub proof fn law_names_answer_by_their_tokens(name: Seq<char>, term: Seq<char>)
    ensures
        answers_to(name, term) <==> is_same_word(name, term) || exists|t: Seq<char>| #[trigger]
            tokens(name).contains(t) && is_same_word(t, term),
{
    if exists|t: Seq<char>| #[trigger] tokens(name).contains(t) && is_same_word(t, term) {
        let t = choose|t: Seq<char>| #[trigger] tokens(name).contains(t) && is_same_word(t, term);
        let i = choose|i: int| 0 <= i < tokens(name).len() && tokens(name)[i] == t;
        assert(is_same_word(tokens(name)[i], term));
    }
    if exists|i: int| 0 <= i < tokens(name).len() && is_same_word(#[trigger] tokens(name)[i], term) {
        let i = choose|i: int|
            0 <= i < tokens(name).len() && is_same_word(#[trigger] tokens(name)[i], term);
        assert(tokens(name).contains(tokens(name)[i]));
    }
}

// ---------------------------------------------------------------------------
// Tokens
// ---------------------------------------------------------------------------

proof fn lemma_small(s: Seq<char>)
    ensures
        cutting(s).small <==> s.len() > 0 && (is_lower(s.last()) || is_digit(s.last())),
{
}

/// A cut goes on behind tokens that are closed.
spec fn behind(a: Seq<Seq<char>>, c: Cutting) -> Cutting {
    Cutting { done: a + c.done, token: c.token, small: c.small }
}

proof fn lemma_closed_behind(a: Seq<Seq<char>>, c: Cutting)
    ensures
        closed_tokens(behind(a, c)) == a + closed_tokens(c),
{
    assert(closed_tokens(behind(a, c)) =~= a + closed_tokens(c));
}

proof fn lemma_cut_at_separator(a: Seq<char>, sep: char, b: Seq<char>)
    requires
        !is_alnum(sep),
    ensures
        cutting(a.push(sep) + b) == behind(tokens(a), cutting(b)),
    decreases b.len(),
{
    let whole = a.push(sep) + b;
    if b.len() == 0 {
        assert(whole =~= a.push(sep));
        assert(a.push(sep).drop_last() =~= a);
        assert(tokens(a) + cutting(b).done =~= tokens(a));
    } else {
        let front = b.drop_last();
        lemma_cut_at_separator(a, sep, front);
        assert(whole.drop_last() =~= a.push(sep) + front);
        assert(whole.last() == b.last());
        lemma_closed_behind(tokens(a), cutting(front));
    }
}

/// A character that is neither letter nor digit parts the tokens of a name.
pub proof fn law_separators_part_tokens(a: Seq<char>, sep: char, b: Seq<char>)
    requires
        !is_alnum(sep),
    ensures
        tokens(a.push(sep) + b) == tokens(a) + tokens(b),
{
    lemma_cut_at_separator(a, sep, b);
    lemma_closed_behind(tokens(a), cutting(b));
}

proof fn lemma_cut_at_capital(a: Seq<char>, b: Seq<char>)
    requires
        a.len() > 0,
        is_lower(a.last()) || is_digit(a.last()),
        b.len() > 0,
        is_upper(b[0]),
    ensures
        cutting(a + b) == behind(tokens(a), cutting(b)),
    decreases b.len(),
{
    let whole = a + b;
    let front = b.drop_last();
    assert(whole.drop_last() =~= a + front);
    assert(whole.last() == b.last());
    if front.len() == 0 {
        assert(a + front =~= a);
        assert(front =~= Seq::<char>::empty());
        lemma_small(a);
        assert(cutting(front) == (Cutting { done: seq![], token: seq![], small: false }));
        assert(cutting(b).token =~= seq![lower_char(b[0])]);
        assert(tokens(a) + cutting(b).done =~= tokens(a));
    } else {
        assert(front[0] == b[0]);
        lemma_cut_at_capital(a, front);
        lemma_closed_behind(tokens(a), cutting(front));
    }
}

/// A capital behind a small letter or a digit begins a token.
pub proof fn law_capitals_part_tokens(a: Seq<char>, b: Seq<char>)
    requires
        a.len() > 0,
        is_lower(a.last()) || is_digit(a.last()),
        b.len() > 0,
        is_upper(b[0]),
    ensures
        tokens(a + b) == tokens(a) + tokens(b),
{
    lemma_cut_at_capital(a, b);
    lemma_closed_behind(tokens(a), cutting(b));
}

proof fn lemma_cut_plain(s: Seq<char>)
    requires
        forall|i: int| 0 <= i < s.len() ==> is_token_char(#[trigger] s[i]),
    ensures
        cutting(s).done == Seq::<Seq<char>>::empty(),
        cutting(s).token == s,
    decreases s.len(),
{
    if s.len() > 0 {
        lemma_cut_plain(s.drop_last());
        assert(is_token_char(s[s.len() - 1]));
        assert(cutting(s).token =~= s);
    } else {
        assert(cutting(s).token =~= s);
    }
}

/// A run of small letters and digits is one token, and so is one that a capital
/// begins; capitals in a row stay together.
pub proof fn law_plain_words_are_tokens(s: Seq<char>)
    requires
        s.len() > 0,
    ensures
        (forall|i: int| 0 <= i < s.len() ==> is_token_char(#[trigger] s[i])) ==> tokens(s) == seq![
            s,
        ],
        (forall|i: int| 0 <= i < s.len() ==> is_upper(#[trigger] s[i])) ==> tokens(s) == seq![
            ascii_lower(s),
        ],
        is_upper(s[0]) && (forall|i: int| 1 <= i < s.len() ==> is_token_char(#[trigger] s[i]))
            ==> tokens(s) == seq![ascii_lower(s)],
{
    if forall|i: int| 0 <= i < s.len() ==> is_token_char(#[trigger] s[i]) {
        lemma_cut_plain(s);
        assert(tokens(s) =~= seq![s]);
    }
    if forall|i: int| 0 <= i < s.len() ==> is_upper(#[trigger] s[i]) {
        lemma_cut_capitals(s);
        assert(tokens(s) =~= seq![ascii_lower(s)]);
    }
    if is_upper(s[0]) && (forall|i: int| 1 <= i < s.len() ==> is_token_char(#[trigger] s[i])) {
        lemma_cut_capitalised(s);
        assert(tokens(s) =~= seq![ascii_lower(s)]);
    }
}

proof fn lemma_cut_capitals(s: Seq<char>)
    requires
        forall|i: int| 0 <= i < s.len() ==> is_upper(#[trigger] s[i]),
    ensures
        cutting(s).done == Seq::<Seq<char>>::empty(),
        cutting(s).token == ascii_lower(s),
        !cutting(s).small,
    decreases s.len(),
{
    if s.len() > 0 {
        lemma_cut_capitals(s.drop_last());
        assert(is_upper(s[s.len() - 1]));
    }
    assert(cutting(s).token =~= ascii_lower(s));
}

proof fn lemma_cut_capitalised(s: Seq<char>)
    requires
        s.len() > 0,
        is_upper(s[0]),
        forall|i: int| 1 <= i < s.len() ==> is_token_char(#[trigger] s[i]),
    ensures
        cutting(s).done == Seq::<Seq<char>>::empty(),
        cutting(s).token == ascii_lower(s),
    decreases s.len(),
{
    if s.len() > 1 {
        lemma_cut_capitalised(s.drop_last());
        assert(is_token_char(s[s.len() - 1]));
    } else {
        assert(s.drop_last() =~= Seq::<char>::empty());
        assert(cutting(s.drop_last()) == (Cutting { done: seq![], token: seq![], small: false }));
    }
    assert(cutting(s).token =~= ascii_lower(s));
}

// ---------------------------------------------------------------------------
// Parts of a text
// ---------------------------------------------------------------------------

proof fn lemma_join_front(parts: Seq<Seq<char>>, sep: Seq<char>)
    requires
        parts.len() > 1,
    ensures
        join(parts, sep) == parts[0] + sep + join(parts.skip(1), sep),
    decreases parts.len(),
{
    let rest = parts.skip(1);
    if parts.len() == 2 {
        assert(parts.drop_last() =~= seq![parts[0]]);
        assert(rest =~= seq![parts[1]]);
        assert(join(parts.drop_last(), sep) == parts[0]);
        assert(join(rest, sep) == parts[1]);
    } else {
        lemma_join_front(parts.drop_last(), sep);
        assert(parts.drop_last().skip(1) =~= rest.drop_last());
        assert(join(parts, sep) =~= parts[0] + sep + join(rest, sep));
    }
}

/// The parts of a text hold no separator, and joined by it they are the text.
pub proof fn law_parts_make_the_text(s: Seq<char>, sep: char)
    ensures
        split(s, sep).len() > 0,
        join(split(s, sep), seq![sep]) == s,
        forall|i: int| 0 <= i < split(s, sep).len() ==> !(#[trigger] split(s, sep)[i]).contains(sep),
    decreases s.len(),
{
    let n = run(s, CharClass::Not(sep)) as int;
    lemma_run(s, CharClass::Not(sep));
    let parts = split(s, sep);
    if n < s.len() {
        let rest = s.skip(n + 1);
        law_parts_make_the_text(rest, sep);
        lemma_join_front(parts, seq![sep]);
        assert(parts.skip(1) =~= split(rest, sep));
        assert(s =~= s.take(n) + seq![sep] + rest);
        assert forall|i: int| 0 <= i < parts.len() implies !(#[trigger] parts[i]).contains(sep) by {
            if i == 0 {
                assert forall|j: int| 0 <= j < n implies s.take(n)[j] != sep by {
                    assert(in_class(CharClass::Not(sep), s[j]));
                }
            } else {
                assert(parts[i] == split(rest, sep)[i - 1]);
            }
        }
    } else {
        assert(parts =~= seq![s]);
        assert forall|j: int| 0 <= j < s.len() implies s[j] != sep by {
            assert(in_class(CharClass::Not(sep), s[j]));
        }
    }
}

} // verus!
