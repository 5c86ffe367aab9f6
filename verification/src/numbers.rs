//! Whole numbers written in decimal.
use vstd::prelude::*;
use crate::patch::{digits_value, is_digits};
use crate::text::{is_digit, strip_prefix};
use crate::text::{after_prefix, chars_of, digit, owned};

verus! {

/// The number that a text of digits spells, where it is no greater than `max`.
pub open spec fn bounded_value(s: Seq<char>, max: nat) -> Option<nat> {
    if s.len() > 0 && is_digits(s) && digits_value(s) <= max {
        Some(digits_value(s))
    } else {
        None
    }
}

pub open spec fn after_plus(s: Seq<char>) -> Seq<char> {
    match strip_prefix(s, "+"@) {
        Some(rest) => rest,
        None => s,
    }
}

/// A number without a sign, or with a plus.
pub open spec fn unsigned_value(s: Seq<char>) -> Option<nat> {
    bounded_value(after_plus(s), u64::MAX as nat)
}

/// A number with or without a sign.
pub open spec fn signed_value(s: Seq<char>) -> Option<int> {
    match strip_prefix(s, "-"@) {
        Some(rest) => match bounded_value(rest, 0x8000_0000_0000_0000) {
            Some(n) => Some(-(n as int)),
            None => None,
        },
        None => match bounded_value(after_plus(s), i64::MAX as nat) {
            Some(n) => Some(n as int),
            None => None,
        },
    }
}

fn bounded(s: &str, max: u64) -> (r: Option<u64>)
    ensures
        match r {
            Some(n) => bounded_value(s@, max as nat) == Some(n as nat),
            None => bounded_value(s@, max as nat) is None,
        },
{
    let cs = chars_of(s);
    if cs.len() == 0 {
        return None;
    }
    let mut n: u64 = 0;
    let mut over = false;
    let mut i: usize = 0;
    while i < cs.len()
        invariant
            i <= cs.len(),
            cs@ == s@,
            forall|j: int| 0 <= j < i ==> is_digit(#[trigger] s@[j]),
            over ==> digits_value(s@.take(i as int)) > max,
            !over ==> n == digits_value(s@.take(i as int)) && n <= max,
        decreases cs.len() - i,
    {
        let c = cs[i];
        let ghost step = s@.take(i + 1);
        assert(step.drop_last() =~= s@.take(i as int));
        assert(step.last() == c);
        if !digit(c) {
            assert(!is_digit(s@[i as int]));
            return None;
        }
        let d: u64 = (c as u32 - '0' as u32) as u64;
        if !over {
            let wide: u128 = n as u128 * 10 + d as u128;
            if wide <= max as u128 {
                n = wide as u64;
            } else {
                over = true;
            }
        }
        i += 1;
    }
    assert(s@.take(i as int) =~= s@);
    if over {
        None
    } else {
        Some(n)
    }
}

/// Reads a number without a sign, or with a plus.
pub fn unsigned(s: &str) -> (r: Option<u64>)
    ensures
        match r {
            Some(n) => unsigned_value(s@) == Some(n as nat),
            None => unsigned_value(s@) is None,
        },
{
    match after_prefix(s, "+") {
        Some(rest) => bounded(rest.as_str(), u64::MAX),
        None => bounded(s, u64::MAX),
    }
}

/// Reads a number with or without a sign.
pub fn signed(s: &str) -> (r: Option<i64>)
    ensures
        match r {
            Some(n) => signed_value(s@) == Some(n as int),
            None => signed_value(s@) is None,
        },
{
    match after_prefix(s, "-") {
        Some(rest) => match bounded(rest.as_str(), 0x8000_0000_0000_0000) {
            Some(n) => Some((0i128 - n as i128) as i64),
            None => None,
        },
        None => {
            let body = match after_prefix(s, "+") {
                Some(rest) => rest,
                None => owned(s),
            };
            match bounded(body.as_str(), i64::MAX as u64) {
                Some(n) => Some(n as i64),
                None => None,
            }
        },
    }
}

} // verus!
