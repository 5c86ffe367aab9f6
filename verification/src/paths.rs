//! Paths as texts whose segments are separated by slashes.
use vstd::prelude::*;
use crate::text::{back_run, ends_with, split, CharClass};
use crate::text::{back_run_at, chars_of, cut, ends, owned, same, split_at_char};

verus! {

/// The last segment of a path.
pub open spec fn base_name(path: Seq<char>) -> Seq<char> {
    split(path, '/').last()
}

/// Where the last dot of a name stands, unless the name starts with it or has
/// none.
pub open spec fn dot_place(name: Seq<char>) -> Option<int> {
    let at = name.len() - 1 - back_run(name, CharClass::Not('.'));
    if at <= 0 || name == ".."@ {
        None
    } else {
        Some(at)
    }
}

/// What follows the last dot of a path's last segment.
pub open spec fn extension(path: Seq<char>) -> Option<Seq<char>> {
    let name = base_name(path);
    match dot_place(name) {
        Some(at) => Some(name.skip(at + 1)),
        None => None,
    }
}

/// A path's last segment without its extension.
pub open spec fn stem(path: Seq<char>) -> Seq<char> {
    let name = base_name(path);
    match dot_place(name) {
        Some(at) => name.take(at),
        None => name,
    }
}

/// A path below a directory.
pub open spec fn below(dir: Seq<char>, name: Seq<char>) -> Seq<char> {
    if dir.len() == 0 || ends_with(dir, "/"@) {
        dir + name
    } else {
        dir + "/"@ + name
    }
}

pub proof fn lemma_split_nonempty(s: Seq<char>, sep: char)
    ensures
        split(s, sep).len() >= 1,
{
}

pub fn base_name_of(path: &str) -> (r: String)
    ensures
        r@ == base_name(path@),
{
    let parts = split_at_char(path, '/');
    proof {
        lemma_split_nonempty(path@, '/');
    }
    assert(parts.deep_view().last() == parts[parts.len() - 1]@);
    owned(parts[parts.len() - 1].as_str())
}

fn dot_in(name: &Vec<char>, text: &str) -> (r: Option<usize>)
    requires
        name@ == text@,
    ensures
        match r {
            Some(at) => dot_place(name@) == Some(at as int) && at < name.len(),
            None => dot_place(name@) is None,
        },
{
    assert(name@.subrange(0, name@.len() as int) =~= name@);
    let n: usize = back_run_at(name, 0, name.len(), CharClass::Not('.'));
    if name.len() - n <= 1 || same(text, "..") {
        None
    } else {
        Some(name.len() - 1 - n)
    }
}

pub fn extension_of(path: &str) -> (r: Option<String>)
    ensures
        r.deep_view() == extension(path@),
{
    let name = base_name_of(path);
    let cs = chars_of(name.as_str());
    match dot_in(&cs, name.as_str()) {
        Some(at) => {
            assert(cs@.subrange(at + 1, cs@.len() as int) =~= cs@.skip(at + 1));
            Some(cut(&cs, at + 1, cs.len()))
        },
        None => None,
    }
}

pub fn stem_of(path: &str) -> (r: String)
    ensures
        r@ == stem(path@),
{
    let name = base_name_of(path);
    let cs = chars_of(name.as_str());
    match dot_in(&cs, name.as_str()) {
        Some(at) => {
            assert(cs@.subrange(0, at as int) =~= cs@.take(at as int));
            cut(&cs, 0, at)
        },
        None => name,
    }
}

pub fn path_below(dir: &str, name: &str) -> (r: String)
    ensures
        r@ == below(dir@, name@),
{
    let mut out = owned(dir);
    if !(dir.is_empty() || ends(dir, "/")) {
        out.append("/");
    }
    out.append(name);
    out
}

pub open spec fn is_named_segment(s: Seq<char>) -> bool {
    s.len() > 0 && s != "."@
}

/// The last named segment of a path, unless it leads up.
pub open spec fn final_name(parts: Seq<Seq<char>>) -> Option<Seq<char>>
    decreases parts.len(),
{
    if parts.len() == 0 {
        None
    } else if is_named_segment(parts.last()) {
        if parts.last() == ".."@ {
            None
        } else {
            Some(parts.last())
        }
    } else {
        final_name(parts.drop_last())
    }
}

pub fn final_name_of(parts: &Vec<String>) -> (r: Option<String>)
    ensures
        r.deep_view() == final_name(parts.deep_view()),
{
    let ghost pv = parts.deep_view();
    let mut n: usize = parts.len();
    assert(pv.take(n as int) =~= pv);
    while n > 0
        invariant
            n <= parts.len(),
            pv == parts.deep_view(),
            final_name(pv) == final_name(pv.take(n as int)),
        decreases n,
    {
        let s = parts[n - 1].as_str();
        assert(pv.take(n as int).last() == s@);
        if !s.is_empty() && !same(s, ".") {
            if same(s, "..") {
                return None;
            }
            return Some(owned(s));
        }
        assert(pv.take(n as int).drop_last() =~= pv.take(n - 1));
        n -= 1;
    }
    None
}

/// What a directory is called: its last named segment, or the path itself.
pub open spec fn display_name(path: Seq<char>) -> Seq<char> {
    match final_name(split(path, '/')) {
        Some(n) => n,
        None => path,
    }
}

pub fn display_name_of(path: &str) -> (r: String)
    ensures
        r@ == display_name(path@),
{
    match final_name_of(&split_at_char(path, '/')) {
        Some(n) => n,
        None => owned(path),
    }
}

} // verus!
