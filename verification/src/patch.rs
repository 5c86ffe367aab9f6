//! Reconstructs exactly the source that a Git patch describes: from the patch
//! and the blobs it names, never from the working tree.
use vstd::prelude::*;
use crate::outside::{found, group, SpanView, Span};
use crate::outside::{found_in, group_of};
use crate::table::{lookup, TextMap};
use crate::text::{contains, ends_with, full_rows, is_digit, is_space, rows, split, split_once, starts_with, strip_prefix, trim, words};
use crate::text::{after_prefix, begins, blank, chars_of, cut, digit, ends, full_rows_of, owned, parted, rows_of, same, same_option, space, split_at_char, trimmed, words_of};

verus! {

/// A result with its text and contents as plain values.
pub open spec fn outcome<T: DeepView>(r: Result<T, String>) -> Result<T::V, Seq<char>> {
    match r {
        Ok(v) => Ok(v.deep_view()),
        Err(e) => Err(e@),
    }
}

/// One file of a patch, before and after.
#[derive(Debug)]
pub struct FileChange {
    pub before_path: Option<String>,
    pub after_path: Option<String>,
    pub before: String,
    pub after: String,
}

pub struct FileChangeView {
    pub before_path: Option<Seq<char>>,
    pub after_path: Option<Seq<char>>,
    pub before: Seq<char>,
    pub after: Seq<char>,
}

impl DeepView for FileChange {
    type V = FileChangeView;

    open spec fn deep_view(&self) -> FileChangeView {
        FileChangeView {
            before_path: self.before_path.deep_view(),
            after_path: self.after_path.deep_view(),
            before: self.before@,
            after: self.after@,
        }
    }
}

// ---------------------------------------------------------------------------
// Paths and identities
// ---------------------------------------------------------------------------

pub open spec fn is_bad_path_char(c: char) -> bool {
    is_space(c) || c == '\\' || c == '"' || c == '\0'
}

pub open spec fn is_bad_segment(s: Seq<char>) -> bool {
    s.len() == 0 || s == "."@ || s == ".."@
}

pub open spec fn is_safe_path(p: Seq<char>) -> bool {
    &&& p.len() > 0
    &&& forall|i: int| 0 <= i < p.len() ==> !is_bad_path_char(#[trigger] p[i])
    &&& forall|i: int| 0 <= i < split(p, '/').len() ==> !is_bad_segment(#[trigger] split(p, '/')[i])
}

/// The path that a header names: none for `/dev/null`.
pub open spec fn patch_path(value: Seq<char>, prefix: Seq<char>) -> Result<
    Option<Seq<char>>,
    Seq<char>,
> {
    if value == "/dev/null"@ {
        Ok(None)
    } else {
        match strip_prefix(value, prefix) {
            None => Err("unsupported patch path prefix"@),
            Some(p) => if is_safe_path(p) {
                Ok(Some(p))
            } else {
                Err("unsafe or unsupported quoted patch path"@)
            },
        }
    }
}

fn safe_path(p: &str) -> (r: bool)
    ensures
        r == is_safe_path(p@),
{
    if p.is_empty() {
        return false;
    }
    let cs = chars_of(p);
    let mut i: usize = 0;
    while i < cs.len()
        invariant
            i <= cs.len(),
            cs@ == p@,
            forall|j: int| 0 <= j < i ==> !is_bad_path_char(#[trigger] p@[j]),
        decreases cs.len() - i,
    {
        let c = cs[i];
        if space(c) || c == '\\' || c == '"' || c == '\0' {
            assert(is_bad_path_char(p@[i as int]));
            return false;
        }
        i += 1;
    }
    let parts = split_at_char(p, '/');
    let mut k: usize = 0;
    while k < parts.len()
        invariant
            k <= parts.len(),
            parts.deep_view() == split(p@, '/'),
            forall|j: int| 0 <= j < k ==> !is_bad_segment(#[trigger] split(p@, '/')[j]),
        decreases parts.len() - k,
    {
        let s = parts[k].as_str();
        assert(split(p@, '/')[k as int] == s@);
        if s.is_empty() || same(s, ".") || same(s, "..") {
            return false;
        }
        k += 1;
    }
    true
}

/// The path that a header names.
pub fn path(value: &str, prefix: &str) -> (r: Result<Option<String>, String>)
    ensures
        outcome(r) == patch_path(value@, prefix@),
{
    if same(value, "/dev/null") {
        return Ok(None);
    }
    match after_prefix(value, prefix) {
        None => Err(owned("unsupported patch path prefix")),
        Some(p) => if safe_path(p.as_str()) {
            Ok(Some(p))
        } else {
            Err(owned("unsafe or unsupported quoted patch path"))
        },
    }
}

pub open spec fn is_hex_char(c: char) -> bool {
    is_digit(c) || 'a' <= c <= 'f' || 'A' <= c <= 'F'
}

/// A Git object name: four to sixty-four hexadecimal digits.
pub open spec fn is_oid(s: Seq<char>) -> bool {
    4 <= s.len() <= 64 && forall|i: int| 0 <= i < s.len() ==> is_hex_char(#[trigger] s[i])
}

/// The name of no object.
pub open spec fn is_null_oid(s: Seq<char>) -> bool {
    forall|i: int| 0 <= i < s.len() ==> #[trigger] s[i] == '0'
}

pub fn valid_oid(s: &str) -> (r: bool)
    ensures
        r == is_oid(s@),
{
    let cs = chars_of(s);
    if cs.len() < 4 || cs.len() > 64 {
        return false;
    }
    let mut i: usize = 0;
    while i < cs.len()
        invariant
            i <= cs.len(),
            cs@ == s@,
            forall|j: int| 0 <= j < i ==> is_hex_char(#[trigger] s@[j]),
        decreases cs.len() - i,
    {
        let c = cs[i];
        if !(digit(c) || ('a' <= c && c <= 'f') || ('A' <= c && c <= 'F')) {
            assert(!is_hex_char(s@[i as int]));
            return false;
        }
        i += 1;
    }
    true
}

fn null_oid(s: &str) -> (r: bool)
    ensures
        r == is_null_oid(s@),
{
    let cs = chars_of(s);
    let mut i: usize = 0;
    while i < cs.len()
        invariant
            i <= cs.len(),
            cs@ == s@,
            forall|j: int| 0 <= j < i ==> #[trigger] s@[j] == '0',
        decreases cs.len() - i,
    {
        if cs[i] != '0' {
            assert(s@[i as int] != '0');
            return false;
        }
        i += 1;
    }
    true
}

// ---------------------------------------------------------------------------
// The headers of one file's section
// ---------------------------------------------------------------------------

/// What the header lines of a section have said so far.
#[derive(Debug)]
pub struct Header {
    pub before_path: Option<String>,
    pub after_path: Option<String>,
    pub old_oid: Option<String>,
    pub new_oid: Option<String>,
    pub saw_before: bool,
    pub saw_after: bool,
}

pub struct HeaderView {
    pub before_path: Option<Seq<char>>,
    pub after_path: Option<Seq<char>>,
    pub old_oid: Option<Seq<char>>,
    pub new_oid: Option<Seq<char>>,
    pub saw_before: bool,
    pub saw_after: bool,
}

impl DeepView for Header {
    type V = HeaderView;

    open spec fn deep_view(&self) -> HeaderView {
        HeaderView {
            before_path: self.before_path.deep_view(),
            after_path: self.after_path.deep_view(),
            old_oid: self.old_oid.deep_view(),
            new_oid: self.new_oid.deep_view(),
            saw_before: self.saw_before,
            saw_after: self.saw_after,
        }
    }
}

pub open spec fn is_file_mode(m: Seq<char>) -> bool {
    m == "100644"@ || m == "100755"@
}

/// The two identities of an `index` line.
pub open spec fn index_line(ids: Seq<char>) -> Result<(Seq<char>, Seq<char>), Seq<char>> {
    let fields = words(ids);
    let pair = if fields.len() > 0 {
        split_once(fields[0], ".."@)
    } else {
        None
    };
    match pair {
        None => Err("invalid blob identity header"@),
        Some(p) => if !is_oid(p.0) || !is_oid(p.1) {
            Err("invalid Git blob identity"@)
        } else if fields.len() > 1 && !is_file_mode(fields[1]) {
            Err("symlink or submodule patch is unsupported"@)
        } else {
            Ok(p)
        },
    }
}

/// One header line.
pub open spec fn header_line(h: HeaderView, line: Seq<char>) -> Result<HeaderView, Seq<char>> {
    if let Some(ids) = strip_prefix(line, "index "@) {
        if h.old_oid is Some {
            Err("duplicate blob identity header"@)
        } else {
            match index_line(ids) {
                Ok(p) => Ok(HeaderView { old_oid: Some(p.0), new_oid: Some(p.1), ..h }),
                Err(e) => Err(e),
            }
        }
    } else if let Some(value) = strip_prefix(line, "--- "@) {
        if h.saw_before {
            Err("duplicate old path header"@)
        } else {
            match patch_path(value, "a/"@) {
                Ok(p) => Ok(HeaderView { before_path: p, saw_before: true, ..h }),
                Err(e) => Err(e),
            }
        }
    } else if let Some(value) = strip_prefix(line, "+++ "@) {
        if h.saw_after {
            Err("duplicate new path header"@)
        } else {
            match patch_path(value, "b/"@) {
                Ok(p) => Ok(HeaderView { after_path: p, saw_after: true, ..h }),
                Err(e) => Err(e),
            }
        }
    } else if let Some(mode) = strip_prefix(line, "new file mode "@) {
        if is_file_mode(mode) {
            Ok(HeaderView { before_path: None, ..h })
        } else {
            Err("unsupported new file mode"@)
        }
    } else if let Some(mode) = strip_prefix(line, "deleted file mode "@) {
        if is_file_mode(mode) {
            Ok(HeaderView { after_path: None, ..h })
        } else {
            Err("unsupported deleted file mode"@)
        }
    } else if starts_with(line, "old mode "@) || starts_with(line, "new mode "@) {
        Err("file mode change requires separate observation"@)
    } else if starts_with(line, "similarity index "@) || starts_with(line, "rename from "@)
        || starts_with(line, "rename to "@) {
        Ok(h)
    } else {
        Err("unsupported patch metadata: "@ + line)
    }
}

/// The header lines from `i` on, up to the first hunk.
pub open spec fn header_lines(section: Seq<Seq<char>>, i: int, h: HeaderView) -> Result<
    (HeaderView, int),
    Seq<char>,
>
    decreases section.len() - i,
{
    if i < 0 || i >= section.len() || starts_with(section[i], "@@ "@) {
        Ok((h, i))
    } else {
        match header_line(h, section[i]) {
            Ok(g) => header_lines(section, i + 1, g),
            Err(e) => Err(e),
        }
    }
}

/// The paths of the line that opens a section.
pub open spec fn opening_line(line: Seq<char>) -> Result<HeaderView, Seq<char>> {
    match split_once(line.skip("diff --git "@.len() as int), " b/"@) {
        None => Err("unsupported Git path header"@),
        Some(p) => match patch_path(p.0, "a/"@) {
            Err(e) => Err(e),
            Ok(a) => match patch_path(p.1, ""@) {
                Err(e) => Err(e),
                Ok(b) => Ok(
                    HeaderView {
                        before_path: a,
                        after_path: b,
                        old_oid: None,
                        new_oid: None,
                        saw_before: false,
                        saw_after: false,
                    },
                ),
            },
        },
    }
}

/// The headers of a section, and where its hunks start.
pub open spec fn section_header(section: Seq<Seq<char>>) -> Result<(HeaderView, int), Seq<char>> {
    match opening_line(section[0]) {
        Err(e) => Err(e),
        Ok(first) => match header_lines(section, 1, first) {
            Err(e) => Err(e),
            Ok((h, i)) => if (h.before_path is Some && h.before_path != first.before_path) || (
            h.after_path is Some && h.after_path != first.after_path) {
                Err("patch path headers disagree"@)
            } else if i < section.len() && (!h.saw_before || !h.saw_after) {
                Err("hunks lack old/new path headers"@)
            } else {
                Ok((h, i))
            },
        },
    }
}

fn file_mode(m: &str) -> (r: bool)
    ensures
        r == is_file_mode(m@),
{
    same(m, "100644") || same(m, "100755")
}

fn read_index_line(ids: &str) -> (r: Result<(String, String), String>)
    ensures
        outcome(r) == index_line(ids@),
{
    let fields = words_of(ids);
    if fields.len() == 0 {
        return Err(owned("invalid blob identity header"));
    }
    assert(fields.deep_view()[0] == fields[0]@);
    match parted(fields[0].as_str(), "..") {
        None => Err(owned("invalid blob identity header")),
        Some((a, b)) => {
            if !valid_oid(a.as_str()) || !valid_oid(b.as_str()) {
                return Err(owned("invalid Git blob identity"));
            }
            if fields.len() > 1 {
                assert(fields.deep_view()[1] == fields[1]@);
                if !file_mode(fields[1].as_str()) {
                    return Err(owned("symlink or submodule patch is unsupported"));
                }
            }
            Ok((a, b))
        },
    }
}

fn read_header_line(h: Header, line: &str) -> (r: Result<Header, String>)
    ensures
        outcome(r) == header_line(h.deep_view(), line@),
{
    let mut h = h;
    if let Some(ids) = after_prefix(line, "index ") {
        if h.old_oid.is_some() {
            return Err(owned("duplicate blob identity header"));
        }
        match read_index_line(ids.as_str()) {
            Ok((a, b)) => {
                h.old_oid = Some(a);
                h.new_oid = Some(b);
                Ok(h)
            },
            Err(e) => Err(e),
        }
    } else if let Some(value) = after_prefix(line, "--- ") {
        if h.saw_before {
            return Err(owned("duplicate old path header"));
        }
        match path(value.as_str(), "a/") {
            Ok(p) => {
                h.before_path = p;
                h.saw_before = true;
                Ok(h)
            },
            Err(e) => Err(e),
        }
    } else if let Some(value) = after_prefix(line, "+++ ") {
        if h.saw_after {
            return Err(owned("duplicate new path header"));
        }
        match path(value.as_str(), "b/") {
            Ok(p) => {
                h.after_path = p;
                h.saw_after = true;
                Ok(h)
            },
            Err(e) => Err(e),
        }
    } else if let Some(mode) = after_prefix(line, "new file mode ") {
        if !file_mode(mode.as_str()) {
            return Err(owned("unsupported new file mode"));
        }
        h.before_path = None;
        Ok(h)
    } else if let Some(mode) = after_prefix(line, "deleted file mode ") {
        if !file_mode(mode.as_str()) {
            return Err(owned("unsupported deleted file mode"));
        }
        h.after_path = None;
        Ok(h)
    } else if begins(line, "old mode ") || begins(line, "new mode ") {
        Err(owned("file mode change requires separate observation"))
    } else if begins(line, "similarity index ") || begins(line, "rename from ") || begins(
        line,
        "rename to ",
    ) {
        Ok(h)
    } else {
        let mut e = owned("unsupported patch metadata: ");
        e.append(line);
        Err(e)
    }
}

fn read_opening_line(line: &str) -> (r: Result<Header, String>)
    requires
        starts_with(line@, "diff --git "@),
    ensures
        outcome(r) == opening_line(line@),
{
    let rest = match after_prefix(line, "diff --git ") {
        Some(s) => s,
        None => String::new(),
    };
    assert(rest@ == line@.skip("diff --git "@.len() as int));
    match parted(rest.as_str(), " b/") {
        None => Err(owned("unsupported Git path header")),
        Some((old, new)) => match path(old.as_str(), "a/") {
            Err(e) => Err(e),
            Ok(a) => match path(new.as_str(), "") {
                Err(e) => Err(e),
                Ok(b) => Ok(
                    Header {
                        before_path: a,
                        after_path: b,
                        old_oid: None,
                        new_oid: None,
                        saw_before: false,
                        saw_after: false,
                    },
                ),
            },
        },
    }
}

/// The headers of a section, and where its hunks start.
pub fn read_section_header(section: &Vec<String>) -> (r: Result<(Header, usize), String>)
    requires
        section.len() > 0,
        starts_with(section[0]@, "diff --git "@),
    ensures
        match r {
            Ok((h, i)) => section_header(section.deep_view()) == Ok::<
                (HeaderView, int),
                Seq<char>,
            >((h.deep_view(), i as int)) && 1 <= i <= section.len(),
            Err(e) => section_header(section.deep_view()) == Err::<(HeaderView, int), Seq<char>>(e@),
        },
{
    let ghost sv = section.deep_view();
    assert(sv[0] == section[0]@);
    let first = match read_opening_line(section[0].as_str()) {
        Ok(h) => h,
        Err(e) => return Err(e),
    };
    let ghost fv = first.deep_view();
    let top_before = crate::text::copied_option(&first.before_path);
    let top_after = crate::text::copied_option(&first.after_path);
    let mut h = first;
    let mut i: usize = 1;
    while i < section.len() && !begins(section[i].as_str(), "@@ ")
        invariant
            1 <= i <= section.len(),
            sv == section.deep_view(),
            header_lines(sv, 1, fv) == header_lines(sv, i as int, h.deep_view()),
            opening_line(sv[0]) == Ok::<HeaderView, Seq<char>>(fv),
        decreases section.len() - i,
    {
        assert(sv[i as int] == section[i as int]@);
        h = match read_header_line(h, section[i].as_str()) {
            Ok(g) => g,
            Err(e) => return Err(e),
        };
        i += 1;
    }
    if i < section.len() {
        assert(sv[i as int] == section[i as int]@);
    }
    assert(header_lines(sv, 1, fv) == Ok::<(HeaderView, int), Seq<char>>((h.deep_view(), i as int)));
    if (h.before_path.is_some() && !same_option(&h.before_path, &top_before)) || (
    h.after_path.is_some() && !same_option(&h.after_path, &top_after)) {
        return Err(owned("patch path headers disagree"));
    }
    if i < section.len() && (!h.saw_before || !h.saw_after) {
        return Err(owned("hunks lack old/new path headers"));
    }
    Ok((h, i))
}

// ---------------------------------------------------------------------------
// Hunks
// ---------------------------------------------------------------------------

pub const HUNK: &'static str = r"^@@ -(\d+)(?:,(\d+))? \+(\d+)(?:,(\d+))? @@(?: .*)?$";

/// The number that a run of digits writes.
pub open spec fn digits_value(s: Seq<char>) -> nat
    decreases s.len(),
{
    if s.len() == 0 {
        0
    } else {
        digits_value(s.drop_last()) * 10 + (s.last() as u32 - '0' as u32) as nat
    }
}

pub open spec fn is_digits(s: Seq<char>) -> bool {
    s.len() > 0 && forall|i: int| 0 <= i < s.len() ==> is_digit(#[trigger] s[i])
}

/// A number that fits the machine.
pub open spec fn size_value(s: Seq<char>) -> Option<nat> {
    if is_digits(s) && digits_value(s) <= usize::MAX {
        Some(digits_value(s))
    } else {
        None
    }
}

/// Which lines a hunk takes and gives.
#[derive(Clone, Copy)]
pub struct HunkRange {
    pub old_start: usize,
    pub old_count: usize,
    pub new_start: usize,
    pub new_count: usize,
}

pub open spec fn group_number(m: Seq<Option<SpanView>>, g: int, default: nat) -> Option<nat> {
    match group(m, g) {
        Some(t) => size_value(t),
        None => Some(default),
    }
}

/// The numbers of a hunk header: a count that is left out is one.
pub open spec fn hunk_range(m: Seq<Option<SpanView>>) -> Option<(nat, nat, nat, nat)> {
    match (group_number(m, 1, 0), group_number(m, 2, 1), group_number(m, 3, 0), group_number(
        m,
        4,
        1,
    )) {
        (Some(a), Some(b), Some(c), Some(d)) => Some((a, b, c, d)),
        _ => None,
    }
}

/// Where a hunk's lines start, counted from nought: a hunk without lines names
/// the line before it.
pub open spec fn hunk_offset(start: nat, count: nat) -> int {
    if count == 0 {
        start as int
    } else {
        start - 1
    }
}

/// How far the reconstruction of a file has come: the place in the section and
/// in the base, and the lines written.
pub struct Progress {
    pub at: int,
    pub cursor: int,
    pub output: Seq<Seq<char>>,
}

pub open spec fn no_newline_after(section: Seq<Seq<char>>, i: int) -> bool {
    i + 1 < section.len() && section[i + 1] == "\\ No newline at end of file"@
}

/// The lines of a hunk that are still owed.
pub open spec fn hunk_lines(
    section: Seq<Seq<char>>,
    base: Seq<Seq<char>>,
    p: Progress,
    old_left: nat,
    new_left: nat,
) -> Result<Progress, Seq<char>>
    decreases section.len() - p.at,
{
    if old_left == 0 && new_left == 0 {
        Ok(p)
    } else if p.at < 0 || p.at >= section.len() {
        Err("truncated hunk"@)
    } else {
        let line = section[p.at];
        if line.len() == 0 {
            Err("empty hunk line"@)
        } else if line[0] != ' ' && line[0] != '+' && line[0] != '-' {
            Err("unexpected hunk line"@)
        } else {
            let bare = no_newline_after(section, p.at);
            let text = if bare {
                line.skip(1)
            } else {
                line.skip(1).push('\n')
            };
            let takes = line[0] != '+';
            let gives = line[0] != '-';
            if takes && (old_left == 0 || p.cursor < 0 || p.cursor >= base.len() || base[p.cursor]
                != text) {
                Err("hunk context/removal does not match base blob"@)
            } else if gives && new_left == 0 {
                Err("hunk new-line count mismatch"@)
            } else {
                hunk_lines(
                    section,
                    base,
                    Progress {
                        at: p.at + (if bare {
                            2int
                        } else {
                            1int
                        }),
                        cursor: if takes {
                            p.cursor + 1
                        } else {
                            p.cursor
                        },
                        output: if gives {
                            p.output.push(text)
                        } else {
                            p.output
                        },
                    },
                    if takes {
                        (old_left - 1) as nat
                    } else {
                        old_left
                    },
                    if gives {
                        (new_left - 1) as nat
                    } else {
                        new_left
                    },
                )
            }
        }
    }
}

/// One hunk, from its header's numbers: the lines before it are copied from the
/// base, then its own lines are followed.
pub open spec fn one_hunk(
    section: Seq<Seq<char>>,
    base: Seq<Seq<char>>,
    p: Progress,
    range: (nat, nat, nat, nat),
) -> Result<Progress, Seq<char>> {
    let old_offset = hunk_offset(range.0, range.1);
    let new_offset = hunk_offset(range.2, range.3);
    if old_offset < 0 {
        Err("invalid old hunk position"@)
    } else if new_offset < 0 {
        Err("invalid new hunk position"@)
    } else if old_offset < p.cursor || old_offset > base.len() {
        Err("overlapping or out-of-range hunk"@)
    } else {
        let output = p.output + base.subrange(p.cursor, old_offset);
        if output.len() != new_offset {
            Err("new hunk position does not match reconstructed content"@)
        } else {
            hunk_lines(
                section,
                base,
                Progress { at: p.at + 1, cursor: old_offset, output },
                range.1,
                range.3,
            )
        }
    }
}

/// The numbers in a hunk's header line.
pub open spec fn hunk_header(line: Seq<char>) -> Result<(nat, nat, nat, nat), Seq<char>> {
    let ms = found(HUNK@, line);
    if ms.len() == 0 {
        Err("malformed or unsupported hunk header"@)
    } else {
        match hunk_range(ms[0]) {
            Some(r) => Ok(r),
            None => Err("invalid hunk range"@),
        }
    }
}

/// All hunks of a section. A hunk takes at least its header line.
pub open spec fn all_hunks(section: Seq<Seq<char>>, base: Seq<Seq<char>>, p: Progress) -> Result<
    Progress,
    Seq<char>,
>
    decreases
            (if p.at < section.len() {
                section.len() - p.at
            } else {
                0
            }),
{
    if p.at < 0 || p.at >= section.len() {
        Ok(p)
    } else {
        match hunk_header(section[p.at]) {
            Err(e) => Err(e),
            Ok(range) => match one_hunk(section, base, p, range) {
                Err(e) => Err(e),
                Ok(q) => if q.at > p.at {
                    all_hunks(section, base, q)
                } else {
                    Ok(q)
                },
            },
        }
    }
}

/// The lines of a file after all hunks, with the rest of the base.
pub open spec fn rebuilt(section: Seq<Seq<char>>, base: Seq<Seq<char>>, at: int) -> Result<
    Seq<Seq<char>>,
    Seq<char>,
> {
    match all_hunks(section, base, Progress { at, cursor: 0, output: seq![] }) {
        Err(e) => Err(e),
        Ok(p) => Ok(p.output + base.skip(p.cursor)),
    }
}

pub fn digits_of(s: &str) -> (r: Option<usize>)
    ensures
        match r {
            Some(n) => size_value(s@) == Some(n as nat),
            None => size_value(s@) is None,
        },
{
    let cs = chars_of(s);
    if cs.len() == 0 {
        return None;
    }
    let mut n: usize = 0;
    let mut over = false;
    let mut i: usize = 0;
    while i < cs.len()
        invariant
            i <= cs.len(),
            cs@ == s@,
            forall|j: int| 0 <= j < i ==> is_digit(#[trigger] s@[j]),
            over ==> digits_value(s@.take(i as int)) > usize::MAX,
            !over ==> n == digits_value(s@.take(i as int)),
        decreases cs.len() - i,
    {
        let c = cs[i];
        let ghost step = s@.take(i + 1);
        assert(step.drop_last() =~= s@.take(i as int));
        assert(step.last() == c);
        if !digit(c) {
            assert(!is_digit(s@[i as int]));
            return None;
        }
        let d: usize = (c as u32 - '0' as u32) as usize;
        if !over {
            match n.checked_mul(10) {
                Some(m) => match m.checked_add(d) {
                    Some(k) => {
                        n = k;
                    },
                    None => {
                        over = true;
                    },
                },
                None => {
                    over = true;
                },
            }
        }
        i += 1;
    }
    assert(s@.take(i as int) =~= s@);
    if over {
        None
    } else {
        Some(n)
    }
}

fn group_number_of(m: &Vec<Option<Span>>, g: usize, default: usize) -> (r: Option<usize>)
    ensures
        match r {
            Some(n) => group_number(m.deep_view(), g as int, default as nat) == Some(n as nat),
            None => group_number(m.deep_view(), g as int, default as nat) is None,
        },
{
    match group_of(m, g) {
        Some(t) => digits_of(t.as_str()),
        None => Some(default),
    }
}

impl HunkRange {
    pub open spec fn numbers(self) -> (nat, nat, nat, nat) {
        (
            self.old_start as nat,
            self.old_count as nat,
            self.new_start as nat,
            self.new_count as nat,
        )
    }
}

/// The numbers of a hunk from the groups of its header.
pub fn hunk_range_of(m: &Vec<Option<Span>>) -> (r: Option<HunkRange>)
    ensures
        match r {
            Some(h) => hunk_range(m.deep_view()) == Some(h.numbers()),
            None => hunk_range(m.deep_view()) is None,
        },
{
    match (group_number_of(m, 1, 0), group_number_of(m, 2, 1), group_number_of(m, 3, 0), group_number_of(
        m,
        4,
        1,
    )) {
        (Some(old_start), Some(old_count), Some(new_start), Some(new_count)) => Some(
            HunkRange { old_start, old_count, new_start, new_count },
        ),
        _ => None,
    }
}

fn read_hunk_header(line: &str) -> (r: Result<HunkRange, String>)
    ensures
        match r {
            Ok(h) => hunk_header(line@) == Ok::<(nat, nat, nat, nat), Seq<char>>(h.numbers()),
            Err(e) => hunk_header(line@) == Err::<(nat, nat, nat, nat), Seq<char>>(e@),
        },
{
    let ms = found_in(HUNK, line);
    if ms.len() == 0 {
        return Err(owned("malformed or unsupported hunk header"));
    }
    assert(ms.deep_view()[0] == ms[0].deep_view());
    match hunk_range_of(&ms[0]) {
        Some(h) => Ok(h),
        None => Err(owned("invalid hunk range")),
    }
}

/// How far the reconstruction of a file has come.
#[derive(Debug)]
pub struct Rebuilding {
    pub at: usize,
    pub cursor: usize,
    pub output: Vec<String>,
}

impl DeepView for Rebuilding {
    type V = Progress;

    open spec fn deep_view(&self) -> Progress {
        Progress {
            at: self.at as int,
            cursor: self.cursor as int,
            output: self.output.deep_view(),
        }
    }
}

fn follow_hunk_lines(
    section: &Vec<String>,
    base: &Vec<String>,
    start: Rebuilding,
    old_count: usize,
    new_count: usize,
) -> (r: Result<Rebuilding, String>)
    requires
        start.cursor <= base.len(),
    ensures
        outcome(r) == hunk_lines(
            section.deep_view(),
            base.deep_view(),
            start.deep_view(),
            old_count as nat,
            new_count as nat,
        ),
        r matches Ok(q) ==> q.cursor <= base.len() && q.at >= start.at,
{
    let ghost sv = section.deep_view();
    let ghost bv = base.deep_view();
    let ghost whole = hunk_lines(sv, bv, start.deep_view(), old_count as nat, new_count as nat);
    let mut p = start;
    let mut old_left: usize = old_count;
    let mut new_left: usize = new_count;
    while old_left > 0 || new_left > 0
        invariant
            sv == section.deep_view(),
            bv == base.deep_view(),
            p.cursor <= base.len(),
            p.at >= start.at,
            whole == hunk_lines(sv, bv, start.deep_view(), old_count as nat, new_count as nat),
            whole == hunk_lines(sv, bv, p.deep_view(), old_left as nat, new_left as nat),
        decreases section.len() + 2 - p.at,
    {
        if p.at >= section.len() {
            return Err(owned("truncated hunk"));
        }
        assert(sv[p.at as int] == section[p.at as int]@);
        let line = chars_of(section[p.at].as_str());
        if line.len() == 0 {
            return Err(owned("empty hunk line"));
        }
        let mark = line[0];
        if mark != ' ' && mark != '+' && mark != '-' {
            return Err(owned("unexpected hunk line"));
        }
        let bare = p.at + 1 < section.len() && same(
            section[p.at + 1].as_str(),
            "\\ No newline at end of file",
        );
        assert(bare == no_newline_after(sv, p.at as int)) by {
            if p.at + 1 < section.len() {
                assert(sv[p.at + 1] == section[p.at + 1]@);
            }
        }
        let mut text = cut(&line, 1, line.len());
        assert(text@ =~= line@.skip(1));
        if !bare {
            crate::text::push_char(&mut text, '\n');
        }
        if mark != '+' {
            if old_left == 0 || p.cursor >= base.len() {
                return Err(owned("hunk context/removal does not match base blob"));
            }
            assert(bv[p.cursor as int] == base[p.cursor as int]@);
            if !same(base[p.cursor].as_str(), text.as_str()) {
                return Err(owned("hunk context/removal does not match base blob"));
            }
        }
        if mark != '-' && new_left == 0 {
            return Err(owned("hunk new-line count mismatch"));
        }
        if mark != '+' {
            p.cursor += 1;
            old_left -= 1;
        }
        if mark != '-' {
            let ghost so_far = p.output.deep_view();
            let ghost t = text@;
            p.output.push(text);
            assert(p.output.deep_view() =~= so_far.push(t));
            new_left -= 1;
        }
        p.at = if bare {
            p.at + 2
        } else {
            p.at + 1
        };
    }
    Ok(p)
}

/// One hunk, from its header's numbers.
pub fn apply_hunk(section: &Vec<String>, base: &Vec<String>, start: Rebuilding, range: HunkRange) -> (r:
    Result<Rebuilding, String>)
    requires
        start.cursor <= base.len(),
        start.at < section.len(),
    ensures
        outcome(r) == one_hunk(
            section.deep_view(),
            base.deep_view(),
            start.deep_view(),
            range.numbers(),
        ),
        r matches Ok(q) ==> q.cursor <= base.len() && q.at > start.at,
{
    let mut p = start;
    if range.old_count > 0 && range.old_start == 0 {
        return Err(owned("invalid old hunk position"));
    }
    if range.new_count > 0 && range.new_start == 0 {
        return Err(owned("invalid new hunk position"));
    }
    let old_offset: usize = if range.old_count == 0 {
        range.old_start
    } else {
        range.old_start - 1
    };
    let new_offset: usize = if range.new_count == 0 {
        range.new_start
    } else {
        range.new_start - 1
    };
    if old_offset < p.cursor || old_offset > base.len() {
        return Err(owned("overlapping or out-of-range hunk"));
    }
    let ghost out0 = p.output.deep_view();
    let ghost bv = base.deep_view();
    let from: usize = p.cursor;
    let mut i: usize = from;
    while i < old_offset
        invariant
            from <= i <= old_offset <= base.len(),
            bv == base.deep_view(),
            p.at == start.at,
            p.output.deep_view() =~= out0 + bv.subrange(from as int, i as int),
        decreases old_offset - i,
    {
        let ghost so_far = p.output.deep_view();
        assert(bv[i as int] == base[i as int]@);
        p.output.push(owned(base[i].as_str()));
        assert(p.output.deep_view() =~= so_far.push(bv[i as int]));
        i += 1;
    }
    if p.output.len() != new_offset {
        return Err(owned("new hunk position does not match reconstructed content"));
    }
    p.cursor = old_offset;
    p.at = p.at + 1;
    follow_hunk_lines(section, base, p, range.old_count, range.new_count)
}

fn rebuild(section: &Vec<String>, base: &Vec<String>, at: usize) -> (r: Result<Vec<String>, String>)
    ensures
        outcome(r) == rebuilt(section.deep_view(), base.deep_view(), at as int),
{
    let ghost sv = section.deep_view();
    let ghost bv = base.deep_view();
    let output: Vec<String> = Vec::new();
    assert(output.deep_view() =~= seq![]);
    let mut p = Rebuilding { at, cursor: 0, output };
    let ghost whole = all_hunks(sv, bv, p.deep_view());
    while p.at < section.len()
        invariant
            sv == section.deep_view(),
            bv == base.deep_view(),
            p.cursor <= base.len(),
            whole == all_hunks(sv, bv, Progress { at: at as int, cursor: 0, output: seq![] }),
            whole == all_hunks(sv, bv, p.deep_view()),
        decreases
                (if p.at < section.len() {
                    section.len() - p.at
                } else {
                    0
                }),
    {
        assert(sv[p.at as int] == section[p.at as int]@);
        let range = match read_hunk_header(section[p.at].as_str()) {
            Ok(h) => h,
            Err(e) => return Err(e),
        };
        p = match apply_hunk(section, base, p, range) {
            Ok(q) => q,
            Err(e) => return Err(e),
        };
    }
    let ghost out0 = p.output.deep_view();
    let from: usize = p.cursor;
    let mut i: usize = from;
    while i < base.len()
        invariant
            from <= i <= base.len(),
            bv == base.deep_view(),
            p.output.deep_view() =~= out0 + bv.skip(from as int).take(i - from),
        decreases base.len() - i,
    {
        let ghost so_far = p.output.deep_view();
        assert(bv[i as int] == base[i as int]@);
        p.output.push(owned(base[i].as_str()));
        assert(p.output.deep_view() =~= so_far.push(bv[i as int]));
        i += 1;
    }
    assert(bv.skip(from as int).take(i - from) =~= bv.skip(from as int));
    Ok(p.output)
}

// ---------------------------------------------------------------------------
// One file
// ---------------------------------------------------------------------------

/// A blob as the repository gave it: its text, or why it could not be had.
#[derive(Debug)]
pub enum Blob {
    Content(String),
    Failed(String),
}

pub enum BlobView {
    Content(Seq<char>),
    Failed(Seq<char>),
}

impl DeepView for Blob {
    type V = BlobView;

    open spec fn deep_view(&self) -> BlobView {
        match self {
            Blob::Content(s) => BlobView::Content(s@),
            Blob::Failed(s) => BlobView::Failed(s@),
        }
    }
}

/// A reconstructed file, with the identity that its new content must have.
#[derive(Debug)]
pub struct Pending {
    pub change: FileChange,
    pub expected: Option<String>,
}

pub struct PendingView {
    pub change: FileChangeView,
    pub expected: Option<Seq<char>>,
}

impl DeepView for Pending {
    type V = PendingView;

    open spec fn deep_view(&self) -> PendingView {
        PendingView { change: self.change.deep_view(), expected: self.expected.deep_view() }
    }
}

/// Which blob a section starts from: none for a new file.
pub open spec fn base_identity(h: HeaderView) -> Result<Option<Seq<char>>, Seq<char>> {
    if h.before_path is None {
        if h.old_oid is Some && !is_null_oid(h.old_oid->0) {
            Err("new file has nonempty base identity"@)
        } else {
            Ok(None)
        }
    } else {
        match h.old_oid {
            Some(oid) => Ok(Some(oid)),
            None => Err("existing file patch lacks base blob identity"@),
        }
    }
}

/// The text of a blob.
pub open spec fn blob_text(blobs: Seq<(Seq<char>, BlobView)>, oid: Seq<char>) -> Result<
    Seq<char>,
    Seq<char>,
> {
    match lookup(blobs, oid) {
        Some(BlobView::Content(s)) => if s.contains('\0') {
            Err("binary patch base is unsupported"@)
        } else {
            Ok(s)
        },
        Some(BlobView::Failed(e)) => Err(e),
        None => Err("patch base blob "@ + oid + " is unavailable or ambiguous"@),
    }
}

pub open spec fn base_text(blobs: Seq<(Seq<char>, BlobView)>, h: HeaderView) -> Result<
    Seq<char>,
    Seq<char>,
> {
    match base_identity(h) {
        Err(e) => Err(e),
        Ok(None) => Ok(seq![]),
        Ok(Some(oid)) => blob_text(blobs, oid),
    }
}

/// Only the last line may lack its line feed.
pub open spec fn only_last_is_bare(output: Seq<Seq<char>>) -> bool {
    forall|i: int| 0 <= i < output.len() - 1 ==> ends_with(#[trigger] output[i], "\n"@)
}

/// The change that a section's headers, base and new lines make.
pub open spec fn finished(h: HeaderView, before: Seq<char>, output: Seq<Seq<char>>) -> Result<
    PendingView,
    Seq<char>,
> {
    let after = output.flatten();
    if !only_last_is_bare(output) {
        Err("no-newline marker occurs before end of file"@)
    } else if after.contains('\0') {
        Err("binary content is unsupported"@)
    } else if h.after_path is None && (after.len() > 0 || (h.new_oid is Some && !is_null_oid(
        h.new_oid->0,
    ))) {
        Err("deleted file patch leaves content or nonempty identity"@)
    } else if h.before_path is Some && h.after_path is Some && h.new_oid is None {
        Err("modified file lacks new blob identity"@)
    } else {
        Ok(
            PendingView {
                change: FileChangeView {
                    before_path: h.before_path,
                    after_path: h.after_path,
                    before,
                    after,
                },
                expected: if h.before_path is Some && h.after_path is Some {
                    h.new_oid
                } else {
                    None
                },
            },
        )
    }
}

/// One section of a patch.
pub open spec fn one_file(section: Seq<Seq<char>>, blobs: Seq<(Seq<char>, BlobView)>) -> Result<
    PendingView,
    Seq<char>,
> {
    match section_header(section) {
        Err(e) => Err(e),
        Ok((h, at)) => match base_text(blobs, h) {
            Err(e) => Err(e),
            Ok(before) => match rebuilt(section, full_rows(before), at) {
                Err(e) => Err(e),
                Ok(output) => finished(h, before, output),
            },
        },
    }
}

fn holds_nul(s: &str) -> (r: bool)
    ensures
        r == s@.contains('\0'),
{
    let cs = chars_of(s);
    let mut i: usize = 0;
    while i < cs.len()
        invariant
            i <= cs.len(),
            cs@ == s@,
            forall|j: int| 0 <= j < i ==> s@[j] != '\0',
        decreases cs.len() - i,
    {
        if cs[i] == '\0' {
            assert(s@[i as int] == '\0');
            return true;
        }
        i += 1;
    }
    false
}

fn base_identity_of(h: &Header) -> (r: Result<Option<String>, String>)
    ensures
        outcome(r) == base_identity(h.deep_view()),
{
    if h.before_path.is_none() {
        if let Some(oid) = &h.old_oid {
            if !null_oid(oid.as_str()) {
                return Err(owned("new file has nonempty base identity"));
            }
        }
        Ok(None)
    } else {
        match &h.old_oid {
            Some(oid) => Ok(Some(owned(oid.as_str()))),
            None => Err(owned("existing file patch lacks base blob identity")),
        }
    }
}

/// The text of a blob, unless it could not be had or is binary.
pub fn blob(blobs: &TextMap<Blob>, oid: &str) -> (r: Result<String, String>)
    ensures
        outcome(r) == blob_text(blobs.deep_view(), oid@),
{
    match blobs.get(oid) {
        Some(Blob::Content(s)) => if holds_nul(s.as_str()) {
            Err(owned("binary patch base is unsupported"))
        } else {
            Ok(owned(s.as_str()))
        },
        Some(Blob::Failed(e)) => Err(owned(e.as_str())),
        None => {
            let mut e = owned("patch base blob ");
            e.append(oid);
            e.append(" is unavailable or ambiguous");
            Err(e)
        },
    }
}

fn base_text_of(blobs: &TextMap<Blob>, h: &Header) -> (r: Result<String, String>)
    ensures
        outcome(r) == base_text(blobs.deep_view(), h.deep_view()),
{
    match base_identity_of(h) {
        Err(e) => Err(e),
        Ok(None) => {
            let s = String::new();
            assert(s@ =~= seq![]);
            Ok(s)
        },
        Ok(Some(oid)) => blob(blobs, oid.as_str()),
    }
}

fn bare_only_at_end(output: &Vec<String>) -> (r: bool)
    ensures
        r == only_last_is_bare(output.deep_view()),
{
    let mut i: usize = 0;
    while i < output.len() && i < output.len() - 1
        invariant
            i <= output.len(),
            forall|j: int| 0 <= j < i ==> ends_with(#[trigger] output.deep_view()[j], "\n"@),
        decreases output.len() - i,
    {
        if !ends(output[i].as_str(), "\n") {
            assert(!ends_with(output.deep_view()[i as int], "\n"@));
            return false;
        }
        i += 1;
    }
    true
}

fn concatenated(parts: &Vec<String>) -> (r: String)
    ensures
        r@ == parts.deep_view().flatten(),
{
    let ghost pv = parts.deep_view();
    let mut out = String::new();
    let mut i: usize = 0;
    assert(pv.take(0).flatten() =~= seq![]);
    while i < parts.len()
        invariant
            i <= parts.len(),
            pv == parts.deep_view(),
            out@ == pv.take(i as int).flatten(),
        decreases parts.len() - i,
    {
        proof {
            pv.take(i as int).lemma_flatten_push(pv[i as int]);
            assert(pv.take(i + 1) =~= pv.take(i as int).push(pv[i as int]));
        }
        out.append(parts[i].as_str());
        i += 1;
    }
    assert(pv.take(i as int) =~= pv);
    out
}

fn finish(h: Header, before: String, output: &Vec<String>) -> (r: Result<Pending, String>)
    ensures
        outcome(r) == finished(h.deep_view(), before@, output.deep_view()),
{
    if !bare_only_at_end(output) {
        return Err(owned("no-newline marker occurs before end of file"));
    }
    let after = concatenated(output);
    if holds_nul(after.as_str()) {
        return Err(owned("binary content is unsupported"));
    }
    if h.after_path.is_none() {
        let named = match &h.new_oid {
            Some(oid) => !null_oid(oid.as_str()),
            None => false,
        };
        if !after.as_str().is_empty() || named {
            return Err(owned("deleted file patch leaves content or nonempty identity"));
        }
    }
    let both = h.before_path.is_some() && h.after_path.is_some();
    if both && h.new_oid.is_none() {
        return Err(owned("modified file lacks new blob identity"));
    }
    let expected = if both {
        h.new_oid
    } else {
        None
    };
    Ok(
        Pending {
            change: FileChange {
                before_path: h.before_path,
                after_path: h.after_path,
                before,
                after,
            },
            expected,
        },
    )
}

/// One section of a patch.
pub fn materialize_file(section: &Vec<String>, blobs: &TextMap<Blob>) -> (r: Result<Pending, String>)
    requires
        section.len() > 0,
        starts_with(section[0]@, "diff --git "@),
    ensures
        outcome(r) == one_file(section.deep_view(), blobs.deep_view()),
{
    let (h, at) = match read_section_header(section) {
        Ok(x) => x,
        Err(e) => return Err(e),
    };
    let before = match base_text_of(blobs, &h) {
        Ok(s) => s,
        Err(e) => return Err(e),
    };
    let base = full_rows_of(before.as_str());
    let output = match rebuild(section, &base, at) {
        Ok(o) => o,
        Err(e) => return Err(e),
    };
    finish(h, before, &output)
}

// ---------------------------------------------------------------------------
// The whole patch
// ---------------------------------------------------------------------------

pub open spec fn opens_section(line: Seq<char>) -> bool {
    starts_with(line, "diff --git "@)
}

/// How many lines belong to the section that the first line opens.
pub open spec fn section_len(lines: Seq<Seq<char>>) -> int
    decreases lines.len(),
{
    if lines.len() <= 1 || opens_section(lines[1]) {
        1
    } else {
        1 + section_len(lines.skip(1))
    }
}

/// A patch reconstructed file by file: what was done, and the error that ended
/// it.
#[derive(Debug)]
pub struct Materialized {
    pub files: Vec<Pending>,
    pub error: Option<String>,
}

pub struct MaterializedView {
    pub files: Seq<PendingView>,
    pub error: Option<Seq<char>>,
}

impl DeepView for Materialized {
    type V = MaterializedView;

    open spec fn deep_view(&self) -> MaterializedView {
        MaterializedView { files: self.files.deep_view(), error: self.error.deep_view() }
    }
}

pub proof fn lemma_section_len(lines: Seq<Seq<char>>)
    ensures
        1 <= section_len(lines),
        lines.len() > 0 ==> section_len(lines) <= lines.len(),
        forall|j: int| 1 <= j < section_len(lines) && j < lines.len() ==> !opens_section(#[trigger] lines[j]),
        section_len(lines) < lines.len() ==> opens_section(lines[section_len(lines)]),
    decreases lines.len(),
{
    if lines.len() > 1 && !opens_section(lines[1]) {
        lemma_section_len(lines.skip(1));
        assert forall|j: int| 1 <= j < section_len(lines) && j < lines.len() implies !opens_section(
            #[trigger] lines[j],
        ) by {
            if j > 1 {
                assert(lines.skip(1)[j - 1] == lines[j]);
            }
        }
        if section_len(lines) < lines.len() {
            assert(lines.skip(1)[section_len(lines) - 1] == lines[section_len(lines)]);
        }
    }
}

/// The sections of a patch in order, up to the first error.
pub open spec fn all_files(lines: Seq<Seq<char>>, blobs: Seq<(Seq<char>, BlobView)>) -> MaterializedView
    decreases lines.len(),
{
    if lines.len() == 0 {
        MaterializedView { files: seq![], error: None }
    } else {
        let n = section_len(lines);
        match one_file(lines.take(n), blobs) {
            Err(e) => MaterializedView { files: seq![], error: Some(e) },
            Ok(f) => {
                proof {
                    lemma_section_len(lines);
                }
                let rest = all_files(lines.skip(n), blobs);
                MaterializedView { files: seq![f] + rest.files, error: rest.error }
            },
        }
    }
}

/// Everything that a patch says of its files. An empty patch changes nothing; a
/// text that is no Git patch is an error.
pub open spec fn materialized(diff: Seq<char>, blobs: Seq<(Seq<char>, BlobView)>) -> MaterializedView {
    let lines = rows(diff);
    if trim(diff).len() == 0 {
        MaterializedView { files: seq![], error: None }
    } else if lines.len() == 0 || !opens_section(lines[0]) {
        MaterializedView {
            files: seq![],
            error: Some("expected Git unified diff with blob identities"@),
        }
    } else {
        all_files(lines, blobs)
    }
}

fn section_at(lines: &Vec<String>, from: usize) -> (n: usize)
    requires
        from < lines.len(),
    ensures
        n == section_len(lines.deep_view().skip(from as int)),
        from + n <= lines.len(),
        n >= 1,
{
    let ghost lv = lines.deep_view();
    let ghost rest = lv.skip(from as int);
    let mut i: usize = from + 1;
    while i < lines.len() && !begins(lines[i].as_str(), "diff --git ")
        invariant
            from < i <= lines.len(),
            lv == lines.deep_view(),
            rest == lv.skip(from as int),
            section_len(rest) == (i - from - 1) + section_len(lv.skip(i - 1)),
        decreases lines.len() - i,
    {
        assert(lv.skip(i - 1)[1] == lines[i as int]@);
        assert(lv.skip(i - 1).skip(1) =~= lv.skip(i as int));
        i += 1;
    }
    if i < lines.len() {
        assert(lv.skip(i - 1)[1] == lines[i as int]@);
    }
    i - from
}

fn part_of(lines: &Vec<String>, from: usize, n: usize) -> (r: Vec<String>)
    requires
        from + n <= lines.len(),
    ensures
        r.deep_view() == lines.deep_view().skip(from as int).take(n as int),
{
    let ghost part = lines.deep_view().skip(from as int).take(n as int);
    let mut out: Vec<String> = Vec::new();
    let mut i: usize = 0;
    while i < n
        invariant
            i <= n,
            from + n <= lines.len(),
            part == lines.deep_view().skip(from as int).take(n as int),
            out.deep_view() =~= part.take(i as int),
        decreases n - i,
    {
        let ghost so_far = out.deep_view();
        assert(part[i as int] == lines[from + i]@);
        out.push(owned(lines[from + i].as_str()));
        assert(out.deep_view() =~= so_far.push(part[i as int]));
        i += 1;
    }
    assert(part.take(i as int) =~= part);
    out
}

/// Everything that a patch says of its files, reconstructed from the blobs that
/// it names.
pub fn materialize(diff: &str, blobs: &TextMap<Blob>) -> (r: Materialized)
    ensures
        r.deep_view() == materialized(diff@, blobs.deep_view()),
{
    let mut files: Vec<Pending> = Vec::new();
    assert(files.deep_view() =~= seq![]);
    if blank(diff) {
        return Materialized { files, error: None };
    }
    let lines = rows_of(diff);
    let ghost lv = lines.deep_view();
    let ghost bv = blobs.deep_view();
    if lines.len() == 0 || !begins(lines[0].as_str(), "diff --git ") {
        return Materialized {
            files,
            error: Some(owned("expected Git unified diff with blob identities")),
        };
    }
    let ghost whole = all_files(lv, bv);
    let mut at: usize = 0;
    assert(lv.skip(0) =~= lv);
    assert(seq![] + whole.files =~= whole.files);
    while at < lines.len()
        invariant
            at <= lines.len(),
            lv == lines.deep_view(),
            bv == blobs.deep_view(),
            at < lines.len() ==> opens_section(lv[at as int]),
            whole == all_files(lv, bv),
            whole.files =~= files.deep_view() + all_files(lv.skip(at as int), bv).files,
            whole.error == all_files(lv.skip(at as int), bv).error,
            whole == materialized(diff@, bv),
        decreases lines.len() - at,
    {
        let ghost rest = lv.skip(at as int);
        let n: usize = section_at(&lines, at);
        let section = part_of(&lines, at, n);
        proof {
            lemma_section_len(rest);
            assert(section.deep_view()[0] == rest[0]);
            assert(rest[0] == lv[at as int]);
            assert(section.deep_view()[0] == section[0]@);
        }
        let ghost so_far = files.deep_view();
        match materialize_file(&section, blobs) {
            Ok(f) => {
                let ghost fv = f.deep_view();
                files.push(f);
                assert(files.deep_view() =~= so_far.push(fv));
                proof {
                    assert(rest.skip(n as int) =~= lv.skip(at + n));
                    if at + n < lines.len() {
                        assert(rest[n as int] == lv[at + n]);
                    }
                }
                at = at + n;
            },
            Err(e) => {
                assert(whole.files =~= files.deep_view());
                return Materialized { files, error: Some(e) };
            },
        }
    }
    assert(lv.skip(at as int) =~= seq![]);
    assert(whole.files =~= files.deep_view());
    Materialized { files, error: None }
}

/// The blob that a section starts from, where its headers are in order.
pub open spec fn wanted_by(section: Seq<Seq<char>>) -> Option<Seq<char>> {
    match section_header(section) {
        Ok((h, _)) => match base_identity(h) {
            Ok(oid) => oid,
            Err(_) => None,
        },
        Err(_) => None,
    }
}

pub open spec fn all_wanted(lines: Seq<Seq<char>>) -> Seq<Seq<char>>
    decreases lines.len(),
{
    if lines.len() == 0 {
        seq![]
    } else {
        proof {
            lemma_section_len(lines);
        }
        let n = section_len(lines);
        (match wanted_by(lines.take(n)) {
            Some(oid) => seq![oid],
            None => seq![],
        }) + all_wanted(lines.skip(n))
    }
}

/// The blobs that a patch starts from, in the order of its sections.
pub open spec fn wanted(diff: Seq<char>) -> Seq<Seq<char>> {
    let lines = rows(diff);
    if lines.len() == 0 || !opens_section(lines[0]) {
        seq![]
    } else {
        all_wanted(lines)
    }
}

/// The blobs that have to be read before a patch can be materialized.
pub fn wanted_blobs(diff: &str) -> (r: Vec<String>)
    ensures
        r.deep_view() == wanted(diff@),
{
    let mut out: Vec<String> = Vec::new();
    assert(out.deep_view() =~= seq![]);
    let lines = rows_of(diff);
    let ghost lv = lines.deep_view();
    if lines.len() == 0 || !begins(lines[0].as_str(), "diff --git ") {
        return out;
    }
    let mut at: usize = 0;
    assert(lv.skip(0) =~= lv);
    while at < lines.len()
        invariant
            at <= lines.len(),
            lv == lines.deep_view(),
            at < lines.len() ==> opens_section(lv[at as int]),
            all_wanted(lv) =~= out.deep_view() + all_wanted(lv.skip(at as int)),
            wanted(diff@) == all_wanted(lv),
        decreases lines.len() - at,
    {
        let ghost rest = lv.skip(at as int);
        let n: usize = section_at(&lines, at);
        let section = part_of(&lines, at, n);
        proof {
            lemma_section_len(rest);
            assert(section.deep_view()[0] == rest[0]);
            assert(rest[0] == lv[at as int]);
            assert(section.deep_view()[0] == section[0]@);
            assert(rest.skip(n as int) =~= lv.skip(at + n));
            if at + n < lines.len() {
                assert(rest[n as int] == lv[at + n]);
            }
        }
        let ghost so_far = out.deep_view();
        if let Ok((h, _)) = read_section_header(&section) {
            if let Ok(Some(oid)) = base_identity_of(&h) {
                let ghost o = oid@;
                out.push(oid);
                assert(out.deep_view() =~= so_far.push(o));
            }
        }
        at = at + n;
    }
    assert(lv.skip(at as int) =~= seq![]);
    assert(all_wanted(lv) =~= out.deep_view());
    out
}

// ---------------------------------------------------------------------------
// The identity of the new content
// ---------------------------------------------------------------------------

/// What hashing a file's new content gave: Git's answer, or why there is none.
pub open spec fn identity_holds(f: PendingView, hash: BlobView) -> Result<(), Seq<char>> {
    match f.expected {
        None => Ok(()),
        Some(oid) => match hash {
            BlobView::Failed(e) => Err(e),
            BlobView::Content(s) => if starts_with(trim(s), oid) {
                Ok(())
            } else {
                Err("reconstructed content does not match patch postimage identity"@)
            },
        },
    }
}

/// The changes of a patch, once every new content has the identity that the
/// patch gives it.
pub open spec fn confirmed(m: MaterializedView, hashes: Seq<BlobView>, i: int) -> Result<
    Seq<FileChangeView>,
    Seq<char>,
>
    decreases m.files.len() - i,
{
    if i < 0 || i >= m.files.len() {
        match m.error {
            Some(e) => Err(e),
            None => Ok(seq![]),
        }
    } else {
        match identity_holds(m.files[i], hashes[i]) {
            Err(e) => Err(e),
            Ok(_) => match confirmed(m, hashes, i + 1) {
                Err(e) => Err(e),
                Ok(rest) => Ok(seq![m.files[i].change] + rest),
            },
        }
    }
}

fn identity_matches(f: &Pending, hash: &Blob) -> (r: Result<(), String>)
    ensures
        match r {
            Ok(_) => identity_holds(f.deep_view(), hash.deep_view()) is Ok,
            Err(e) => identity_holds(f.deep_view(), hash.deep_view()) == Err::<(), Seq<char>>(e@),
        },
{
    match &f.expected {
        None => Ok(()),
        Some(oid) => match hash {
            Blob::Failed(e) => Err(owned(e.as_str())),
            Blob::Content(s) => if begins(trimmed(s.as_str()).as_str(), oid.as_str()) {
                Ok(())
            } else {
                Err(owned("reconstructed content does not match patch postimage identity"))
            },
        },
    }
}

impl FileChange {
    pub fn copy(&self) -> (r: FileChange)
        ensures
            r.deep_view() == self.deep_view(),
    {
        FileChange {
            before_path: crate::text::copied_option(&self.before_path),
            after_path: crate::text::copied_option(&self.after_path),
            before: owned(self.before.as_str()),
            after: owned(self.after.as_str()),
        }
    }
}

/// The changes of a patch, once every new content has the identity that the
/// patch gives it. `hashes` holds Git's answer for each reconstructed file.
pub fn confirm(m: &Materialized, hashes: &Vec<Blob>) -> (r: Result<Vec<FileChange>, String>)
    requires
        hashes.len() == m.files.len(),
    ensures
        outcome(r) == confirmed(m.deep_view(), hashes.deep_view(), 0),
{
    let ghost mv = m.deep_view();
    let ghost hv = hashes.deep_view();
    let ghost whole = confirmed(mv, hv, 0);
    let mut out: Vec<FileChange> = Vec::new();
    assert(out.deep_view() =~= seq![]);
    let mut i: usize = 0;
    proof {
        if whole is Ok {
            assert(seq![] + whole->Ok_0 =~= whole->Ok_0);
        }
    }
    while i < m.files.len()
        invariant
            i <= m.files.len(),
            hashes.len() == m.files.len(),
            mv == m.deep_view(),
            hv == hashes.deep_view(),
            whole == confirmed(mv, hv, 0),
            match confirmed(mv, hv, i as int) {
                Ok(rest) => whole is Ok && whole->Ok_0 =~= out.deep_view() + rest,
                Err(e) => whole == Err::<Seq<FileChangeView>, Seq<char>>(e),
            },
        decreases m.files.len() - i,
    {
        assert(mv.files[i as int] == m.files[i as int].deep_view());
        assert(hv[i as int] == hashes[i as int].deep_view());
        if let Err(e) = identity_matches(&m.files[i], &hashes[i]) {
            return Err(e);
        }
        let ghost so_far = out.deep_view();
        let ghost c = m.files[i as int].change.deep_view();
        out.push(m.files[i].change.copy());
        assert(out.deep_view() =~= so_far.push(c));
        i += 1;
    }
    if let Some(e) = &m.error {
        return Err(owned(e.as_str()));
    }
    assert(whole->Ok_0 =~= out.deep_view());
    Ok(out)
}

// ---------------------------------------------------------------------------
// Laws
// ---------------------------------------------------------------------------

/// A path that a patch may touch stays inside the repository: it is relative
/// and no segment of it leads up.
pub proof fn law_accepted_paths_stay_inside(value: Seq<char>, prefix: Seq<char>)
    ensures
        patch_path(value, prefix) matches Ok(Some(p)) ==> {
            &&& p.len() > 0
            &&& p[0] != '/'
            &&& !split(p, '/').contains(".."@)
        },
{
    if let Ok(Some(p)) = patch_path(value, prefix) {
        let parts = split(p, '/');
        if p[0] == '/' {
            crate::text::lemma_run(p, crate::text::CharClass::Not('/'));
            assert(crate::text::run(p, crate::text::CharClass::Not('/')) == 0);
            assert(parts[0] =~= seq![]);
            assert(is_bad_segment(parts[0]));
        }
        if parts.contains(".."@) {
            let i = choose|i: int| 0 <= i < parts.len() && parts[i] == ".."@;
            assert(is_bad_segment(parts[i]));
        }
    }
}

proof fn lemma_full_rows_whole(s: Seq<char>)
    ensures
        full_rows(s).flatten() == s,
    decreases s.len(),
{
    let n = crate::text::run(s, crate::text::CharClass::Not('\n')) as int;
    crate::text::lemma_run(s, crate::text::CharClass::Not('\n'));
    if n < s.len() {
        lemma_full_rows_whole(s.skip(n + 1));
        let rest = full_rows(s.skip(n + 1));
        let all = seq![s.take(n + 1)] + rest;
        assert(all.drop_first() =~= rest);
        assert(all.flatten() == s.take(n + 1) + rest.flatten());
        assert(s =~= s.take(n + 1) + s.skip(n + 1));
    } else if s.len() > 0 {
        assert(seq![s].drop_first() =~= Seq::<Seq<char>>::empty());
        assert(seq![s].flatten() =~= s + Seq::<Seq<char>>::empty().flatten());
        assert(seq![s].flatten() =~= s);
    } else {
        assert(full_rows(s).flatten() =~= s);
    }
}

/// A section without hunks leaves the content as it was.
pub proof fn law_no_hunks_no_change(section: Seq<Seq<char>>, before: Seq<char>)
    ensures
        rebuilt(section, full_rows(before), section.len() as int) matches Ok(output)
            && output.flatten() == before,
{
    lemma_full_rows_whole(before);
    let base = full_rows(before);
    assert(base.skip(0) =~= base);
    assert(Seq::<Seq<char>>::empty() + base =~= base);
}

/// One line of a hunk: kept, added or removed.
pub open spec fn is_edit(e: (char, Seq<char>)) -> bool {
    e.0 == ' ' || e.0 == '+' || e.0 == '-'
}

/// The lines that a hunk starts from.
pub open spec fn lines_taken(edits: Seq<(char, Seq<char>)>) -> Seq<Seq<char>>
    decreases edits.len(),
{
    if edits.len() == 0 {
        seq![]
    } else if edits[0].0 != '+' {
        seq![edits[0].1.push('\n')] + lines_taken(edits.skip(1))
    } else {
        lines_taken(edits.skip(1))
    }
}

/// The lines that a hunk leads to.
pub open spec fn lines_given(edits: Seq<(char, Seq<char>)>) -> Seq<Seq<char>>
    decreases edits.len(),
{
    if edits.len() == 0 {
        seq![]
    } else if edits[0].0 != '-' {
        seq![edits[0].1.push('\n')] + lines_given(edits.skip(1))
    } else {
        lines_given(edits.skip(1))
    }
}

/// The lines of a section from a place on are those of a hunk, all of which end
/// in a newline.
pub open spec fn spells_out(
    section: Seq<Seq<char>>,
    at: int,
    edits: Seq<(char, Seq<char>)>,
) -> bool {
    &&& 0 <= at
    &&& at + edits.len() <= section.len()
    &&& forall|j: int|
        0 <= j < edits.len() ==> is_edit(#[trigger] edits[j]) && section[at + j] == seq![edits[j].0]
            + edits[j].1
    &&& edits.len() > 0 ==> !no_newline_after(section, at + edits.len() - 1)
}

/// A hunk whose old lines stand in the base is applied without fail, and leads
/// to exactly its new lines.
pub proof fn law_hunks_lead_to_what_they_say(
    section: Seq<Seq<char>>,
    base: Seq<Seq<char>>,
    p: Progress,
    edits: Seq<(char, Seq<char>)>,
)
    requires
        spells_out(section, p.at, edits),
        0 <= p.cursor,
        p.cursor + lines_taken(edits).len() <= base.len(),
        base.subrange(p.cursor, p.cursor + lines_taken(edits).len()) == lines_taken(edits),
    ensures
        hunk_lines(section, base, p, lines_taken(edits).len(), lines_given(edits).len()) == Ok::<
            Progress,
            Seq<char>,
        >(
            Progress {
                at: p.at + edits.len(),
                cursor: p.cursor + lines_taken(edits).len(),
                output: p.output + lines_given(edits),
            },
        ),
    decreases edits.len(),
{
    let taken = lines_taken(edits);
    let given = lines_given(edits);
    if edits.len() == 0 {
        assert(p.output + given =~= p.output);
    } else {
        let e = edits[0];
        let rest = edits.skip(1);
        let line = section[p.at];
        assert(is_edit(edits[0]) && section[p.at + 0] == seq![e.0] + e.1);
        assert(line[0] == e.0);
        assert(line.skip(1) =~= e.1);
        let text = e.1.push('\n');
        assert(!no_newline_after(section, p.at)) by {
            if edits.len() > 1 {
                assert(is_edit(edits[1]));
                assert(section[p.at + 1] == seq![edits[1].0] + edits[1].1);
                reveal_strlit("\\ No newline at end of file");
                assert("\\ No newline at end of file"@[0] == '\\');
                assert(section[p.at + 1][0] == edits[1].0);
            }
        }
        let q = Progress {
            at: p.at + 1,
            cursor: if e.0 != '+' {
                p.cursor + 1
            } else {
                p.cursor
            },
            output: if e.0 != '-' {
                p.output.push(text)
            } else {
                p.output
            },
        };
        let rest_taken = lines_taken(rest);
        if e.0 != '+' {
            assert(taken[0] == text);
            assert(base.subrange(p.cursor, p.cursor + taken.len())[0] == base[p.cursor]);
            assert(base.subrange(q.cursor, q.cursor + rest_taken.len()) =~= base.subrange(
                p.cursor,
                p.cursor + taken.len(),
            ).skip(1));
            assert(taken.skip(1) =~= rest_taken);
        }
        assert(spells_out(section, q.at, rest)) by {
            assert forall|j: int| 0 <= j < rest.len() implies is_edit(#[trigger] rest[j])
                && section[q.at + j] == seq![rest[j].0] + rest[j].1 by {
                assert(rest[j] == edits[j + 1]);
                assert(section[p.at + (j + 1)] == seq![edits[j + 1].0] + edits[j + 1].1);
            }
        }
        law_hunks_lead_to_what_they_say(section, base, q, rest);
        assert(p.output + given =~= q.output + lines_given(rest));
    }
}

/// A section with one hunk puts its new lines in the place of its old ones and
/// leaves the rest of the file as it was.
pub proof fn law_one_hunk_replaces_its_lines(
    section: Seq<Seq<char>>,
    base: Seq<Seq<char>>,
    at: int,
    range: (nat, nat, nat, nat),
    edits: Seq<(char, Seq<char>)>,
    offset: int,
)
    requires
        hunk_header(section[at]) == Ok::<(nat, nat, nat, nat), Seq<char>>(range),
        spells_out(section, at + 1, edits),
        section.len() == at + 1 + edits.len(),
        0 <= at,
        range.1 == lines_taken(edits).len(),
        range.3 == lines_given(edits).len(),
        hunk_offset(range.0, range.1) == offset,
        hunk_offset(range.2, range.3) == offset,
        0 <= offset,
        offset + lines_taken(edits).len() <= base.len(),
        base.subrange(offset, offset + lines_taken(edits).len()) == lines_taken(edits),
    ensures
        rebuilt(section, base, at) == Ok::<Seq<Seq<char>>, Seq<char>>(
            base.take(offset) + lines_given(edits) + base.skip(offset + lines_taken(edits).len()),
        ),
{
    let start = Progress { at, cursor: 0, output: seq![] };
    let output = start.output + base.subrange(0, offset);
    assert(output =~= base.take(offset));
    let p = Progress { at: at + 1, cursor: offset, output };
    law_hunks_lead_to_what_they_say(section, base, p, edits);
    let q = one_hunk(section, base, start, range)->Ok_0;
    assert(all_hunks(section, base, q) == Ok::<Progress, Seq<char>>(q));
}

/// Every hunk takes exactly the base lines that it names and gives exactly as
/// many lines as it announces.
pub proof fn law_hunk_counts(
    section: Seq<Seq<char>>,
    base: Seq<Seq<char>>,
    p: Progress,
    old_left: nat,
    new_left: nat,
)
    requires
        0 <= p.cursor <= base.len(),
    ensures
        hunk_lines(section, base, p, old_left, new_left) matches Ok(q) ==> {
            &&& q.cursor == p.cursor + old_left
            &&& q.cursor <= base.len()
            &&& q.output.len() == p.output.len() + new_left
            &&& q.output.take(p.output.len() as int) == p.output
        },
    decreases section.len() - p.at,
{
    if old_left == 0 && new_left == 0 {
        assert(p.output.take(p.output.len() as int) =~= p.output);
    } else if 0 <= p.at < section.len() {
        let line = section[p.at];
        if line.len() > 0 && (line[0] == ' ' || line[0] == '+' || line[0] == '-') {
            let bare = no_newline_after(section, p.at);
            let text = if bare {
                line.skip(1)
            } else {
                line.skip(1).push('\n')
            };
            let takes = line[0] != '+';
            let gives = line[0] != '-';
            if takes && (old_left == 0 || p.cursor >= base.len() || base[p.cursor] != text) {
            } else if gives && new_left == 0 {
            } else {
                let q = Progress {
                    at: p.at + (if bare {
                        2int
                    } else {
                        1int
                    }),
                    cursor: if takes {
                        p.cursor + 1
                    } else {
                        p.cursor
                    },
                    output: if gives {
                        p.output.push(text)
                    } else {
                        p.output
                    },
                };
                let o: nat = if takes {
                    (old_left - 1) as nat
                } else {
                    old_left
                };
                let n: nat = if gives {
                    (new_left - 1) as nat
                } else {
                    new_left
                };
                law_hunk_counts(section, base, q, o, n);
                if let Ok(end) = hunk_lines(section, base, q, o, n) {
                    assert(end.output.take(p.output.len() as int) =~= end.output.take(
                        q.output.len() as int,
                    ).take(p.output.len() as int));
                    assert(q.output.take(p.output.len() as int) =~= p.output);
                }
            }
        }
    }
}

} // verus!
