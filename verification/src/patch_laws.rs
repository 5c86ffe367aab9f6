//! Which patches are understood, what they start from and what they lead to.
use vstd::prelude::*;
use crate::outside::{found, group};
use crate::patch::{
    all_files, all_wanted, base_text, confirmed, digits_value, finished, header_line, header_lines,
    hunk_header, hunk_lines, hunk_offset, index_line, is_digits, is_null_oid, is_oid, is_safe_path,
    lemma_section_len, materialized, no_newline_after, one_file, one_hunk, opening_line,
    opens_section, patch_path, section_header, section_len, size_value, wanted, wanted_by, HUNK,
    BlobView, HeaderView, MaterializedView, Progress,
};
use crate::table::lookup;
use crate::text::{
    ends_with, is_space, rows, split, split_once, starts_with, strip_prefix, trim, words,
};

verus! {

proof fn lemma_prefixed(p: Seq<char>, rest: Seq<char>)
    ensures
        starts_with(p + rest, p),
        strip_prefix(p + rest, p) == Some(rest),
{
    assert((p + rest).take(p.len() as int) =~= p);
    assert((p + rest).skip(p.len() as int) =~= rest);
}

proof fn lemma_not_prefixed(line: Seq<char>, p: Seq<char>, i: int)
    requires
        0 <= i < line.len(),
        i < p.len(),
        line[i] != p[i],
    ensures
        !starts_with(line, p),
        strip_prefix(line, p) is None,
{
    if starts_with(line, p) {
        assert(line.take(p.len() as int)[i] == line[i]);
    }
}

// ---------------------------------------------------------------------------
// Paths and identities
// ---------------------------------------------------------------------------

/// A path is safe exactly where it is not empty, has no white space, backslash,
/// quote or null character in it, and each of its segments names something.
pub proof fn law_which_paths_are_safe(p: Seq<char>)
    ensures
        is_safe_path(p) <==> {
            &&& p.len() > 0
            &&& forall|i: int|
                0 <= i < p.len() ==> !is_space(#[trigger] p[i]) && p[i] != '\\' && p[i] != '"'
                    && p[i] != '\0'
            &&& !split(p, '/').contains(""@)
            &&& !split(p, '/').contains("."@)
            &&& !split(p, '/').contains(".."@)
        },
{
    reveal_strlit("");
    let parts = split(p, '/');
    assert(""@.len() == 0);
    if is_safe_path(p) {
        if parts.contains(""@) || parts.contains("."@) || parts.contains(".."@) {
            let i = choose|i: int|
                0 <= i < parts.len() && (parts[i] == ""@ || parts[i] == "."@ || parts[i] == ".."@);
            assert(crate::patch::is_bad_segment(parts[i]));
        }
        assert forall|i: int| 0 <= i < p.len() implies !is_space(#[trigger] p[i]) && p[i] != '\\'
            && p[i] != '"' && p[i] != '\0' by {
            assert(!crate::patch::is_bad_path_char(p[i]));
        }
    } else if p.len() > 0 && (forall|i: int|
        0 <= i < p.len() ==> !is_space(#[trigger] p[i]) && p[i] != '\\' && p[i] != '"' && p[i]
            != '\0') {
        assert forall|i: int| 0 <= i < p.len() implies !crate::patch::is_bad_path_char(
            #[trigger] p[i],
        ) by {}
        let i = choose|i: int|
            0 <= i < parts.len() && crate::patch::is_bad_segment(#[trigger] parts[i]);
        if parts[i].len() == 0 {
            assert(parts[i] =~= ""@);
        }
        assert(parts.contains(parts[i]));
    }
}

/// A header names no path by `/dev/null`, a path behind its prefix where that is
/// safe, and is refused otherwise.
pub proof fn law_what_a_path_header_names(prefix: Seq<char>, p: Seq<char>, value: Seq<char>)
    ensures
        patch_path("/dev/null"@, prefix) == Ok::<Option<Seq<char>>, Seq<char>>(None),
        prefix + p != "/dev/null"@ && is_safe_path(p) ==> patch_path(prefix + p, prefix) == Ok::<
            Option<Seq<char>>,
            Seq<char>,
        >(Some(p)),
        prefix + p != "/dev/null"@ && !is_safe_path(p) ==> patch_path(prefix + p, prefix) is Err,
        value != "/dev/null"@ && !prefix.is_prefix_of(value) ==> patch_path(value, prefix) is Err,
{
    lemma_prefixed(prefix, p);
    if starts_with(value, prefix) {
        assert(value.subrange(0, prefix.len() as int) =~= value.take(prefix.len() as int));
    }
}

/// An object is named by four to sixty-four hexadecimal digits, and no object by
/// noughts.
pub proof fn law_how_objects_are_named(s: Seq<char>)
    ensures
        is_oid(s) <==> 4 <= s.len() <= 64 && forall|i: int|
            0 <= i < s.len() ==> ('0' <= #[trigger] s[i] <= '9') || ('a' <= s[i] <= 'f') || ('A'
                <= s[i] <= 'F'),
        is_null_oid(s) <==> forall|i: int| 0 <= i < s.len() ==> #[trigger] s[i] == '0',
{
    if is_oid(s) {
        assert forall|i: int| 0 <= i < s.len() implies ('0' <= #[trigger] s[i] <= '9') || ('a'
            <= s[i] <= 'f') || ('A' <= s[i] <= 'F') by {
            assert(crate::patch::is_hex_char(s[i]));
        }
    } else if 4 <= s.len() <= 64 {
        let i = choose|i: int| 0 <= i < s.len() && !crate::patch::is_hex_char(#[trigger] s[i]);
        assert(!('0' <= s[i] <= '9'));
    }
}

/// The line with the identities gives both, of ordinary files only.
pub proof fn law_what_an_index_line_gives(ids: Seq<char>, a: Seq<char>, b: Seq<char>)
    ensures
        index_line(ids) == Ok::<(Seq<char>, Seq<char>), Seq<char>>((a, b)) <==> {
            &&& words(ids).len() > 0
            &&& split_once(words(ids)[0], ".."@) == Some((a, b))
            &&& is_oid(a) && is_oid(b)
            &&& words(ids).len() > 1 ==> words(ids)[1] == "100644"@ || words(ids)[1] == "100755"@
        },
{
}

// ---------------------------------------------------------------------------
// Headers
// ---------------------------------------------------------------------------

/// The old and the new path may each be named once.
pub proof fn law_paths_are_named_once(h: HeaderView, p: Seq<char>)
    requires
        is_safe_path(p),
    ensures
        !h.saw_before ==> header_line(h, "--- a/"@ + p) == Ok::<HeaderView, Seq<char>>(
            HeaderView { before_path: Some(p), saw_before: true, ..h },
        ),
        !h.saw_before ==> header_line(h, "--- /dev/null"@) == Ok::<HeaderView, Seq<char>>(
            HeaderView { before_path: None, saw_before: true, ..h },
        ),
        h.saw_before ==> header_line(h, "--- a/"@ + p) is Err,
        !h.saw_after ==> header_line(h, "+++ b/"@ + p) == Ok::<HeaderView, Seq<char>>(
            HeaderView { after_path: Some(p), saw_after: true, ..h },
        ),
        !h.saw_after ==> header_line(h, "+++ /dev/null"@) == Ok::<HeaderView, Seq<char>>(
            HeaderView { after_path: None, saw_after: true, ..h },
        ),
        h.saw_after ==> header_line(h, "+++ b/"@ + p) is Err,
{
    reveal_strlit("index ");
    reveal_strlit("--- ");
    reveal_strlit("+++ ");
    reveal_strlit("--- a/");
    reveal_strlit("+++ b/");
    reveal_strlit("--- /dev/null");
    reveal_strlit("+++ /dev/null");
    reveal_strlit("/dev/null");
    reveal_strlit("a/");
    reveal_strlit("b/");
    let old_line = "--- a/"@ + p;
    let new_line = "+++ b/"@ + p;
    assert(old_line =~= "--- "@ + ("a/"@ + p));
    assert(new_line =~= "+++ "@ + ("b/"@ + p));
    assert("--- /dev/null"@ =~= "--- "@ + "/dev/null"@);
    assert("+++ /dev/null"@ =~= "+++ "@ + "/dev/null"@);
    lemma_prefixed("--- "@, "a/"@ + p);
    lemma_prefixed("+++ "@, "b/"@ + p);
    lemma_prefixed("--- "@, "/dev/null"@);
    lemma_prefixed("+++ "@, "/dev/null"@);
    lemma_not_prefixed(old_line, "index "@, 0);
    lemma_not_prefixed(new_line, "index "@, 0);
    lemma_not_prefixed("--- /dev/null"@, "index "@, 0);
    lemma_not_prefixed("+++ /dev/null"@, "index "@, 0);
    lemma_not_prefixed(new_line, "--- "@, 0);
    lemma_not_prefixed("+++ /dev/null"@, "--- "@, 0);
    assert(("a/"@ + p)[0] == 'a' && "/dev/null"@[0] == '/');
    assert(("b/"@ + p)[0] == 'b');
    law_what_a_path_header_names("a/"@, p, p);
    law_what_a_path_header_names("b/"@, p, p);
}

/// Identities may be given once, and are those of the line.
pub proof fn law_identities_are_given_once(h: HeaderView, ids: Seq<char>)
    ensures
        h.old_oid is Some ==> header_line(h, "index "@ + ids) is Err,
        h.old_oid is None ==> (index_line(ids) matches Ok(p) ==> header_line(h, "index "@ + ids)
            == Ok::<HeaderView, Seq<char>>(
            HeaderView { old_oid: Some(p.0), new_oid: Some(p.1), ..h },
        )),
        index_line(ids) is Err ==> header_line(h, "index "@ + ids) is Err,
{
    lemma_prefixed("index "@, ids);
}

proof fn lemma_mode_words()
    ensures
        "new file mode "@.len() == 14 && "new file mode "@[0] == 'n' && "new file mode "@[4] == 'f',
        "deleted file mode "@.len() == 18 && "deleted file mode "@[0] == 'd',
        "old mode "@.len() == 9 && "old mode "@[0] == 'o',
        "new mode "@.len() == 9 && "new mode "@[0] == 'n' && "new mode "@[4] == 'm',
        "similarity index "@.len() == 17 && "similarity index "@[0] == 's',
        "rename from "@.len() == 12 && "rename from "@[0] == 'r',
        "rename to "@.len() == 10 && "rename to "@[0] == 'r',
        "index "@.len() == 6 && "index "@[0] == 'i',
        "--- "@.len() == 4 && "--- "@[0] == '-',
        "+++ "@.len() == 4 && "+++ "@[0] == '+',
{
    reveal_strlit("new file mode ");
    reveal_strlit("deleted file mode ");
    reveal_strlit("old mode ");
    reveal_strlit("new mode ");
    reveal_strlit("similarity index ");
    reveal_strlit("rename from ");
    reveal_strlit("rename to ");
    reveal_strlit("index ");
    reveal_strlit("--- ");
    reveal_strlit("+++ ");
}

proof fn lemma_other_header(line: Seq<char>)
    requires
        line.len() > 4,
        seq!['n', 'd', 'o', 's', 'r'].contains(line[0]),
    ensures
        strip_prefix(line, "index "@) is None,
        strip_prefix(line, "--- "@) is None,
        strip_prefix(line, "+++ "@) is None,
        line[0] != 'n' || line[4] != 'f' ==> strip_prefix(line, "new file mode "@) is None,
        line[0] != 'd' ==> strip_prefix(line, "deleted file mode "@) is None,
        line[0] != 'o' ==> !starts_with(line, "old mode "@),
        line[0] != 'n' || line[4] != 'm' ==> !starts_with(line, "new mode "@),
{
    lemma_mode_words();
    let c = seq!['n', 'd', 'o', 's', 'r'];
    assert(c[0] == 'n' && c[1] == 'd' && c[2] == 'o' && c[3] == 's' && c[4] == 'r');
    lemma_not_prefixed(line, "index "@, 0);
    lemma_not_prefixed(line, "--- "@, 0);
    lemma_not_prefixed(line, "+++ "@, 0);
    if line[0] != 'n' {
        lemma_not_prefixed(line, "new file mode "@, 0);
        lemma_not_prefixed(line, "new mode "@, 0);
    }
    if line[4] != 'f' {
        lemma_not_prefixed(line, "new file mode "@, 4);
    }
    if line[4] != 'm' {
        lemma_not_prefixed(line, "new mode "@, 4);
    }
    if line[0] != 'd' {
        lemma_not_prefixed(line, "deleted file mode "@, 0);
    }
    if line[0] != 'o' {
        lemma_not_prefixed(line, "old mode "@, 0);
    }
}

/// A file that is new had no path before, one that is deleted has none after, and
/// either is an ordinary file; a change of mode is refused, and the words of a
/// rename say nothing of their own.
pub proof fn law_what_modes_say(h: HeaderView, m: Seq<char>)
    ensures
        m == "100644"@ || m == "100755"@ ==> header_line(h, "new file mode "@ + m) == Ok::<
            HeaderView,
            Seq<char>,
        >(HeaderView { before_path: None, ..h }) && header_line(h, "deleted file mode "@ + m) == Ok::<
            HeaderView,
            Seq<char>,
        >(HeaderView { after_path: None, ..h }),
        m != "100644"@ && m != "100755"@ ==> header_line(h, "new file mode "@ + m) is Err
            && header_line(h, "deleted file mode "@ + m) is Err,
        header_line(h, "old mode "@ + m) is Err,
        header_line(h, "new mode "@ + m) is Err,
        header_line(h, "similarity index "@ + m) == Ok::<HeaderView, Seq<char>>(h),
        header_line(h, "rename from "@ + m) == Ok::<HeaderView, Seq<char>>(h),
        header_line(h, "rename to "@ + m) == Ok::<HeaderView, Seq<char>>(h),
{
    lemma_mode_words();
    let c = seq!['n', 'd', 'o', 's', 'r'];
    assert(c[0] == 'n' && c[1] == 'd' && c[2] == 'o' && c[3] == 's' && c[4] == 'r');
    lemma_prefixed("new file mode "@, m);
    lemma_prefixed("deleted file mode "@, m);
    lemma_prefixed("old mode "@, m);
    lemma_prefixed("new mode "@, m);
    lemma_prefixed("similarity index "@, m);
    lemma_prefixed("rename from "@, m);
    lemma_prefixed("rename to "@, m);
    lemma_other_header("new file mode "@ + m);
    lemma_other_header("deleted file mode "@ + m);
    lemma_other_header("old mode "@ + m);
    lemma_other_header("new mode "@ + m);
    lemma_other_header("similarity index "@ + m);
    lemma_other_header("rename from "@ + m);
    lemma_other_header("rename to "@ + m);
}

/// A header line that none of these words begins is refused.
pub proof fn law_unknown_headers_are_refused(h: HeaderView, line: Seq<char>)
    requires
        !starts_with(line, "index "@),
        !starts_with(line, "--- "@),
        !starts_with(line, "+++ "@),
        !starts_with(line, "new file mode "@),
        !starts_with(line, "deleted file mode "@),
        !starts_with(line, "similarity index "@),
        !starts_with(line, "rename from "@),
        !starts_with(line, "rename to "@),
    ensures
        header_line(h, line) is Err,
{
}

/// The headers of a section name the paths that its first line names, unless they
/// name none, and a section with hunks names both.
pub proof fn law_headers_agree(section: Seq<Seq<char>>)
    ensures
        section_header(section) matches Ok((h, at)) ==> {
            &&& opening_line(section[0]) matches Ok(first) && (h.before_path is Some ==> h.before_path
                == first.before_path) && (h.after_path is Some ==> h.after_path == first.after_path)
            &&& at < section.len() ==> h.saw_before && h.saw_after
        },
        opening_line(section[0]) is Err ==> section_header(section) is Err,
        opening_line(section[0]) matches Ok(first) && header_lines(section, 1, first) matches Ok(
            (h, at),
        ) && (h.before_path == first.before_path || h.before_path is None) && (h.after_path
            == first.after_path || h.after_path is None) && (at >= section.len() || (h.saw_before
            && h.saw_after)) ==> section_header(section) == Ok::<(HeaderView, int), Seq<char>>(
            (header_lines(section, 1, opening_line(section[0])->Ok_0)->Ok_0.0, header_lines(
                section,
                1,
                opening_line(section[0])->Ok_0,
            )->Ok_0.1),
        ),
{
}

/// Headers are read up to the first hunk, one by one.
pub proof fn law_headers_are_read_up_to_the_hunks(section: Seq<Seq<char>>, i: int, h: HeaderView)
    requires
        0 <= i < section.len(),
    ensures
        "@@ "@.is_prefix_of(section[i]) ==> header_lines(section, i, h) == Ok::<
            (HeaderView, int),
            Seq<char>,
        >((h, i)),
        !"@@ "@.is_prefix_of(section[i]) ==> match header_line(h, section[i]) {
            Ok(g) => header_lines(section, i, h) == header_lines(section, i + 1, g),
            Err(_) => header_lines(section, i, h) is Err,
        },
        header_lines(section, section.len() as int, h) == Ok::<(HeaderView, int), Seq<char>>(
            (h, section.len() as int),
        ),
{
    if "@@ "@.len() <= section[i].len() {
        assert(section[i].take("@@ "@.len() as int) =~= section[i].subrange(
            0,
            "@@ "@.len() as int,
        ));
    }
}

// ---------------------------------------------------------------------------
// Hunks
// ---------------------------------------------------------------------------

/// The numbers of a hunk are those that its header writes; a count that it leaves
/// out is one.
pub proof fn law_counts_left_out_are_one(line: Seq<char>)
    ensures
        hunk_header(line) matches Ok(r) ==> {
            let m = found(HUNK@, line)[0];
            &&& group(m, 1) matches Some(t) ==> digits_value(t) == r.0
            &&& group(m, 2) is None ==> r.1 == 1
            &&& group(m, 2) matches Some(t) ==> digits_value(t) == r.1
            &&& group(m, 3) matches Some(t) ==> digits_value(t) == r.2
            &&& group(m, 4) is None ==> r.3 == 1
            &&& group(m, 4) matches Some(t) ==> digits_value(t) == r.3
        },
        found(HUNK@, line).len() == 0 ==> hunk_header(line) is Err,
{
}

/// Digits write the number that they write: each is worth ten of the next.
pub proof fn law_what_digits_write(s: Seq<char>, c: char)
    requires
        '0' <= c <= '9',
    ensures
        digits_value(s.push(c)) == digits_value(s) * 10 + (c as int - '0' as int),
        digits_value(seq![]) == 0,
        size_value(s) is Some ==> s.len() > 0 && size_value(s) == Some(digits_value(s)),
        is_digits(s) ==> forall|i: int| 0 <= i < s.len() ==> '0' <= #[trigger] s[i] <= '9',
{
    assert(s.push(c).drop_last() =~= s);
    if is_digits(s) {
        assert forall|i: int| 0 <= i < s.len() implies '0' <= #[trigger] s[i] <= '9' by {
            assert(crate::text::is_digit(s[i]));
        }
    }
}

/// A hunk starts at the line that it names, counted from one; one that takes no
/// lines starts behind the line that it names. It starts behind the hunk before
/// it and within the base, the lines between are kept, and its new lines stand
/// where it says.
pub proof fn law_where_a_hunk_starts(
    section: Seq<Seq<char>>,
    base: Seq<Seq<char>>,
    p: Progress,
    range: (nat, nat, nat, nat),
)
    requires
        0 <= p.cursor <= base.len(),
        one_hunk(section, base, p, range) is Ok,
    ensures
        ({
            let from = if range.1 > 0 {
                range.0 - 1
            } else {
                range.0 as int
            };
            let to = if range.3 > 0 {
                range.2 - 1
            } else {
                range.2 as int
            };
            let q = one_hunk(section, base, p, range)->Ok_0;
            &&& p.cursor <= from <= base.len()
            &&& p.output.len() + (from - p.cursor) == to
            &&& q.cursor == from + range.1
            &&& q.output.len() == to + range.3
            &&& q.output.take(to) == p.output + base.subrange(p.cursor, from)
        }),
{
    let from = hunk_offset(range.0, range.1);
    let output = p.output + base.subrange(p.cursor, from);
    crate::patch::law_hunk_counts(
        section,
        base,
        Progress { at: p.at + 1, cursor: from, output },
        range.1,
        range.3,
    );
}

/// A hunk that does not fit is refused: where a line that it keeps or removes is
/// not the next line of the base, where its lines run out, and where it holds a
/// line that is none of the three kinds.
pub proof fn law_hunks_that_do_not_fit_are_refused(
    section: Seq<Seq<char>>,
    base: Seq<Seq<char>>,
    p: Progress,
    old_left: nat,
    new_left: nat,
)
    requires
        0 <= p.at,
        0 <= p.cursor,
        old_left > 0 || new_left > 0,
    ensures
        p.at >= section.len() ==> hunk_lines(section, base, p, old_left, new_left) is Err,
        p.at < section.len() ==> {
            let line = section[p.at];
            let text = if p.at + 1 < section.len() && section[p.at + 1]
                == "\\ No newline at end of file"@ {
                line.skip(1)
            } else {
                line.skip(1).push('\n')
            };
            &&& line.len() == 0 ==> hunk_lines(section, base, p, old_left, new_left) is Err
            &&& line.len() > 0 && !(line[0] == ' ' || line[0] == '+' || line[0] == '-')
                ==> hunk_lines(section, base, p, old_left, new_left) is Err
            &&& line.len() > 0 && (line[0] == ' ' || line[0] == '-') && (old_left == 0 || p.cursor
                >= base.len() || base[p.cursor] != text) ==> hunk_lines(
                section,
                base,
                p,
                old_left,
                new_left,
            ) is Err
            &&& line.len() > 0 && (line[0] == ' ' || line[0] == '+') && new_left == 0 ==> hunk_lines(
                section,
                base,
                p,
                old_left,
                new_left,
            ) is Err
        },
{
}

/// A line without a line feed is marked so by the line behind it, which is no
/// line of the hunk.
pub proof fn law_bare_lines_are_marked(
    section: Seq<Seq<char>>,
    base: Seq<Seq<char>>,
    p: Progress,
    text: Seq<char>,
)
    requires
        0 <= p.at,
        p.at + 1 < section.len(),
        section[p.at] == seq!['+'] + text,
        section[p.at + 1] == "\\ No newline at end of file"@,
    ensures
        hunk_lines(section, base, p, 0, 1) == Ok::<Progress, Seq<char>>(
            Progress { at: p.at + 2, cursor: p.cursor, output: p.output.push(text) },
        ),
{
    assert(section[p.at].skip(1) =~= text);
    assert(section[p.at][0] == '+');
    assert(no_newline_after(section, p.at));
    reveal_with_fuel(hunk_lines, 2);
}

// ---------------------------------------------------------------------------
// Files
// ---------------------------------------------------------------------------

/// A new file starts from nothing and names no object; any other starts from the
/// object that it names, which must be at hand and be text.
pub proof fn law_what_a_file_starts_from(blobs: Seq<(Seq<char>, BlobView)>, h: HeaderView)
    ensures
        h.before_path is None && (h.old_oid is None || is_null_oid(h.old_oid->0)) ==> base_text(
            blobs,
            h,
        ) == Ok::<Seq<char>, Seq<char>>(seq![]),
        h.before_path is None && h.old_oid is Some && !is_null_oid(h.old_oid->0) ==> base_text(
            blobs,
            h,
        ) is Err,
        h.before_path is Some && h.old_oid is None ==> base_text(blobs, h) is Err,
        h.before_path is Some ==> (h.old_oid matches Some(oid) ==> match lookup(blobs, oid) {
            Some(BlobView::Content(s)) => if s.contains('\0') {
                base_text(blobs, h) is Err
            } else {
                base_text(blobs, h) == Ok::<Seq<char>, Seq<char>>(s)
            },
            Some(BlobView::Failed(e)) => base_text(blobs, h) == Err::<Seq<char>, Seq<char>>(e),
            None => base_text(blobs, h) is Err,
        }),
{
}

/// A section leads to its new text exactly where only the last line lacks its line
/// feed, the text holds no null character, a deleted file leaves nothing behind,
/// and a modified one names what it leads to. That name is what the text must
/// have.
pub proof fn law_what_a_file_leads_to(h: HeaderView, before: Seq<char>, output: Seq<Seq<char>>)
    ensures
        finished(h, before, output) is Ok <==> {
            &&& forall|i: int| 0 <= i < output.len() - 1 ==> ends_with(#[trigger] output[i], "\n"@)
            &&& !output.flatten().contains('\0')
            &&& h.after_path is None ==> output.flatten().len() == 0 && (h.new_oid matches Some(oid)
                ==> is_null_oid(oid))
            &&& h.before_path is Some && h.after_path is Some ==> h.new_oid is Some
        },
        finished(h, before, output) matches Ok(f) ==> {
            &&& f.change.before_path == h.before_path && f.change.after_path == h.after_path
            &&& f.change.before == before && f.change.after == output.flatten()
            &&& h.before_path is Some && h.after_path is Some ==> f.expected == h.new_oid
            &&& h.before_path is None || h.after_path is None ==> f.expected is None
        },
{
}

/// A section reaches from the line that opens it to the next that opens one.
pub proof fn law_where_a_section_ends(lines: Seq<Seq<char>>)
    requires
        lines.len() > 0,
    ensures
        1 <= section_len(lines) <= lines.len(),
        forall|i: int|
            1 <= i < section_len(lines) ==> !starts_with(#[trigger] lines[i], "diff --git "@),
        section_len(lines) < lines.len() ==> starts_with(lines[section_len(lines)], "diff --git "@),
    decreases lines.len(),
{
    if lines.len() > 1 && !opens_section(lines[1]) {
        let rest = lines.skip(1);
        law_where_a_section_ends(rest);
        assert(rest[section_len(rest)] == lines[section_len(rest) + 1] || section_len(rest)
            >= rest.len());
        assert forall|i: int| 1 <= i < section_len(lines) implies !starts_with(
            #[trigger] lines[i],
            "diff --git "@,
        ) by {
            if i > 1 {
                assert(rest[i - 1] == lines[i]);
            }
        }
    }
}

/// A blank patch changes nothing, and a text that opens no section is an error.
pub proof fn law_what_is_no_patch(diff: Seq<char>, blobs: Seq<(Seq<char>, BlobView)>)
    ensures
        trim(diff).len() == 0 ==> materialized(diff, blobs) == (MaterializedView {
            files: seq![],
            error: None,
        }),
        trim(diff).len() > 0 && rows(diff).len() > 0 && !"diff --git "@.is_prefix_of(rows(diff)[0])
            ==> materialized(diff, blobs).files.len() == 0 && materialized(diff, blobs).error
            is Some,
        trim(diff).len() > 0 && rows(diff).len() > 0 && "diff --git "@.is_prefix_of(rows(diff)[0])
            ==> materialized(diff, blobs) == all_files(rows(diff), blobs),
{
    if rows(diff).len() > 0 && "diff --git "@.len() <= rows(diff)[0].len() {
        assert(rows(diff)[0].take("diff --git "@.len() as int) =~= rows(diff)[0].subrange(
            0,
            "diff --git "@.len() as int,
        ));
    }
}

/// A patch is taken section by section, up to the first that is in error.
pub proof fn law_sections_are_taken_in_order(
    lines: Seq<Seq<char>>,
    blobs: Seq<(Seq<char>, BlobView)>,
)
    requires
        lines.len() > 0,
    ensures
        ({
            let n = section_len(lines);
            let all = all_files(lines, blobs);
            match one_file(lines.take(n), blobs) {
                Ok(f) => all.files.len() > 0 && all.files[0] == f && all.files.skip(1) == all_files(
                    lines.skip(n),
                    blobs,
                ).files && all.error == all_files(lines.skip(n), blobs).error,
                Err(e) => all.files.len() == 0 && all.error == Some(e),
            }
        }),
{
    lemma_section_len(lines);
    let n = section_len(lines);
    if let Ok(f) = one_file(lines.take(n), blobs) {
        assert(all_files(lines, blobs).files.skip(1) =~= all_files(lines.skip(n), blobs).files);
    }
}

/// What has to be fetched for a patch is the object that each section starts
/// from, where it starts from one.
pub proof fn law_what_has_to_be_fetched(section: Seq<Seq<char>>, oid: Seq<char>)
    ensures
        wanted_by(section) == Some(oid) <==> (section_header(section) matches Ok((h, at))
            && h.before_path is Some && h.old_oid == Some(oid)),
{
}

/// Every section's object is asked for.
pub proof fn law_every_section_is_asked_for(lines: Seq<Seq<char>>)
    requires
        lines.len() > 0,
    ensures
        ({
            let n = section_len(lines);
            let rest = all_wanted(lines.skip(n));
            match wanted_by(lines.take(n)) {
                Some(oid) => all_wanted(lines) == seq![oid] + rest,
                None => all_wanted(lines) == rest,
            }
        }),
        forall|diff: Seq<char>|
            rows(diff) == lines && starts_with(lines[0], "diff --git "@) ==> #[trigger] wanted(diff)
                == all_wanted(lines),
{
    lemma_section_len(lines);
    let n = section_len(lines);
    let rest = all_wanted(lines.skip(n));
    if wanted_by(lines.take(n)) is None {
        assert(all_wanted(lines) =~= rest);
    }
}

/// A patch counts only where nothing in it was in error and every new content has
/// the identity that the patch gives it; then it counts whole.
pub proof fn law_only_confirmed_patches_count(m: MaterializedView, hashes: Seq<BlobView>, i: int)
    requires
        0 <= i <= m.files.len(),
    ensures
        confirmed(m, hashes, i) is Ok <==> m.error is None && forall|k: int|
            i <= k < m.files.len() ==> ((#[trigger] m.files[k]).expected matches Some(oid) ==> (
            hashes[k] matches BlobView::Content(s) && starts_with(trim(s), oid))),
        confirmed(m, hashes, i) matches Ok(list) ==> list.len() == m.files.len() - i && forall|k: int|
            i <= k < m.files.len() ==> list[k - i] == (#[trigger] m.files[k]).change,
    decreases m.files.len() - i,
{
    if i < m.files.len() {
        law_only_confirmed_patches_count(m, hashes, i + 1);
        if let Ok(list) = confirmed(m, hashes, i) {
            let rest = confirmed(m, hashes, i + 1)->Ok_0;
            assert forall|k: int| i <= k < m.files.len() implies list[k - i]
                == (#[trigger] m.files[k]).change by {
                if k > i {
                    assert(list[k - i] == rest[k - i - 1]);
                }
            }
        }
    }
}

} // verus!
