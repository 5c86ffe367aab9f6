//! What holds of the ground that everything stands on: texts, numbers, paths, the
//! root of a repository and a sound index.
use vstd::prelude::*;
use crate::answer_laws::lemma_filtered_from;
use crate::invariants::{each_dangling, each_ghost, each_stale_alias, violations};
use crate::laws::{active_count, categories, law_in, LawView};
use crate::model::{ConceptView, DecisionView, IndexView};
use crate::numbers::{signed_value, unsigned_value};
use crate::ownership::seen_so_far;
use crate::patch::digits_value;
use crate::paths::{base_name, below, extension, stem};
use crate::query::lemma_kept_by_filter_map;
use crate::register::{
    each_enabled, is_looked_at, language_gap, line_gaps, missing_tiers, newest, usage_gap,
    DomainLineView,
};
use crate::root::{is_anchored, nearest, root_above, scope_note, LevelView};
use crate::shape::{is_prose, shaped, without_prose};
use crate::survey::each_dead;
use crate::table::{has_key, lemma_put, lookup, ordered};
use crate::text::{
    ascii_lower, back_run, before, contains, decimal, decimal_int, is_alnum, is_digit, is_lower,
    is_space, is_upper, join, lemma_back_run, lemma_run, lemma_trim, lines, rows, run, split, trim,
    words, CharClass,
};
use crate::tree::{field, text_field, TreeView};

verus! {

// ---------------------------------------------------------------------------
// Texts
// ---------------------------------------------------------------------------

/// What counts as white space, as a digit and as a letter.
pub proof fn law_classes_of_characters(c: char)
    ensures
        c == ' ' || c == '\t' || c == '\n' || c == '\r' ==> is_space(c),
        c == '\u{b}' || c == '\u{c}' || c == '\u{85}' || c == '\u{a0}' || c == '\u{1680}' || c
            == '\u{2028}' || c == '\u{2029}' || c == '\u{202f}' || c == '\u{205f}' || c == '\u{3000}'
            ==> is_space(c),
        '\u{2000}' <= c <= '\u{200a}' ==> is_space(c),
        '!' <= c <= '~' ==> !is_space(c),
        c == '\u{200b}' || c == '\u{feff}' ==> !is_space(c),
        is_digit(c) <==> '0' <= c <= '9',
        is_upper(c) <==> 'A' <= c <= 'Z',
        is_lower(c) <==> 'a' <= c <= 'z',
        is_alnum(c) <==> ('0' <= c <= '9') || ('A' <= c <= 'Z') || ('a' <= c <= 'z'),
{
}

/// Trimming a text takes white space from its ends and nothing else: what is left
/// neither begins nor ends in white space, and stood in the text without a break.
pub proof fn law_trimming_takes_the_ends(s: Seq<char>)
    ensures
        trim(s).len() > 0 ==> !is_space(trim(s)[0]) && !is_space(trim(s).last()),
        exists|a: Seq<char>, b: Seq<char>| #[trigger]
            (a + trim(s) + b) == s && (forall|i: int|
                0 <= i < a.len() ==> is_space(#[trigger] a[i])) && (forall|i: int|
                0 <= i < b.len() ==> is_space(#[trigger] b[i])),
{
    lemma_trim(s);
    let from = run(s, CharClass::Space) as int;
    let n = trim(s).len();
    let a = s.take(from);
    let b = s.skip(from + n);
    assert(a + trim(s) + b =~= s);
    assert forall|i: int| 0 <= i < a.len() implies is_space(#[trigger] a[i]) by {
        assert(a[i] == s[i]);
    }
    assert forall|i: int| 0 <= i < b.len() implies is_space(#[trigger] b[i]) by {
        assert(b[i] == s[from + n + i]);
    }
}

proof fn lemma_joined_again(part: Seq<char>, rest: Seq<Seq<char>>, sep: Seq<char>)
    requires
        rest.len() > 0,
    ensures
        join(seq![part] + rest, sep) == part + sep + join(rest, sep),
    decreases rest.len(),
{
    let all = seq![part] + rest;
    if rest.len() == 1 {
        assert(all.drop_last() =~= seq![part]);
        reveal_with_fuel(join, 2);
    } else {
        assert(all.drop_last() =~= seq![part] + rest.drop_last());
        lemma_joined_again(part, rest.drop_last(), sep);
        assert(join(all, sep) =~= part + sep + join(rest, sep));
    }
}

/// Splitting loses nothing: with the separator between them the parts make the
/// text, and no part holds it.
pub proof fn law_splitting_loses_nothing(s: Seq<char>, sep: char)
    ensures
        split(s, sep).len() > 0,
        join(split(s, sep), seq![sep]) == s,
        forall|i: int| 0 <= i < split(s, sep).len() ==> !(#[trigger] split(s, sep)[i]).contains(sep),
    decreases s.len(),
{
    lemma_run(s, CharClass::Not(sep));
    let n = run(s, CharClass::Not(sep)) as int;
    let all = split(s, sep);
    if n < s.len() {
        let rest = s.skip(n + 1);
        law_splitting_loses_nothing(rest, sep);
        lemma_joined_again(s.take(n), split(rest, sep), seq![sep]);
        assert(s.take(n) + seq![sep] + rest =~= s);
        assert forall|i: int| 0 <= i < all.len() implies !(#[trigger] all[i]).contains(sep) by {
            if i > 0 {
                assert(all[i] == split(rest, sep)[i - 1]);
            }
        }
    }
}

/// The words of a text hold no white space, none is empty, and each stood in the
/// text.
pub proof fn law_words_hold_no_white_space(s: Seq<char>, i: int)
    requires
        0 <= i < words(s).len(),
    ensures
        words(s)[i].len() > 0,
        forall|k: int| 0 <= k < words(s)[i].len() ==> !is_space(#[trigger] words(s)[i][k]),
    decreases s.len(),
{
    lemma_run(s, CharClass::Space);
    let t = crate::text::trim_start(s);
    if t.len() > 0 {
        lemma_run(t, CharClass::Solid);
        assert(t[0] == s[run(s, CharClass::Space) as int]);
        let n = run(t, CharClass::Solid) as int;
        assert(n >= 1);
        if i > 0 {
            law_words_hold_no_white_space(t.skip(n), i - 1);
            assert(words(s)[i] == words(t.skip(n))[i - 1]);
        } else {
            assert(words(s)[0] == t.take(n));
        }
    }
}

/// A text has words exactly where it holds something but white space.
pub proof fn law_texts_without_words(s: Seq<char>)
    ensures
        words(s).len() == 0 <==> trim(s).len() == 0,
{
    lemma_trim(s);
    lemma_run(s, CharClass::Space);
    let t = crate::text::trim_start(s);
    if t.len() > 0 {
        assert(t[0] == s[run(s, CharClass::Space) as int]);
    }
}

/// The lines of a text hold no line feed, and a line that ends in one is there
/// though it is empty.
pub proof fn law_lines_hold_no_line_feed(s: Seq<char>, line: Seq<char>, i: int)
    ensures
        0 <= i < lines(s).len() ==> !lines(s)[i].contains('\n'),
        0 <= i < rows(s).len() ==> !rows(s)[i].contains('\n'),
        !line.contains('\n') && (line.len() == 0 || line.last() != '\r') ==> lines(
            line + seq!['\n'] + s,
        ) == seq![line] + lines(s) && lines(line + seq!['\r', '\n'] + s) == seq![line] + lines(s),
        !line.contains('\n') ==> rows(line + seq!['\n'] + s) == seq![line] + rows(s),
        lines(seq![]).len() == 0,
    decreases s.len(),
{
    lemma_run(s, CharClass::Not('\n'));
    let n = run(s, CharClass::Not('\n')) as int;
    if n < s.len() && i > 0 {
        law_lines_hold_no_line_feed(s.skip(n + 1), line, i - 1);
    }
    if !line.contains('\n') {
        let t = line + seq!['\n'] + s;
        assert(t.take(line.len() as int) =~= line);
        lemma_line_end(line, t);
        assert(t.skip(line.len() as int + 1) =~= s);
        let u = line + seq!['\r', '\n'] + s;
        let bare = line.push('\r');
        assert(!bare.contains('\n')) by {
            if bare.contains('\n') {
                let k = choose|k: int| 0 <= k < bare.len() && bare[k] == '\n';
                assert(line[k] == '\n');
            }
        }
        assert(u =~= bare + seq!['\n'] + s);
        assert(u.take(bare.len() as int) =~= bare);
        lemma_line_end(bare, u);
        assert(bare.drop_last() =~= line);
        assert(u.skip(bare.len() as int + 1) =~= s);
    }
}

proof fn lemma_line_end(line: Seq<char>, whole: Seq<char>)
    requires
        !line.contains('\n'),
        whole.len() > line.len(),
        whole.take(line.len() as int) == line,
        whole[line.len() as int] == '\n',
    ensures
        run(whole, CharClass::Not('\n')) == line.len(),
{
    lemma_run(whole, CharClass::Not('\n'));
    let n = run(whole, CharClass::Not('\n')) as int;
    if n < line.len() {
        assert(whole.take(line.len() as int)[n] == '\n');
        assert(line[n] == '\n');
    }
    if n > line.len() {
        assert(crate::text::in_class(CharClass::Not('\n'), whole[line.len() as int]));
    }
}

/// Texts are ordered by their first difference, and a text comes before every
/// longer one that begins with it.
pub proof fn law_how_texts_are_ordered(front: Seq<char>, a: Seq<char>, b: Seq<char>)
    ensures
        a.len() > 0 && b.len() > 0 && a[0] < b[0] ==> before(front + a, front + b),
        b.len() > 0 ==> before(front, front + b),
        !before(front, front),
    decreases front.len(),
{
    if front.len() > 0 {
        law_how_texts_are_ordered(front.skip(1), a, b);
        assert((front + a).skip(1) =~= front.skip(1) + a);
        assert((front + b).skip(1) =~= front.skip(1) + b);
    } else {
        assert(front + a =~= a);
        assert(front + b =~= b);
    }
}

// ---------------------------------------------------------------------------
// Numbers
// ---------------------------------------------------------------------------

proof fn lemma_decimal(n: nat)
    ensures
        decimal(n).len() > 0,
        crate::patch::is_digits(decimal(n)),
        digits_value(decimal(n)) == n,
        decimal(n)[0] != '+' && decimal(n)[0] != '-',
        n > 0 ==> decimal(n)[0] != '0',
    decreases n,
{
    if n < 10 {
        assert(decimal(n).drop_last() =~= seq![]);
        reveal_with_fuel(digits_value, 2);
        assert(decimal(n)[0] == crate::text::digit_char(n));
        assert(decimal(n).last() == crate::text::digit_char(n));
        lemma_digit(n);
    } else {
        lemma_decimal(n / 10);
        lemma_digit(n % 10);
        let d = decimal(n);
        assert(d.drop_last() =~= decimal(n / 10));
        assert(d[0] == decimal(n / 10)[0]);
        assert forall|i: int| 0 <= i < d.len() implies is_digit(#[trigger] d[i]) by {
            if i < d.len() - 1 {
                assert(d[i] == decimal(n / 10)[i]);
            }
        }
        assert(n == (n / 10) * 10 + n % 10);
    }
}

proof fn lemma_digit(d: nat)
    requires
        d < 10,
    ensures
        is_digit(crate::text::digit_char(d)),
        crate::text::digit_char(d) as u32 - '0' as u32 == d,
        crate::text::digit_char(d) != '+' && crate::text::digit_char(d) != '-',
        d > 0 ==> crate::text::digit_char(d) != '0',
{
}

/// A number that is written is read again as that number, with a sign or without.
pub proof fn law_numbers_are_read_as_written(n: nat, z: int)
    ensures
        n <= u64::MAX ==> unsigned_value(decimal(n)) == Some(n),
        n > u64::MAX ==> unsigned_value(decimal(n)) is None,
        i64::MIN <= z <= i64::MAX ==> signed_value(decimal_int(z)) == Some(z),
        z > i64::MAX || z < i64::MIN ==> signed_value(decimal_int(z)) is None,
{
    reveal_strlit("+");
    reveal_strlit("-");
    lemma_decimal(n);
    assert(decimal(n).take(1)[0] == decimal(n)[0]);
    let m = if z < 0 {
        (-z) as nat
    } else {
        z as nat
    };
    lemma_decimal(m);
    let d = decimal(m);
    assert(d.take(1)[0] == d[0]);
    if z < 0 {
        let s = seq!['-'] + d;
        assert(s.take(1) =~= "-"@);
        assert(s.skip(1) =~= d);
    }
}

/// What is not digits, but for one sign before them, is no number.
pub proof fn law_what_is_no_number(s: Seq<char>, i: int)
    requires
        0 < i < s.len(),
        !('0' <= s[i] <= '9'),
    ensures
        unsigned_value(s) is None,
        signed_value(s) is None,
{
    reveal_strlit("+");
    reveal_strlit("-");
    assert(s.skip(1)[i - 1] == s[i]);
    assert(!is_digit(s[i]));
    assert(!is_digit(s.skip(1)[i - 1]));
    assert(!crate::patch::is_digits(s));
    assert(!crate::patch::is_digits(s.skip(1)));
}

// ---------------------------------------------------------------------------
// Paths
// ---------------------------------------------------------------------------

/// A file's extension is what follows the last dot of its name, and its stem what
/// stands before it; a name without a dot, or with none but its first character,
/// has no extension.
pub proof fn law_names_are_stem_and_extension(dir: Seq<char>, name: Seq<char>, ext: Seq<char>)
    requires
        !name.contains('/'),
        !ext.contains('/'),
        name.len() > 0,
        !ext.contains('.'),
        name.len() > 1 || name[0] != '.' || ext.len() > 0,
    ensures
        extension(dir + seq!['/'] + name + seq!['.'] + ext) == Some(ext),
        stem(dir + seq!['/'] + name + seq!['.'] + ext) == name,
{
    let last = name + seq!['.'] + ext;
    let path = dir + seq!['/'] + last;
    assert(dir + seq!['/'] + name + seq!['.'] + ext =~= path);
    assert(!last.contains('/')) by {
        if last.contains('/') {
            let k = choose|k: int| 0 <= k < last.len() && last[k] == '/';
            if k < name.len() {
                assert(name[k] == '/');
            } else if k > name.len() {
                assert(ext[k - name.len() - 1] == '/');
            }
        }
    }
    lemma_base_name(dir, last);
    lemma_back_run(last, CharClass::Not('.'));
    let r = back_run(last, CharClass::Not('.')) as int;
    let at = name.len() as int;
    assert(last[at] == '.');
    if last.len() - 1 - r > at {
        assert(last[last.len() - r - 1] == ext[last.len() - r - 1 - at - 1]);
        assert(!crate::text::in_class(CharClass::Not('.'), last[last.len() - r - 1]));
        assert(ext.contains('.'));
    }
    if last.len() - 1 - r < at {
        assert(crate::text::in_class(CharClass::Not('.'), last[at]));
    }
    reveal_strlit("..");
    assert(last != ".."@) by {
        if last == ".."@ {
            assert(name.len() == 1 && ext.len() == 0);
            assert(last[0] == '.');
        }
    }
    assert(last.skip(at + 1) =~= ext);
    assert(last.take(at) =~= name);
}

proof fn lemma_base_name(dir: Seq<char>, last: Seq<char>)
    requires
        !last.contains('/'),
    ensures
        base_name(dir + seq!['/'] + last) == last,
        base_name(last) == last,
    decreases dir.len(),
{
    let path = dir + seq!['/'] + last;
    lemma_run(last, CharClass::Not('/'));
    let whole = run(last, CharClass::Not('/')) as int;
    if whole < last.len() {
        assert(last[whole] == '/');
    }
    assert(split(last, '/') =~= seq![last]);
    lemma_run(path, CharClass::Not('/'));
    let n = run(path, CharClass::Not('/')) as int;
    if n > dir.len() {
        assert(crate::text::in_class(CharClass::Not('/'), path[dir.len() as int]));
    }
    let rest = path.skip(n + 1);
    crate::paths::lemma_split_nonempty(rest, '/');
    if n == dir.len() {
        assert(rest =~= last);
    } else {
        let inner = dir.skip(n + 1);
        assert(path[n] == dir[n]);
        assert(rest =~= inner + seq!['/'] + last);
        lemma_base_name(inner, last);
    }
    assert(split(path, '/').last() == split(rest, '/').last());
}

/// A name without a dot behind its first character has no extension and is its own
/// stem.
pub proof fn law_plain_names_have_no_extension(name: Seq<char>)
    requires
        !name.contains('/'),
        forall|i: int| 0 < i < name.len() ==> #[trigger] name[i] != '.',
    ensures
        extension(name) is None,
        stem(name) == name,
{
    lemma_base_name(seq![], name);
    lemma_back_run(name, CharClass::Not('.'));
    let at = name.len() - 1 - back_run(name, CharClass::Not('.'));
    if at > 0 {
        assert(!crate::text::in_class(CharClass::Not('.'), name[at]));
    }
}

/// What lies below a directory is reached by one slash.
pub proof fn law_below_is_one_slash_away(dir: Seq<char>, name: Seq<char>)
    ensures
        dir.len() > 0 && dir.last() != '/' ==> below(dir, name) == dir + seq!['/'] + name,
        dir.len() > 0 && dir.last() == '/' ==> below(dir, name) == dir + name,
        dir.len() == 0 ==> below(dir, name) == name,
{
    reveal_strlit("/");
    assert("/"@ =~= seq!['/']);
    if dir.len() > 0 {
        assert(dir.skip(dir.len() - 1)[0] == dir.last());
        if dir.last() == '/' {
            assert(dir.skip(dir.len() - 1) =~= "/"@);
        }
    } else {
        assert(dir + name =~= name);
    }
}

// ---------------------------------------------------------------------------
// The root
// ---------------------------------------------------------------------------

/// A directory that holds one of these is the root of a repository.
pub open spec fn is_repository(l: LevelView) -> bool {
    l.entries.contains(".git"@) || l.entries.contains("archietect.toml"@) || l.entries.contains(
        "archietect.db"@,
    )
}

/// A directory that holds one of these is a project.
pub open spec fn is_project(l: LevelView) -> bool {
    l.entries.contains("Cargo.toml"@) || l.entries.contains("package.json"@) || l.entries.contains(
        "composer.json"@,
    ) || l.entries.contains("manage.py"@) || l.entries.contains("mix.exs"@) || l.entries.contains(
        "go.mod"@,
    ) || l.entries.contains("Gemfile"@) || l.entries.contains("pom.xml"@)
}

proof fn lemma_anchored(l: LevelView)
    ensures
        is_anchored(l, true) <==> is_repository(l),
        is_anchored(l, false) <==> is_project(l),
{
    if is_anchored(l, true) {
        let i = choose|i: int|
            0 <= i < l.entries.len() && crate::root::is_strong_marker(#[trigger] l.entries[i]);
        assert(l.entries.contains(l.entries[i]));
    }
    if is_anchored(l, false) {
        let i = choose|i: int|
            0 <= i < l.entries.len() && crate::root::is_weak_marker(#[trigger] l.entries[i]);
        assert(l.entries.contains(l.entries[i]));
    }
    if is_repository(l) {
        let i = choose|i: int|
            0 <= i < l.entries.len() && crate::root::is_strong_marker(#[trigger] l.entries[i]);
        assert(crate::root::is_strong_marker(l.entries[i]));
    }
    if is_project(l) {
        let i = choose|i: int|
            0 <= i < l.entries.len() && crate::root::is_weak_marker(#[trigger] l.entries[i]);
        assert(crate::root::is_weak_marker(l.entries[i]));
    }
}

proof fn lemma_nearest(levels: Seq<LevelView>, strong: bool, i: int)
    requires
        0 <= i,
    ensures
        match nearest(levels, strong, i) {
            Some(d) => exists|k: int|
                i <= k < levels.len() && is_anchored(#[trigger] levels[k], strong) && levels[k].dir == d
                    && forall|j: int| i <= j < k ==> !is_anchored(#[trigger] levels[j], strong),
            None => forall|j: int|
                i <= j < levels.len() ==> !is_anchored(#[trigger] levels[j], strong),
        },
    decreases levels.len() - i,
{
    if i < levels.len() && !is_anchored(levels[i], strong) {
        lemma_nearest(levels, strong, i + 1);
    } else if i < levels.len() {
        assert(is_anchored(levels[i], strong));
    }
}

/// The root is the nearest repository above the start; without one it is the
/// nearest project, and without that the start itself.
pub proof fn law_where_the_root_is(levels: Seq<LevelView>, start: Seq<char>, k: int)
    ensures
        0 <= k < levels.len() && is_repository(levels[k]) && (forall|j: int|
            0 <= j < k ==> !is_repository(#[trigger] levels[j])) ==> root_above(levels, start)
            == levels[k].dir,
        (forall|j: int| 0 <= j < levels.len() ==> !is_repository(#[trigger] levels[j])) && 0 <= k
            < levels.len() && is_project(levels[k]) && (forall|j: int|
            0 <= j < k ==> !is_project(#[trigger] levels[j])) ==> root_above(levels, start)
            == levels[k].dir,
        (forall|j: int|
            0 <= j < levels.len() ==> !is_repository(#[trigger] levels[j]) && !is_project(levels[j]))
            ==> root_above(levels, start) == start,
{
    lemma_nearest(levels, true, 0);
    lemma_nearest(levels, false, 0);
    assert forall|j: int| 0 <= j < levels.len() implies (is_anchored(#[trigger] levels[j], true)
        <==> is_repository(levels[j])) && (is_anchored(levels[j], false) <==> is_project(levels[j])) by {
        lemma_anchored(levels[j]);
    }
}

/// A root that is no repository and holds three or more is spoken of, by name and
/// number.
pub proof fn law_directories_of_projects_are_spoken_of(
    root: Seq<char>,
    repository: bool,
    nested: Seq<Seq<char>>,
)
    ensures
        scope_note(root, repository, nested) is Some <==> !repository && nested.len() >= 3,
        scope_note(root, repository, nested) matches Some(t) ==> contains(t, root) && contains(
            t,
            decimal(nested.len()),
        ),
{
    if let Some(t) = scope_note(root, repository, nested) {
        let n = decimal(nested.len());
        let middle = "' looks like a directory of "@;
        assert(t.subrange("'"@.len() as int, ("'"@.len() + root.len()) as int) =~= root);
        assert(crate::text::occurs_at(t, root, "'"@.len() as int));
        let at = ("'"@ + root + middle).len() as int;
        assert(t.subrange(at, at + n.len()) =~= n);
        assert(crate::text::occurs_at(t, n, at));
    }
}

// ---------------------------------------------------------------------------
// A sound index
// ---------------------------------------------------------------------------

/// An index is clean exactly where every alias points at a declared concept, every
/// decision with links is linked to one, in whatever case, and every concept is
/// declared somewhere.
pub proof fn law_what_is_wrong_with_an_index(idx: IndexView)
    ensures
        violations(idx).len() == 0 <==> {
            &&& forall|a: int|
                0 <= a < idx.aliases.len() ==> has_key(
                    idx.concepts,
                    (#[trigger] idx.aliases[a]).1,
                )
            &&& forall|d: int|
                0 <= d < idx.decisions.len() ==> (#[trigger] idx.decisions[d]).links.len() == 0
                    || is_linked(idx, idx.decisions[d])
            &&& forall|c: int|
                0 <= c < idx.concepts.len() ==> (#[trigger] idx.concepts[c]).1.declared_in.len() > 0
        },
{
    let f = each_stale_alias(idx);
    let g = each_dangling(idx);
    let h = each_ghost();
    assert forall|d: int| 0 <= d < idx.decisions.len() implies (g(#[trigger] idx.decisions[d]) is None
        <==> idx.decisions[d].links.len() == 0 || is_linked(idx, idx.decisions[d])) by {
        lemma_linked(idx, idx.decisions[d]);
    }
    if violations(idx).len() == 0 {
        assert(idx.aliases.filter_map(f).len() == 0);
        assert(idx.decisions.filter_map(g).len() == 0);
        assert(idx.concepts.filter_map(h).len() == 0);
        assert forall|a: int| 0 <= a < idx.aliases.len() implies has_key(
            idx.concepts,
            (#[trigger] idx.aliases[a]).1,
        ) by {
            if f(idx.aliases[a]) is Some {
                lemma_kept_by_filter_map(idx.aliases, f, a);
            }
        }
        assert forall|d: int| 0 <= d < idx.decisions.len() implies g(#[trigger] idx.decisions[d])
            is None by {
            if g(idx.decisions[d]) is Some {
                lemma_kept_by_filter_map(idx.decisions, g, d);
            }
        }
        assert forall|c: int| 0 <= c < idx.concepts.len() implies (
        #[trigger] idx.concepts[c]).1.declared_in.len() > 0 by {
            if h(idx.concepts[c]) is Some {
                lemma_kept_by_filter_map(idx.concepts, h, c);
            }
        }
    } else {
        if idx.aliases.filter_map(f).len() > 0 {
            let k = lemma_filtered_from(idx.aliases, f, 0);
            assert(!has_key(idx.concepts, idx.aliases[k].1));
        } else if idx.decisions.filter_map(g).len() > 0 {
            let k = lemma_filtered_from(idx.decisions, g, 0);
            assert(g(idx.decisions[k]) is Some);
        } else {
            let k = lemma_filtered_from(idx.concepts, h, 0);
            assert(idx.concepts[k].1.declared_in.len() == 0);
        }
    }
}

/// A decision is linked to a declared concept, in whatever case.
pub open spec fn is_linked(idx: IndexView, d: DecisionView) -> bool {
    exists|l: int, c: int| #![trigger d.links[l], idx.concepts[c]]
        0 <= l < d.links.len() && 0 <= c < idx.concepts.len() && ascii_lower(idx.concepts[c].0)
            == ascii_lower(d.links[l])
}

proof fn lemma_linked(idx: IndexView, d: DecisionView)
    ensures
        is_linked(idx, d) <==> crate::invariants::links_something(idx.concepts, d.links),
{
    if is_linked(idx, d) {
        let (l, c) = choose|l: int, c: int| #![trigger d.links[l], idx.concepts[c]]
            0 <= l < d.links.len() && 0 <= c < idx.concepts.len() && ascii_lower(idx.concepts[c].0)
                == ascii_lower(d.links[l]);
        assert(crate::invariants::is_known_link(idx.concepts, d.links[l]));
    }
    if crate::invariants::links_something(idx.concepts, d.links) {
        let l = choose|l: int|
            0 <= l < d.links.len() && crate::invariants::is_known_link(
                idx.concepts,
                #[trigger] d.links[l],
            );
        let c = choose|c: int|
            0 <= c < idx.concepts.len() && ascii_lower((#[trigger] idx.concepts[c]).0)
                == ascii_lower(d.links[l]);
        assert(ascii_lower(idx.concepts[c].0) == ascii_lower(d.links[l]));
    }
}

// ---------------------------------------------------------------------------
// What is known and what is not
// ---------------------------------------------------------------------------

/// A domain is looked at where the settings allow it, or where they are silent on
/// a domain that is not structured and somebody agreed.
pub proof fn law_what_is_looked_at(l: DomainLineView)
    ensures
        l.report.allowed ==> is_looked_at(l),
        !l.report.allowed && l.report.structured ==> !is_looked_at(l),
        !l.report.allowed && l.report.source.is_explicit() ==> !is_looked_at(l),
        !l.report.allowed && l.confirmed != Some(true) ==> !is_looked_at(l),
        !l.report.structured && !l.report.source.is_explicit() && l.confirmed == Some(true)
            ==> is_looked_at(l),
{
}

/// Of a domain that is not looked at the map says why: nobody was asked yet,
/// somebody declined, or the settings forbid it. Of one that is it says what kinds
/// of evidence it cannot give.
pub proof fn law_why_something_is_not_known(l: DomainLineView)
    requires
        seq!["code"@, "git"@, "docker"@, "documents"@].contains(l.report.domain),
    ensures
        ({
            let open = !l.report.structured && !l.report.source.is_explicit();
            &&& is_looked_at(l) ==> line_gaps(l) == missing_tiers(l.report.domain)
            &&& !is_looked_at(l) ==> line_gaps(l).len() == 1 && line_gaps(l)[0].domain == Some(
                l.report.domain,
            )
            &&& !is_looked_at(l) && open && l.confirmed is None ==> line_gaps(l)[0].kind
                == "unstructured_domain_unconfirmed"@
            &&& !is_looked_at(l) && !(open && l.confirmed is None) ==> line_gaps(l)[0].kind
                == "domain_disabled"@
            &&& !is_looked_at(l) && open && l.confirmed is Some ==> line_gaps(l)[0].source == Some(
                "confirmation-declined"@,
            )
            &&& !is_looked_at(l) && !(open && l.confirmed is Some) ==> line_gaps(l)[0].source == Some(
                l.report.source.label_text(),
            )
            &&& each_enabled()(l) is Some <==> is_looked_at(l)
        }),
{
    let all = seq!["code"@, "git"@, "docker"@, "documents"@];
    assert(all[0] == "code"@ && all[1] == "git"@ && all[2] == "docker"@ && all[3] == "documents"@);
}

/// A domain that cannot be looked at yet is neither enabled nor missed.
pub proof fn law_other_domains_are_not_missed(l: DomainLineView)
    requires
        !seq!["code"@, "git"@, "docker"@, "documents"@].contains(l.report.domain),
    ensures
        line_gaps(l).len() == 0,
        each_enabled()(l) is None,
{
    let all = seq!["code"@, "git"@, "docker"@, "documents"@];
    assert(all[0] == "code"@ && all[1] == "git"@ && all[2] == "docker"@ && all[3] == "documents"@);
}

/// Languages that nobody reads and concepts that nothing uses are told of by
/// number and by the first twenty.
pub proof fn law_gaps_name_the_first_twenty(
    idx: IndexView,
    files: Seq<(Seq<char>, Seq<char>)>,
    i: int,
)
    ensures
        files.len() > 0 ==> {
            let g = language_gap(files)[0];
            &&& g.kind == "unsupported_language"@ && g.count == files.len()
            &&& g.items.len() == if files.len() <= 20 {
                files.len() as int
            } else {
                20
            }
            &&& 0 <= i < g.items.len() ==> g.items[i] == files[i].0
        },
        usage_gap(idx).len() > 0 ==> {
            let g = usage_gap(idx)[0];
            let dead = idx.concepts.filter_map(each_dead());
            &&& g.kind == "usage_unobserved"@ && g.count == dead.len()
            &&& g.items.len() <= 20
            &&& 0 <= i < g.items.len() ==> g.items[i] == dead[i]
        },
{
}

/// The newest verification is a concept's, and no concept's is newer.
pub proof fn law_nothing_is_newer_than_the_newest(concepts: Seq<(Seq<char>, ConceptView)>)
    ensures
        concepts.len() == 0 <==> newest(concepts) is None,
        newest(concepts) matches Some(t) ==> (forall|i: int|
            0 <= i < concepts.len() ==> (#[trigger] concepts[i]).1.last_verified_ms <= t) && exists|
            i: int,
        |
            0 <= i < concepts.len() && (#[trigger] concepts[i]).1.last_verified_ms == t,
    decreases concepts.len(),
{
    if concepts.len() > 0 {
        let front = concepts.drop_last();
        law_nothing_is_newer_than_the_newest(front);
        let t = newest(concepts)->0;
        assert forall|i: int| 0 <= i < concepts.len() implies (
        #[trigger] concepts[i]).1.last_verified_ms <= t by {
            if i < front.len() {
                assert(front[i] == concepts[i]);
            }
        }
        if front.len() > 0 && newest(front)->0 > concepts.last().1.last_verified_ms {
            let i = choose|i: int|
                0 <= i < front.len() && (#[trigger] front[i]).1.last_verified_ms == newest(front)->0;
            assert(concepts[i].1.last_verified_ms == t);
        } else {
            assert(concepts[concepts.len() - 1].1.last_verified_ms == t);
        }
    }
}

// ---------------------------------------------------------------------------
// The registry of laws, and the shape of answers
// ---------------------------------------------------------------------------

proof fn lemma_categories(laws: Seq<LawView>)
    ensures
        ordered(categories(laws)),
    decreases laws.len(),
{
    if laws.len() > 0 {
        let m = categories(laws.drop_last());
        lemma_categories(laws.drop_last());
        lemma_put(m, laws.last().category, seen_so_far(m, laws.last().category) + 1);
    }
}

/// Active laws are counted, by themselves and under their category; others are
/// not.
pub proof fn law_active_laws_are_counted(front: Seq<LawView>, l: LawView, category: Seq<char>)
    ensures
        active_count(seq![]) == 0,
        l.status == "active"@ ==> active_count(front.push(l)) == active_count(front) + 1,
        l.status != "active"@ ==> active_count(front.push(l)) == active_count(front)
            && categories(front.push(l)) == categories(front),
        l.status == "active"@ && l.category == category ==> lookup(
            categories(front.push(l)),
            category,
        ) == Some((seen_so_far(categories(front), category) + 1) as nat),
        l.status == "active"@ && l.category != category ==> lookup(
            categories(front.push(l)),
            category,
        ) == lookup(categories(front), category),
{
    assert(front.push(l).drop_last() =~= front);
    lemma_categories(front);
    let m = categories(front);
    lemma_put(m, l.category, seen_so_far(m, l.category) + 1);
}

/// A law says what its file says, and one without any of its eight texts is none.
pub proof fn law_laws_say_what_is_written(t: TreeView)
    ensures
        law_in(t) matches Some(l) ==> {
            &&& text_field(t, "id"@) == Some(l.id) && text_field(t, "title"@) == Some(l.title)
            &&& text_field(t, "statement"@) == Some(l.statement) && text_field(t, "because"@)
                == Some(l.because)
            &&& text_field(t, "introduced"@) == Some(l.introduced) && text_field(t, "status"@)
                == Some(l.status)
            &&& text_field(t, "category"@) == Some(l.category) && text_field(t, "regression"@)
                == Some(l.regression)
            &&& field(t, "discovered_in"@) is Some
            &&& field(t, "supersedes"@) is None ==> l.supersedes is None
            &&& field(t, "mechanism"@) is None ==> l.mechanism is None
            &&& field(t, "supersedes"@) is Some ==> l.supersedes == text_field(t, "supersedes"@)
                && l.supersedes is Some
            &&& field(t, "mechanism"@) is Some ==> l.mechanism == text_field(t, "mechanism"@)
                && l.mechanism is Some
        },
        text_field(t, "id"@) is None || text_field(t, "title"@) is None || text_field(t, "statement"@)
            is None || text_field(t, "because"@) is None || text_field(t, "introduced"@) is None
            || text_field(t, "status"@) is None || text_field(t, "category"@) is None || text_field(
            t,
            "regression"@,
        ) is None || field(t, "discovered_in"@) is None ==> law_in(t) is None,
{
}

/// Prose is what stands under two keys; a compact answer goes without it, and only
/// a table can be asked for some of its keys.
pub proof fn law_what_is_prose(k: Seq<char>, t: TreeView, keys: Seq<Seq<char>>)
    ensures
        is_prose(k) <==> k == "note"@ || k == "evidence_note"@,
        shaped(t, None, true) == without_prose(t),
        !(t is Table) ==> shaped(t, Some(keys), false) == t,
        t is Text || t is Number || t is Flag || t is Nothing ==> shaped(t, Some(keys), true) == t,
{
}

} // verus!
