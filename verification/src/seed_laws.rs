//! What a README is taken to state, and how it is written down.
use vstd::prelude::*;
use crate::answer_laws::lemma_filtered_from;
use crate::model::DecisionView;
use crate::query::lemma_kept_by_filter_map;
use crate::seed::{
    bullet_in, candidates, each_undeclared, entries_text, entry_text, heading_in, is_rule_heading,
    read_line, read_lines, seeded_text, seeding, slug, toml_escaped, undeclared, CandidateView,
    Reading, SeedingView,
};
use crate::text::{
    contains, decimal, lemma_run, lowered, replace_char, run, strip_prefix, trim, trim_start,
    CharClass,
};

verus! {

/// A heading opens rules where its small letters hold one of six words.
pub proof fn law_headings_that_open_rules(heading: Seq<char>)
    ensures
        is_rule_heading(heading) <==> exists|i: int|
            0 <= i < rule_words().len() && contains(lowered(heading), #[trigger] rule_words()[i]),
{
    let all = rule_words();
    assert(all[0] == "constraint"@ && all[1] == "convention"@ && all[2] == "rule"@ && all[3]
        == "guideline"@ && all[4] == "principle"@ && all[5] == "decision"@);
}

pub open spec fn rule_words() -> Seq<Seq<char>> {
    seq!["constraint"@, "convention"@, "rule"@, "guideline"@, "principle"@, "decision"@]
}

/// A heading is what stands behind its marks, however many they are.
pub proof fn law_headings_lose_their_marks(line: Seq<char>, marks: nat, text: Seq<char>)
    requires
        marks > 0,
        text.len() == 0 || text[0] != '#',
        trim_start(line) == Seq::new(marks, |i: int| '#') + text,
    ensures
        heading_in(line) == Some(trim(text)),
{
    reveal_strlit("#");
    let t = trim_start(line);
    let front = Seq::new(marks, |i: int| '#');
    assert(t[0] == '#');
    assert(t.take(1) =~= "#"@);
    let rest = t.skip(1);
    assert(strip_prefix(t, "#"@) == Some(rest));
    lemma_run(rest, CharClass::Is('#'));
    let n = run(rest, CharClass::Is('#')) as int;
    assert forall|i: int| 0 <= i < marks - 1 implies #[trigger] rest[i] == '#' by {
        assert(rest[i] == t[i + 1]);
    }
    if n < marks - 1 {
        assert(rest[n] == '#');
    }
    if n > marks - 1 {
        assert(rest[marks - 1] == text[0]);
    }
    assert(rest.skip(n) =~= text);
}

/// A line without a mark is no heading, and a bullet is what stands behind its
/// dash, star or plus.
pub proof fn law_bullets_lose_their_marks(line: Seq<char>, text: Seq<char>)
    ensures
        trim_start(line) == "- "@ + text || trim_start(line) == "* "@ + text || trim_start(line)
            == "+ "@ + text ==> bullet_in(line) == Some(trim(text)) && heading_in(line) is None,
        bullet_in(line) is Some ==> trim_start(line).len() >= 2 && trim_start(line)[1] == ' ' && (
        trim_start(line)[0] == '-' || trim_start(line)[0] == '*' || trim_start(line)[0] == '+'),
        heading_in(line) is Some <==> trim_start(line).len() > 0 && trim_start(line)[0] == '#',
{
    reveal_strlit("#");
    reveal_strlit("- ");
    reveal_strlit("* ");
    reveal_strlit("+ ");
    let t = trim_start(line);
    if t.len() > 0 {
        assert(t.take(1)[0] == t[0]);
        if t[0] == '#' {
            assert(t.take(1) =~= "#"@);
        }
    }
    if t.len() >= 2 {
        assert(t.take(2)[0] == t[0] && t.take(2)[1] == t[1]);
        assert(t.skip(2) =~= text || t.skip(2) != text);
    }
    if t == "- "@ + text || t == "* "@ + text || t == "+ "@ + text {
        assert(t.skip(2) =~= text);
        if t[0] == '-' {
            assert(t.take(2) =~= "- "@);
        } else if t[0] == '*' {
            assert(t.take(2) =~= "* "@);
        } else {
            assert(t.take(2) =~= "+ "@);
        }
    }
}

/// A heading closes what was open and opens rules or does not; a bullet counts
/// below a heading that opens rules, is taken as it stands and is numbered there.
pub proof fn law_bullets_under_rules_are_candidates(s: Reading, line: Seq<char>)
    ensures
        ({
            let r = read_line(s, line);
            &&& heading_in(line) matches Some(h) ==> {
                &&& r.found == s.found && r.count == 0
                &&& r.in_rules == is_rule_heading(h)
                &&& r.heading == if h.len() > 0 {
                    h
                } else {
                    s.heading
                }
            }
            &&& heading_in(line) is None && (!s.in_rules || s.found.len() >= 30 || bullet_in(line)
                is None || bullet_in(line)->0.len() == 0) ==> r == s
            &&& heading_in(line) is None && s.in_rules && s.found.len() < 30 ==> (bullet_in(
                line,
            ) matches Some(text) ==> (text.len() > 0 ==> {
                &&& r.found.len() == s.found.len() + 1
                &&& r.found.take(s.found.len() as int) == s.found
                &&& r.found.last().decision == text
                &&& r.found.last().id == slug(s.heading) + "-"@ + decimal(s.count + 1)
                &&& contains(r.found.last().because, s.heading)
                &&& r.count == s.count + 1 && r.in_rules && r.heading == s.heading
            }))
        }),
{
    if heading_in(line) is None && s.in_rules && s.found.len() < 30 {
        if let Some(text) = bullet_in(line) {
            if text.len() > 0 {
                let r = read_line(s, line);
                assert(r.found.take(s.found.len() as int) =~= s.found);
                let head = "seeded verbatim from README.md, section '"@;
                let b = r.found.last().because;
                assert(b.subrange(head.len() as int, (head.len() + s.heading.len()) as int)
                    =~= s.heading);
                assert(crate::text::occurs_at(b, s.heading, head.len() as int));
            }
        }
    }
}

/// A README is read line by line, with no rules open at first.
pub proof fn law_readmes_are_read_line_by_line(front: Seq<Seq<char>>, line: Seq<char>)
    ensures
        read_lines(front.push(line)) == read_line(read_lines(front), line),
        read_lines(seq![]).found.len() == 0,
        !read_lines(seq![]).in_rules,
        read_lines(seq![]).count == 0,
{
    assert(front.push(line).drop_last() =~= front);
}

/// A candidate is new where no decision says the same or has its id.
pub proof fn law_which_candidates_are_new(
    readme: Seq<char>,
    decisions: Seq<DecisionView>,
    i: int,
    p: int,
)
    ensures
        0 <= i < candidates(readme).len() && (forall|d: int|
            0 <= d < decisions.len() ==> (#[trigger] decisions[d]).decision != candidates(
                readme,
            )[i].decision && decisions[d].id != candidates(readme)[i].id) ==> undeclared(
            readme,
            decisions,
        ).contains(candidates(readme)[i]),
        0 <= p < undeclared(readme, decisions).len() ==> candidates(readme).contains(
            undeclared(readme, decisions)[p],
        ) && forall|d: int|
            0 <= d < decisions.len() ==> (#[trigger] decisions[d]).decision != undeclared(
                readme,
                decisions,
            )[p].decision && decisions[d].id != undeclared(readme, decisions)[p].id,
{
    let f = each_undeclared(decisions);
    let all = candidates(readme);
    if 0 <= i < all.len() && (forall|d: int|
        0 <= d < decisions.len() ==> (#[trigger] decisions[d]).decision != all[i].decision
            && decisions[d].id != all[i].id) {
        lemma_kept_by_filter_map(all, f, i);
    }
    if 0 <= p < undeclared(readme, decisions).len() {
        let k = lemma_filtered_from(all, f, p);
        assert(all[k] == undeclared(readme, decisions)[p]);
    }
}

/// Without a README nothing is read; with nothing new nothing is found; otherwise
/// everything new is found, and its text is given where it is to be written.
pub proof fn law_how_seeding_ends(
    readme: Option<Seq<char>>,
    decisions: Seq<DecisionView>,
    write: bool,
    by: Option<Seq<char>>,
    has_file: bool,
)
    ensures
        readme is None <==> seeding(readme, decisions, write, by, has_file) is NoReadme,
        readme matches Some(text) ==> (undeclared(text, decisions).len() == 0 <==> seeding(
            readme,
            decisions,
            write,
            by,
            has_file,
        ) is NothingNew),
        seeding(readme, decisions, write, by, has_file) matches SeedingView::Found(list, t)
            ==> list.len() > 0 && list == undeclared(readme->0, decisions) && (t is Some <==> write)
            && (t matches Some(x) ==> x == seeded_text(list, by, has_file)),
{
}

proof fn lemma_replaced(a: Seq<char>, b: Seq<char>, from: char, to: Seq<char>)
    ensures
        replace_char(a + b, from, to) == replace_char(a, from, to) + replace_char(b, from, to),
    decreases b.len(),
{
    if b.len() == 0 {
        assert(a + b =~= a);
        assert(replace_char(a, from, to) + replace_char(b, from, to) =~= replace_char(a, from, to));
    } else {
        let c = b.drop_last();
        assert((a + b).drop_last() =~= a + c);
        lemma_replaced(a, c, from, to);
        assert(replace_char(a + b, from, to) =~= replace_char(a, from, to) + replace_char(
            b,
            from,
            to,
        ));
    }
}

/// Inside a string a quote and a backslash are written with a backslash before
/// them, and every other character as it is.
pub proof fn law_strings_are_escaped(s: Seq<char>, c: char)
    ensures
        toml_escaped(seq![]) == Seq::<char>::empty(),
        toml_escaped(s.push(c)) == toml_escaped(s) + if c == '"' {
            seq!['\\', '"']
        } else if c == '\\' {
            seq!['\\', '\\']
        } else {
            seq![c]
        },
{
    reveal_strlit("\\\\");
    reveal_strlit("\\\"");
    let inner = replace_char(s, '\\', "\\\\"@);
    assert(s.push(c).drop_last() =~= s);
    assert("\\\\"@ =~= seq!['\\', '\\']);
    assert("\\\""@ =~= seq!['\\', '"']);
    let piece = if c == '\\' {
        "\\\\"@
    } else {
        seq![c]
    };
    lemma_replaced(inner, piece, '"', "\\\""@);
    reveal_with_fuel(replace_char, 3);
    if c == '\\' {
        assert(piece.drop_last() =~= seq!['\\']);
        assert(piece.drop_last().drop_last() =~= Seq::<char>::empty());
        assert(replace_char(piece, '"', "\\\""@) =~= seq!['\\', '\\']);
    } else {
        assert(piece.drop_last() =~= Seq::<char>::empty());
        if c == '"' {
            assert(replace_char(piece, '"', "\\\""@) =~= seq!['\\', '"']);
        } else {
            assert(replace_char(piece, '"', "\\\""@) =~= seq![c]);
        }
    }
}

/// What is appended opens a decision for each candidate in turn, with its id, what
/// it says and why.
pub proof fn law_entries_say_what_is_proposed(
    front: Seq<CandidateView>,
    c: CandidateView,
    by: Option<Seq<char>>,
    has_file: bool,
)
    ensures
        entries_text(front.push(c), by) == entries_text(front, by) + entry_text(c, by),
        seeded_text(seq![], by, true) == "\n"@,
        ("[[decision]]\nid = \""@ + toml_escaped(c.id) + "\"\ndecision = \""@ + toml_escaped(
            c.decision,
        ) + "\"\nbecause = \""@ + toml_escaped(c.because) + "\"\n"@).is_prefix_of(entry_text(c, by)),
        by is None ==> entry_text(c, by) == "[[decision]]\nid = \""@ + toml_escaped(c.id)
            + "\"\ndecision = \""@ + toml_escaped(c.decision) + "\"\nbecause = \""@ + toml_escaped(
            c.because,
        ) + "\"\n"@ + "\n"@,
        by matches Some(who) ==> contains(entry_text(c, by), toml_escaped(who)),
{
    assert(front.push(c).drop_last() =~= front);
    let head = "[[decision]]\nid = \""@ + toml_escaped(c.id) + "\"\ndecision = \""@ + toml_escaped(
        c.decision,
    ) + "\"\nbecause = \""@ + toml_escaped(c.because) + "\"\n"@;
    let e = entry_text(c, by);
    assert(e.subrange(0, head.len() as int) =~= head);
    reveal_strlit("");
    if by is None {
        assert(e =~= head + "\n"@);
    }
    assert(seeded_text(seq![], by, true) =~= "\n"@);
    if let Some(who) = by {
        let w = toml_escaped(who);
        let front_text = head + "proposed_by = \""@;
        assert(e.subrange(front_text.len() as int, (front_text.len() + w.len()) as int) =~= w);
        assert(crate::text::occurs_at(e, w, front_text.len() as int));
    }
}

} // verus!
