//! Decisions that a README already states: the bullets under its rules, word for
//! word.
use vstd::prelude::*;
use crate::model::{Decision, DecisionView};
use crate::text::{
    contains, decimal, has_no_capitals, is_alnum, is_digit, is_lower, is_upper, lines, lowered, replace_char, run, strip_prefix, trim,
    trim_end_of, trim_start, CharClass,
};
use crate::text::{
    after_prefix, alnum, chars_of, cut, holds, lines_of, lowercase, number, owned, push_char,
    run_at, same, trimmed, trimmed_end_of, trimmed_start, with_replaced,
};

verus! {

/// No README states more decisions than this.
pub const MAX_CANDIDATES: usize = 30;

/// A decision that a README states.
#[derive(Debug)]
pub struct Candidate {
    pub id: String,
    pub decision: String,
    pub because: String,
}

pub struct CandidateView {
    pub id: Seq<char>,
    pub decision: Seq<char>,
    pub because: Seq<char>,
}

impl DeepView for Candidate {
    type V = CandidateView;

    open spec fn deep_view(&self) -> CandidateView {
        CandidateView { id: self.id@, decision: self.decision@, because: self.because@ }
    }
}

/// A heading under which bullets are rules.
pub open spec fn is_rule_heading(heading: Seq<char>) -> bool {
    let low = lowered(heading);
    contains(low, "constraint"@) || contains(low, "convention"@) || contains(low, "rule"@)
        || contains(low, "guideline"@) || contains(low, "principle"@) || contains(low, "decision"@)
}

/// Letters and digits of a text, with one dash for every gap between them.
pub open spec fn dashed(s: Seq<char>) -> (Seq<char>, bool)
    decreases s.len(),
{
    if s.len() == 0 {
        (seq![], false)
    } else {
        let r = dashed(s.drop_last());
        if is_alnum(s.last()) {
            (r.0.push(s.last()), false)
        } else if !r.1 && r.0.len() > 0 {
            (r.0.push('-'), true)
        } else {
            r
        }
    }
}

/// A heading as part of an id.
pub open spec fn slug(s: Seq<char>) -> Seq<char> {
    let d = trim_end_of(dashed(lowered(s)).0, CharClass::Is('-'));
    if d.len() == 0 {
        "section"@
    } else {
        d
    }
}

/// Small letters, digits and single dashes between them, and not nothing.
pub open spec fn is_slug(t: Seq<char>) -> bool {
    &&& t.len() > 0
    &&& t.last() != '-'
    &&& is_dashed(t)
}

/// Small letters, digits and single dashes behind them.
pub open spec fn is_dashed(t: Seq<char>) -> bool {
    &&& forall|i: int|
        0 <= i < t.len() ==> is_lower(#[trigger] t[i]) || is_digit(t[i]) || t[i] == '-'
    &&& forall|i: int| 0 <= i < t.len() && #[trigger] t[i] == '-' ==> i > 0 && t[i - 1] != '-'
}

/// What has been read of a README: the candidates, the heading, whether it is
/// one of rules, and how many bullets stand under it.
pub struct Reading {
    pub found: Seq<CandidateView>,
    pub heading: Seq<char>,
    pub in_rules: bool,
    pub count: nat,
}

pub open spec fn heading_in(line: Seq<char>) -> Option<Seq<char>> {
    match strip_prefix(trim_start(line), "#"@) {
        Some(rest) => Some(trim(rest.skip(run(rest, CharClass::Is('#')) as int))),
        None => None,
    }
}

/// The text of a bullet.
pub open spec fn bullet_in(line: Seq<char>) -> Option<Seq<char>> {
    let t = trim_start(line);
    match strip_prefix(t, "- "@) {
        Some(x) => Some(trim(x)),
        None => match strip_prefix(t, "* "@) {
            Some(x) => Some(trim(x)),
            None => match strip_prefix(t, "+ "@) {
                Some(x) => Some(trim(x)),
                None => None,
            },
        },
    }
}

pub open spec fn candidate(heading: Seq<char>, n: nat, text: Seq<char>) -> CandidateView {
    CandidateView {
        id: slug(heading) + "-"@ + decimal(n),
        decision: text,
        because: "seeded verbatim from README.md, section '"@ + heading
            + "' — verify and edit before relying on this"@,
    }
}

pub open spec fn read_line(s: Reading, line: Seq<char>) -> Reading {
    match heading_in(line) {
        Some(h) => Reading {
            found: s.found,
            heading: if h.len() > 0 {
                h
            } else {
                s.heading
            },
            in_rules: is_rule_heading(h),
            count: 0,
        },
        None => if !s.in_rules || s.found.len() >= 30 {
            s
        } else {
            match bullet_in(line) {
                Some(text) => if text.len() == 0 {
                    s
                } else {
                    Reading {
                        found: s.found.push(candidate(s.heading, s.count + 1, text)),
                        heading: s.heading,
                        in_rules: s.in_rules,
                        count: s.count + 1,
                    }
                },
                None => s,
            }
        },
    }
}

pub open spec fn read_lines(ls: Seq<Seq<char>>) -> Reading
    decreases ls.len(),
{
    if ls.len() == 0 {
        Reading { found: seq![], heading: "README"@, in_rules: false, count: 0 }
    } else {
        read_line(read_lines(ls.drop_last()), ls.last())
    }
}

/// The decisions that a README states.
pub open spec fn candidates(readme: Seq<char>) -> Seq<CandidateView> {
    read_lines(lines(readme)).found
}

/// A heading as part of an id: small letters, digits and single dashes between
/// them.
pub fn slugify(s: &str) -> (r: String)
    ensures
        r@ == slug(s@),
        is_slug(r@),
        slug(r@) == r@,
{
    let low = lowercase(s);
    let cs = chars_of(low.as_str());
    let ghost lv = low@;
    let mut out = String::new();
    let mut last_dash = false;
    let mut i: usize = 0;
    assert(out@ =~= seq![]);
    assert(lv.take(0) =~= seq![]);
    while i < cs.len()
        invariant
            i <= cs.len(),
            cs@ == lv,
            (out@, last_dash) == dashed(lv.take(i as int)),
        decreases cs.len() - i,
    {
        proof {
            let step = lv.take(i + 1);
            assert(step.drop_last() =~= lv.take(i as int));
            assert(step.last() == lv[i as int]);
        }
        if alnum(cs[i]) {
            push_char(&mut out, cs[i]);
            last_dash = false;
        } else if !last_dash && !out.as_str().is_empty() {
            push_char(&mut out, '-');
            last_dash = true;
        }
        i += 1;
    }
    assert(lv.take(i as int) =~= lv);
    let bare = trimmed_end_of(out.as_str(), CharClass::Is('-'));
    proof {
        law_slugs_are_their_own(s@);
    }
    if bare.as_str().is_empty() {
        owned("section")
    } else {
        bare
    }
}

fn rule_heading(heading: &str) -> (r: bool)
    ensures
        r == is_rule_heading(heading@),
{
    let low = lowercase(heading);
    let s = low.as_str();
    holds(s, "constraint") || holds(s, "convention") || holds(s, "rule") || holds(s, "guideline")
        || holds(s, "principle") || holds(s, "decision")
}

fn heading_of(line: &str) -> (r: Option<String>)
    ensures
        r.deep_view() == heading_in(line@),
{
    match after_prefix(trimmed_start(line).as_str(), "#") {
        Some(rest) => {
            let cs = chars_of(rest.as_str());
            let n: usize = run_at(&cs, 0, CharClass::Is('#'));
            proof {
                assert(rest@.skip(0) =~= rest@);
                crate::text::lemma_run(rest@, CharClass::Is('#'));
            }
            let bare = cut(&cs, n, cs.len());
            assert(bare@ =~= rest@.skip(n as int));
            Some(trimmed(bare.as_str()))
        },
        None => None,
    }
}

fn bullet_of(line: &str) -> (r: Option<String>)
    ensures
        r.deep_view() == bullet_in(line@),
{
    let t = trimmed_start(line);
    let text = match after_prefix(t.as_str(), "- ") {
        Some(x) => x,
        None => match after_prefix(t.as_str(), "* ") {
            Some(x) => x,
            None => match after_prefix(t.as_str(), "+ ") {
                Some(x) => x,
                None => {
                    return None;
                },
            },
        },
    };
    Some(trimmed(text.as_str()))
}

/// The decisions that a README states: the bullets under its headings of rules,
/// numbered under each, word for word.
pub fn extract_candidates(readme: &str) -> (r: Vec<Candidate>)
    ensures
        r.deep_view() == candidates(readme@),
{
    let ls = lines_of(readme);
    let ghost lv = ls.deep_view();
    let mut out: Vec<Candidate> = Vec::new();
    let mut heading = owned("README");
    let mut in_rules = false;
    let mut count: usize = 0;
    let mut i: usize = 0;
    assert(out.deep_view() =~= seq![]);
    assert(lv.take(0) =~= seq![]);
    while i < ls.len()
        invariant
            i <= ls.len(),
            lv == ls.deep_view(),
            count <= out@.len() <= 30,
            (Reading {
                found: out.deep_view(),
                heading: heading@,
                in_rules,
                count: count as nat,
            }) == read_lines(lv.take(i as int)),
        decreases ls.len() - i,
    {
        let line = ls[i].as_str();
        let ghost so_far = out.deep_view();
        proof {
            let step = lv.take(i + 1);
            assert(step.drop_last() =~= lv.take(i as int));
            assert(step.last() == line@);
            assert(so_far.len() == out@.len());
        }
        match heading_of(line) {
            Some(h) => {
                in_rules = rule_heading(h.as_str());
                if !h.as_str().is_empty() {
                    heading = h;
                }
                count = 0;
            },
            None => {
                if in_rules && out.len() < MAX_CANDIDATES {
                    if let Some(text) = bullet_of(line) {
                        if !text.as_str().is_empty() {
                            count += 1;
                            let mut id = slugify(heading.as_str());
                            id.append("-");
                            id.append(number(count as u64).as_str());
                            let mut because = owned("seeded verbatim from README.md, section '");
                            because.append(heading.as_str());
                            because.append("' — verify and edit before relying on this");
                            let c = Candidate { id, decision: text, because };
                            let ghost cv = c.deep_view();
                            out.push(c);
                            assert(out.deep_view() =~= so_far.push(cv));
                        }
                    }
                }
            },
        }
        i += 1;
    }
    assert(lv.take(i as int) =~= lv);
    out
}

// ---------------------------------------------------------------------------
// Seeding
// ---------------------------------------------------------------------------

pub open spec fn is_declared(decisions: Seq<DecisionView>, c: CandidateView) -> bool {
    exists|i: int|
        0 <= i < decisions.len() && ((#[trigger] decisions[i]).decision == c.decision
            || decisions[i].id == c.id)
}

pub open spec fn each_undeclared(decisions: Seq<DecisionView>) -> spec_fn(
    CandidateView,
) -> Option<CandidateView> {
    |c: CandidateView|
        if is_declared(decisions, c) {
            None
        } else {
            Some(c)
        }
}

/// The decisions that a README states and nobody declared.
pub open spec fn undeclared(readme: Seq<char>, decisions: Seq<DecisionView>) -> Seq<CandidateView> {
    candidates(readme).filter_map(each_undeclared(decisions))
}

/// A text for the inside of a TOML string.
pub open spec fn toml_escaped(s: Seq<char>) -> Seq<char> {
    replace_char(replace_char(s, '\\', "\\\\"@), '"', "\\\""@)
}

pub open spec fn attribution(by: Option<Seq<char>>) -> Seq<char> {
    match by {
        Some(who) => "proposed_by = \""@ + toml_escaped(who) + "\"\n"@,
        None => ""@,
    }
}

pub open spec fn entry_text(c: CandidateView, by: Option<Seq<char>>) -> Seq<char> {
    "[[decision]]\nid = \""@ + toml_escaped(c.id) + "\"\ndecision = \""@ + toml_escaped(c.decision)
        + "\"\nbecause = \""@ + toml_escaped(c.because) + "\"\n"@ + attribution(by) + "\n"@
}

pub open spec fn entries_text(list: Seq<CandidateView>, by: Option<Seq<char>>) -> Seq<char>
    decreases list.len(),
{
    if list.len() == 0 {
        ""@
    } else {
        entries_text(list.drop_last(), by) + entry_text(list.last(), by)
    }
}

/// What is appended to the settings: never anything but new entries.
pub open spec fn seeded_text(list: Seq<CandidateView>, by: Option<Seq<char>>, has_file: bool) -> Seq<
    char,
> {
    (if has_file {
        "\n"@
    } else {
        "# Seeded by `archietect seed` from README.md — verify each entry.\n"@
    }) + entries_text(list, by)
}

fn declared(decisions: &Vec<Decision>, c: &Candidate) -> (r: bool)
    ensures
        r == is_declared(decisions.deep_view(), c.deep_view()),
{
    let ghost dv = decisions.deep_view();
    let mut i: usize = 0;
    while i < decisions.len()
        invariant
            i <= decisions.len(),
            dv == decisions.deep_view(),
            forall|j: int|
                0 <= j < i ==> (#[trigger] dv[j]).decision != c.decision@ && dv[j].id != c.id@,
        decreases decisions.len() - i,
    {
        assert(dv[i as int] == decisions[i as int].deep_view());
        if same(decisions[i].decision.as_str(), c.decision.as_str()) || same(
            decisions[i].id.as_str(),
            c.id.as_str(),
        ) {
            return true;
        }
        i += 1;
    }
    false
}

fn undeclared_in(readme: &str, decisions: &Vec<Decision>) -> (r: Vec<Candidate>)
    ensures
        r.deep_view() == undeclared(readme@, decisions.deep_view()),
{
    let found = extract_candidates(readme);
    let ghost all = found.deep_view();
    let ghost f = each_undeclared(decisions.deep_view());
    let mut out: Vec<Candidate> = Vec::new();
    let mut i: usize = 0;
    proof {
        assert(all.take(0) =~= seq![]);
        reveal(Seq::filter_map);
    }
    while i < found.len()
        invariant
            i <= found.len(),
            all == found.deep_view(),
            f == each_undeclared(decisions.deep_view()),
            out.deep_view() =~= all.take(i as int).filter_map(f),
        decreases found.len() - i,
    {
        let ghost so_far = out.deep_view();
        proof {
            all.lemma_filter_map_take_succ(f, i as int);
        }
        let c = &found[i];
        assert(all[i as int] == c.deep_view());
        if !declared(decisions, c) {
            out.push(
                Candidate {
                    id: owned(c.id.as_str()),
                    decision: owned(c.decision.as_str()),
                    because: owned(c.because.as_str()),
                },
            );
            assert(out.deep_view() =~= so_far.push(c.deep_view()));
        }
        i += 1;
    }
    assert(all.take(i as int) =~= all);
    out
}

fn escape_toml_string(s: &str) -> (r: String)
    ensures
        r@ == toml_escaped(s@),
{
    with_replaced(with_replaced(s, '\\', "\\\\").as_str(), '"', "\\\"")
}

fn append_entry(out: &mut String, c: &Candidate, by: Option<&str>)
    ensures
        final(out)@ == old(out)@ + entry_text(
            c.deep_view(),
            match by {
                Some(w) => Some(w@),
                None => None,
            },
        ),
{
    let ghost start = out@;
    let mut e = owned("[[decision]]\nid = \"");
    e.append(escape_toml_string(c.id.as_str()).as_str());
    e.append("\"\ndecision = \"");
    e.append(escape_toml_string(c.decision.as_str()).as_str());
    e.append("\"\nbecause = \"");
    e.append(escape_toml_string(c.because.as_str()).as_str());
    e.append("\"\n");
    if let Some(who) = by {
        let mut a = owned("proposed_by = \"");
        a.append(escape_toml_string(who).as_str());
        a.append("\"\n");
        e.append(a.as_str());
    } else {
        e.append("");
    }
    e.append("\n");
    out.append(e.as_str());
}

fn seeded(list: &Vec<Candidate>, by: Option<&str>, has_file: bool) -> (r: String)
    ensures
        r@ == seeded_text(
            list.deep_view(),
            match by {
                Some(w) => Some(w@),
                None => None,
            },
            has_file,
        ),
{
    let ghost lv = list.deep_view();
    let ghost bv = match by {
        Some(w) => Some(w@),
        None => None,
    };
    let mut out = if has_file {
        owned("\n")
    } else {
        owned("# Seeded by `archietect seed` from README.md — verify each entry.\n")
    };
    let ghost start = out@;
    let mut i: usize = 0;
    proof {
        reveal_strlit("");
        assert(start + entries_text(lv.take(0), bv) =~= start);
    }
    while i < list.len()
        invariant
            i <= list.len(),
            lv == list.deep_view(),
            bv == (match by {
                Some(w) => Some(w@),
                None => None,
            }),
            out@ == start + entries_text(lv.take(i as int), bv),
        decreases list.len() - i,
    {
        proof {
            let step = lv.take(i + 1);
            assert(step.drop_last() =~= lv.take(i as int));
            assert(step.last() == list[i as int].deep_view());
        }
        let ghost before = out@;
        append_entry(&mut out, &list[i], by);
        assert(out@ =~= start + (entries_text(lv.take(i as int), bv) + entry_text(
            lv[i as int],
            bv,
        )));
        i += 1;
    }
    assert(lv.take(i as int) =~= lv);
    out
}

/// What seeding comes to.
#[derive(Debug)]
pub enum Seeding {
    /// There is no README to read.
    NoReadme,
    /// Nothing that is not declared already.
    NothingNew,
    /// The new decisions, and the text to append where they are to be written.
    Found(Vec<Candidate>, Option<String>),
}

pub enum SeedingView {
    NoReadme,
    NothingNew,
    Found(Seq<CandidateView>, Option<Seq<char>>),
}

impl DeepView for Seeding {
    type V = SeedingView;

    open spec fn deep_view(&self) -> SeedingView {
        match self {
            Seeding::NoReadme => SeedingView::NoReadme,
            Seeding::NothingNew => SeedingView::NothingNew,
            Seeding::Found(c, t) => SeedingView::Found(c.deep_view(), t.deep_view()),
        }
    }
}

pub open spec fn seeding(
    readme: Option<Seq<char>>,
    decisions: Seq<DecisionView>,
    write: bool,
    by: Option<Seq<char>>,
    has_file: bool,
) -> SeedingView {
    match readme {
        None => SeedingView::NoReadme,
        Some(text) => {
            let new = undeclared(text, decisions);
            if new.len() == 0 {
                SeedingView::NothingNew
            } else {
                SeedingView::Found(
                    new,
                    if write {
                        Some(seeded_text(new, by, has_file))
                    } else {
                        None
                    },
                )
            }
        },
    }
}

/// The decisions that a README states and nobody declared yet, and, where they
/// are to be written, the text to append to the settings. `has_file` says
/// whether there are settings to append to.
pub fn seed(
    readme: Option<&str>,
    decisions: &Vec<Decision>,
    write: bool,
    proposed_by: Option<&str>,
    has_file: bool,
) -> (r: Seeding)
    ensures
        r.deep_view() == seeding(
            match readme {
                Some(t) => Some(t@),
                None => None,
            },
            decisions.deep_view(),
            write,
            match proposed_by {
                Some(w) => Some(w@),
                None => None,
            },
            has_file,
        ),
{
    match readme {
        None => Seeding::NoReadme,
        Some(text) => {
            let new = undeclared_in(text, decisions);
            assert(new.deep_view().len() == new@.len());
            if new.len() == 0 {
                Seeding::NothingNew
            } else {
                let block = if write {
                    Some(seeded(&new, proposed_by, has_file))
                } else {
                    None
                };
                Seeding::Found(new, block)
            }
        },
    }
}

// ---------------------------------------------------------------------------
// Laws
// ---------------------------------------------------------------------------

proof fn lemma_dashed(s: Seq<char>)
    requires
        has_no_capitals(s),
    ensures
        is_dashed(dashed(s).0),
        dashed(s).1 <==> dashed(s).0.len() > 0 && dashed(s).0.last() == '-',
        (forall|i: int| 0 <= i < s.len() ==> !is_alnum(#[trigger] s[i])) ==> dashed(s).0.len() == 0,
    decreases s.len(),
{
    if s.len() > 0 {
        let front = s.drop_last();
        assert forall|i: int| 0 <= i < front.len() implies !is_upper(#[trigger] front[i]) by {
            assert(front[i] == s[i]);
        }
        lemma_dashed(front);
        assert(!is_upper(s[s.len() - 1]));
        let d = dashed(front).0;
        let r = dashed(s).0;
        if r != d {
            let x = r.last();
            assert(r =~= d.push(x));
            assert forall|i: int| 0 <= i < r.len() && #[trigger] r[i] == '-' implies i > 0 && r[i - 1]
                != '-' by {
                if i < d.len() {
                    assert(d[i] == '-');
                    assert(r[i - 1] == d[i - 1]);
                } else {
                    assert(d.len() > 0 && r[i - 1] == d.last());
                }
            }
        }
        if forall|i: int| 0 <= i < s.len() ==> !is_alnum(#[trigger] s[i]) {
            assert forall|i: int| 0 <= i < front.len() implies !is_alnum(#[trigger] front[i]) by {
                assert(front[i] == s[i]);
            }
            assert(!is_alnum(s[s.len() - 1]));
        }
    }
}

proof fn lemma_dashed_stays(t: Seq<char>)
    requires
        is_dashed(t),
    ensures
        dashed(t).0 == t,
    decreases t.len(),
{
    if t.len() > 0 {
        let front = t.drop_last();
        assert forall|i: int| 0 <= i < front.len() implies is_lower(#[trigger] front[i]) || is_digit(
            front[i],
        ) || front[i] == '-' by {
            assert(front[i] == t[i]);
        }
        assert forall|i: int| 0 <= i < front.len() && #[trigger] front[i] == '-' implies i > 0
            && front[i - 1] != '-' by {
            assert(t[i] == '-');
            assert(front[i - 1] == t[i - 1]);
        }
        lemma_dashed_stays(front);
        assert forall|i: int| 0 <= i < front.len() implies !is_upper(#[trigger] front[i]) by {}
        lemma_dashed(front);
        assert(t =~= front.push(t.last()));
        assert(is_lower(t[t.len() - 1]) || is_digit(t[t.len() - 1]) || t[t.len() - 1] == '-');
        if t.last() == '-' {
            assert(t[t.len() - 1] == '-');
            assert(front.last() == t[t.len() - 2]);
        }
    } else {
        assert(dashed(t).0 =~= t);
    }
}

proof fn lemma_trimmed_dashes(d: Seq<char>)
    requires
        is_dashed(d),
    ensures
        ({
            let t = trim_end_of(d, CharClass::Is('-'));
            &&& is_dashed(t)
            &&& t.len() > 0 ==> t.last() != '-'
            &&& d.len() > 0 ==> t.len() > 0
        }),
{
    reveal_with_fuel(crate::text::back_run, 3);
    let t = trim_end_of(d, CharClass::Is('-'));
    if d.len() > 0 && d.last() == '-' {
        assert(d[d.len() - 1] == '-');
        assert(d.drop_last().last() == d[d.len() - 2]);
        assert(t =~= d.drop_last());
    } else {
        assert(t =~= d);
    }
    assert forall|i: int| 0 <= i < t.len() implies is_lower(#[trigger] t[i]) || is_digit(t[i])
        || t[i] == '-' by {
        assert(t[i] == d[i]);
    }
    assert forall|i: int| 0 <= i < t.len() && #[trigger] t[i] == '-' implies i > 0 && t[i - 1]
        != '-' by {
        assert(d[i] == '-');
        assert(t[i - 1] == d[i - 1]);
    }
}

/// A slug is not empty, holds nothing but small letters, digits and single dashes
/// between them, and is its own slug. Of a text without letters and digits it is
/// `section`.
pub proof fn law_slugs_are_their_own(s: Seq<char>)
    requires
        has_no_capitals(lowered(s)),
    ensures
        is_slug(slug(s)),
        slug(slug(s)) == slug(s),
        (forall|i: int| 0 <= i < lowered(s).len() ==> !is_alnum(#[trigger] lowered(s)[i])) ==> slug(
            s,
        ) == "section"@,
{
    reveal_strlit("section");
    lemma_dashed(lowered(s));
    lemma_trimmed_dashes(dashed(lowered(s)).0);
    let t = slug(s);
    assert(is_slug(t));
    assert forall|i: int| 0 <= i < t.len() implies crate::text::lower_char(#[trigger] t[i]) == t[i]
        && t[i] as u32 <= 127 by {}
    assert(lowered(t) =~= t);
    lemma_dashed_stays(t);
    assert(trim_end_of(t, CharClass::Is('-')) =~= t);
}

/// A dry run writes nothing.
pub proof fn law_dry_run_writes_nothing(
    readme: Option<Seq<char>>,
    decisions: Seq<DecisionView>,
    by: Option<Seq<char>>,
    has_file: bool,
)
    ensures
        seeding(readme, decisions, false, by, has_file) matches SeedingView::Found(_, t) ==> t is None,
{
}

/// Once every candidate is declared there is nothing to seed, whatever else is
/// declared beside them.
pub proof fn law_seeding_twice_adds_nothing(
    readme: Seq<char>,
    decisions: Seq<DecisionView>,
    write: bool,
    by: Option<Seq<char>>,
    has_file: bool,
)
    requires
        forall|i: int|
            0 <= i < candidates(readme).len() ==> is_declared(
                decisions,
                #[trigger] candidates(readme)[i],
            ),
    ensures
        seeding(Some(readme), decisions, write, by, has_file) == SeedingView::NothingNew,
{
    let all = candidates(readme);
    let f = each_undeclared(decisions);
    let new = all.filter_map(f);
    if new.len() > 0 {
        assert(new.contains(new[0]));
        all.lemma_filter_map_contains(f, new[0]);
        let k = choose|k: int| 0 <= k < all.len() && #[trigger] f(all[k]) == Some(new[0]);
        assert(is_declared(decisions, all[k]));
    }
}

proof fn lemma_reading(ls: Seq<Seq<char>>)
    ensures
        read_lines(ls).found.len() <= 30,
        forall|i: int|
            0 <= i < read_lines(ls).found.len() ==> (#[trigger] read_lines(ls).found[i]).decision.len()
                > 0,
    decreases ls.len(),
{
    if ls.len() > 0 {
        lemma_reading(ls.drop_last());
    }
}

proof fn lemma_candidate_is_a_bullet(ls: Seq<Seq<char>>, i: int)
    requires
        0 <= i < read_lines(ls).found.len(),
    ensures
        exists|k: int|
            0 <= k < ls.len() && bullet_in(#[trigger] ls[k]) == Some(
                read_lines(ls).found[i].decision,
            ),
    decreases ls.len(),
{
    let rest = ls.drop_last();
    let before = read_lines(rest).found;
    if i < before.len() {
        lemma_candidate_is_a_bullet(rest, i);
        let k = choose|k: int|
            0 <= k < rest.len() && bullet_in(#[trigger] rest[k]) == Some(before[i].decision);
        assert(bullet_in(ls[k]) == Some(read_lines(ls).found[i].decision));
    } else {
        assert(bullet_in(ls[ls.len() - 1]) == Some(read_lines(ls).found[i].decision));
    }
}

/// What is proposed stands in the README word for word, as a point of a list.
pub proof fn law_candidates_are_verbatim(readme: Seq<char>, i: int)
    requires
        0 <= i < candidates(readme).len(),
    ensures
        exists|k: int|
            0 <= k < lines(readme).len() && bullet_in(#[trigger] lines(readme)[k]) == Some(
                candidates(readme)[i].decision,
            ),
{
    lemma_candidate_is_a_bullet(lines(readme), i);
}

/// A README never floods the settings: at most thirty candidates, none empty.
pub proof fn law_candidates_are_few(readme: Seq<char>)
    ensures
        candidates(readme).len() <= 30,
        forall|i: int|
            0 <= i < candidates(readme).len() ==> (#[trigger] candidates(readme)[i]).decision.len()
                > 0,
{
    lemma_reading(lines(readme));
}

} // verus!
