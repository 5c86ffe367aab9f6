//! The map of what is known and what is not: where answers end, why, and how to
//! establish the rest by other means.
use vstd::prelude::*;
use crate::model::{first_of, shortened, ConceptView, Index, IndexView, Tier};
use crate::permissions::{
    confirmation_state, each_report, known_domains, recorded, report, str_view, DomainReport,
    DomainReportView, PermissionConfig, PermissionConfigView,
};
use crate::survey::{dead_of, each_dead, index_freshness, status, status_of, Status, StatusView};
use crate::table::{sorted_distinct, sorted_set};
use crate::text::{owned, same};

verus! {

pub const WHY_LANGUAGE: &'static str =
    "no structural extractor for this language — a concept implemented only here gets INSUFFICIENT_COVERAGE, never a guessed ABSENT";

pub const HOW_LANGUAGE: &'static str =
    "read the listed files directly; or add an extractor (`archietect proposal submit --kind extractor`)";

pub const WHY_GIT_OBSERVED: &'static str =
    "remotes are Declared from .git/config (git_domain.rs); only the current branch is Observed (.git/HEAD). Whether a remote is reachable, or whether the local branch is ahead of/behind it, is never observed — unknown here by construction, not 'in sync'";

pub const HOW_GIT_OBSERVED: &'static str =
    "observe it yourself: `git fetch --dry-run` / `git status -sb`. Such a fact would be Observed-tier and is not established by archietect today";

pub const WHY_DOCUMENTS_EXPLICIT: &'static str =
    "no mechanism exists for a user to tag or label a document; the extractor produces Derived-tier facts only (filename/extension/size/mtime, documents_domain.rs)";

pub const HOW_DOCUMENTS_EXPLICIT: &'static str =
    "archietect cannot help today: there is no tagging surface. A user-asserted fact about a document would be Explicit-tier and has nowhere to be recorded yet";

pub const WHY_DOCUMENTS_INFERRED: &'static str =
    "content is never read (documents_domain.rs: only read_dir + metadata), so nothing about what a document is ABOUT can be inferred — by design, not omission";

pub const HOW_DOCUMENTS_INFERRED: &'static str =
    "archietect cannot help: read the document yourself. Any conclusion about its contents would be Inferred-tier and must never be recorded as Derived or Declared";

pub const WHY_UNCONFIRMED: &'static str =
    "unstructured domains require a one-time interactive confirmation before anything is looked at; none has been recorded, so nothing in this domain has been observed";

pub const WHY_DECLINED: &'static str =
    "a prior interactive confirmation answered no; it is not re-asked, so nothing in this domain has been looked at";

pub const WHY_DISABLED: &'static str =
    "disabled by permission config — nothing in this domain has been looked at, so its absence from any answer is a boundary, not a finding";

pub const WHY_UNUSED: &'static str =
    "declared, but no observed access in the access styles v0 parses (raw drivers, GraphQL resolvers, services in other repos are invisible) — absence at USED tier only, not proof of death";

pub const HOW_UNUSED: &'static str =
    "check for an access style archietect cannot see, or accept DECLARED_ONLY as the verdict";

/// Something that is not known, and why.
#[derive(Debug)]
pub struct Gap {
    pub kind: &'static str,
    pub domain: Option<String>,
    pub tier: Option<Tier>,
    /// What decided that a domain is not read.
    pub source: Option<String>,
    pub languages: Vec<String>,
    /// The first of the files or concepts in question.
    pub items: Vec<String>,
    /// How many there are in all.
    pub count: usize,
    pub why: &'static str,
    pub how_to_establish: String,
}

pub struct GapView {
    pub kind: Seq<char>,
    pub domain: Option<Seq<char>>,
    pub tier: Option<Tier>,
    pub source: Option<Seq<char>>,
    pub languages: Seq<Seq<char>>,
    pub items: Seq<Seq<char>>,
    pub count: nat,
    pub why: Seq<char>,
    pub how_to_establish: Seq<char>,
}

impl DeepView for Gap {
    type V = GapView;

    open spec fn deep_view(&self) -> GapView {
        GapView {
            kind: self.kind@,
            domain: self.domain.deep_view(),
            tier: match self.tier {
                Some(t) => Some(t),
                None => None,
            },
            source: self.source.deep_view(),
            languages: self.languages.deep_view(),
            items: self.items.deep_view(),
            count: self.count as nat,
            why: self.why@,
            how_to_establish: self.how_to_establish@,
        }
    }
}

/// A gap that concerns a domain.
pub open spec fn domain_gap(
    kind: Seq<char>,
    domain: Seq<char>,
    tier: Option<Tier>,
    source: Option<Seq<char>>,
    why: Seq<char>,
    how: Seq<char>,
) -> GapView {
    GapView {
        kind,
        domain: Some(domain),
        tier,
        source,
        languages: seq![],
        items: seq![],
        count: 0,
        why,
        how_to_establish: how,
    }
}

/// A domain's line in the map: what the settings say, and what somebody
/// answered.
#[derive(Debug)]
pub struct DomainLine {
    pub report: DomainReport,
    pub confirmed: Option<bool>,
}

pub struct DomainLineView {
    pub report: DomainReportView,
    pub confirmed: Option<bool>,
}

impl DeepView for DomainLine {
    type V = DomainLineView;

    open spec fn deep_view(&self) -> DomainLineView {
        DomainLineView { report: self.report.deep_view(), confirmed: self.confirmed }
    }
}

/// The domains that can be looked at.
pub open spec fn is_implemented(d: Seq<char>) -> bool {
    d == "code"@ || d == "git"@ || d == "docker"@ || d == "documents"@
}

/// A domain is looked at where the settings allow it, or where they say nothing
/// of it, it is unstructured, and somebody said yes.
pub open spec fn is_looked_at(l: DomainLineView) -> bool {
    l.report.allowed || (!l.report.structured && !l.report.source.is_explicit() && l.confirmed
        == Some(true))
}

/// The kinds of evidence that a domain cannot give, though one might expect it.
pub open spec fn missing_tiers(d: Seq<char>) -> Seq<GapView> {
    if d == "git"@ {
        seq![
            domain_gap(
                "tier_not_producible"@,
                d,
                Some(Tier::Observed),
                None,
                WHY_GIT_OBSERVED@,
                HOW_GIT_OBSERVED@,
            ),
        ]
    } else if d == "documents"@ {
        seq![
            domain_gap(
                "tier_not_producible"@,
                d,
                Some(Tier::Explicit),
                None,
                WHY_DOCUMENTS_EXPLICIT@,
                HOW_DOCUMENTS_EXPLICIT@,
            ),
            domain_gap(
                "tier_not_producible"@,
                d,
                Some(Tier::Inferred),
                None,
                WHY_DOCUMENTS_INFERRED@,
                HOW_DOCUMENTS_INFERRED@,
            ),
        ]
    } else {
        seq![]
    }
}

pub open spec fn how_to_confirm(d: Seq<char>) -> Seq<char> {
    "run `archietect "@ + d
        + " scan --dir <path>` in a terminal and answer the prompt, or set [domains."@ + d
        + "] state = \"enabled\" explicitly in archietect.toml"@
}

pub open spec fn how_to_reconsider(d: Seq<char>) -> Seq<char> {
    "set [domains."@ + d
        + "] state = \"enabled\" explicitly in archietect.toml (an explicit config entry is honored without prompting), or remove the entry from ~/.archietect/confirmations.toml to be asked again"@
}

pub open spec fn how_to_enable(d: Seq<char>) -> Seq<char> {
    "enable it: [domains] "@ + d
        + " = \"enabled\" in archietect.toml (this project) or ~/.archietect/system.toml (every project), then re-run"@
}

/// What is not known of a domain.
pub open spec fn line_gaps(l: DomainLineView) -> Seq<GapView> {
    let d = l.report.domain;
    if !is_implemented(d) {
        seq![]
    } else if is_looked_at(l) {
        missing_tiers(d)
    } else if !l.report.structured && !l.report.source.is_explicit() {
        if l.confirmed is None {
            seq![
                domain_gap(
                    "unstructured_domain_unconfirmed"@,
                    d,
                    None,
                    Some(l.report.source.label_text()),
                    WHY_UNCONFIRMED@,
                    how_to_confirm(d),
                ),
            ]
        } else {
            seq![
                domain_gap(
                    "domain_disabled"@,
                    d,
                    None,
                    Some("confirmation-declined"@),
                    WHY_DECLINED@,
                    how_to_reconsider(d),
                ),
            ]
        }
    } else {
        seq![
            domain_gap(
                "domain_disabled"@,
                d,
                None,
                Some(l.report.source.label_text()),
                WHY_DISABLED@,
                how_to_enable(d),
            ),
        ]
    }
}

pub open spec fn all_line_gaps(lines: Seq<DomainLineView>) -> Seq<GapView>
    decreases lines.len(),
{
    if lines.len() == 0 {
        seq![]
    } else {
        all_line_gaps(lines.drop_last()) + line_gaps(lines.last())
    }
}

pub open spec fn each_language() -> spec_fn((Seq<char>, Seq<char>)) -> Seq<char> {
    |f: (Seq<char>, Seq<char>)| "."@ + f.1 + " (unclassified)"@
}

pub open spec fn each_file() -> spec_fn((Seq<char>, Seq<char>)) -> Seq<char> {
    |f: (Seq<char>, Seq<char>)| f.0
}

/// What is not known of files in languages that nobody classified.
pub open spec fn language_gap(files: Seq<(Seq<char>, Seq<char>)>) -> Seq<GapView> {
    if files.len() == 0 {
        seq![]
    } else {
        seq![
            GapView {
                kind: "unsupported_language"@,
                domain: None,
                tier: None,
                source: None,
                languages: sorted_set(files.map_values(each_language())),
                items: first_of(files.map_values(each_file()), 20),
                count: files.len(),
                why: WHY_LANGUAGE@,
                how_to_establish: HOW_LANGUAGE@,
            },
        ]
    }
}

/// What is not known of concepts that nothing was seen to use.
pub open spec fn usage_gap(idx: IndexView) -> Seq<GapView> {
    let dead = idx.concepts.filter_map(each_dead());
    if dead.len() == 0 {
        seq![]
    } else {
        seq![
            GapView {
                kind: "usage_unobserved"@,
                domain: None,
                tier: None,
                source: None,
                languages: seq![],
                items: first_of(dead, 20),
                count: dead.len(),
                why: WHY_UNUSED@,
                how_to_establish: HOW_UNUSED@,
            },
        ]
    }
}

pub open spec fn each_enabled() -> spec_fn(DomainLineView) -> Option<Seq<char>> {
    |l: DomainLineView|
        if is_implemented(l.report.domain) && is_looked_at(l) {
            Some(l.report.domain)
        } else {
            None
        }
}

/// The latest time at which a concept was verified.
pub open spec fn newest(concepts: Seq<(Seq<char>, ConceptView)>) -> Option<int>
    decreases concepts.len(),
{
    if concepts.len() == 0 {
        None
    } else {
        let t = concepts.last().1.last_verified_ms;
        match newest(concepts.drop_last()) {
            Some(m) => if m > t {
                Some(m)
            } else {
                Some(t)
            },
            None => Some(t),
        }
    }
}

/// The map of what is known and what is not.
#[derive(Debug)]
pub struct Register {
    pub index: &'static str,
    pub newest_verification_ms: Option<i64>,
    pub status: Status,
    pub domains_enabled: Vec<String>,
    pub not_known: Vec<Gap>,
    pub boundary: Vec<DomainLine>,
}

pub struct RegisterView {
    pub index: Seq<char>,
    pub newest_verification_ms: Option<int>,
    pub status: StatusView,
    pub domains_enabled: Seq<Seq<char>>,
    pub not_known: Seq<GapView>,
    pub boundary: Seq<DomainLineView>,
}

impl DeepView for Register {
    type V = RegisterView;

    open spec fn deep_view(&self) -> RegisterView {
        RegisterView {
            index: self.index@,
            newest_verification_ms: match self.newest_verification_ms {
                Some(t) => Some(t as int),
                None => None,
            },
            status: self.status.deep_view(),
            domains_enabled: self.domains_enabled.deep_view(),
            not_known: self.not_known.deep_view(),
            boundary: self.boundary.deep_view(),
        }
    }
}

pub open spec fn not_known(
    idx: IndexView,
    lines: Seq<DomainLineView>,
    unclassified: Seq<(Seq<char>, Seq<char>)>,
) -> Seq<GapView> {
    language_gap(unclassified) + all_line_gaps(lines) + usage_gap(idx)
}

pub open spec fn registered(
    idx: IndexView,
    lines: Seq<DomainLineView>,
    unclassified: Seq<(Seq<char>, Seq<char>)>,
    persisted: bool,
) -> RegisterView {
    RegisterView {
        index: if persisted {
            "current (incremental)"@
        } else {
            "not persisted (this scan ran in-memory)"@
        },
        newest_verification_ms: newest(idx.concepts),
        status: status_of(idx),
        domains_enabled: lines.filter_map(each_enabled()),
        not_known: not_known(idx, lines, unclassified),
        boundary: lines,
    }
}

pub open spec fn each_line(cfg: PermissionConfigView, confirmations: Option<Seq<char>>) -> spec_fn(
    Seq<char>,
) -> DomainLineView {
    |d: Seq<char>|
        {
            let r = each_report(cfg)(d);
            DomainLineView {
                report: r,
                confirmed: if r.structured {
                    None
                } else {
                    recorded(confirmations, d)
                },
            }
        }
}

fn implemented(d: &str) -> (r: bool)
    ensures
        r == is_implemented(d@),
{
    same(d, "code") || same(d, "git") || same(d, "docker") || same(d, "documents")
}

fn looked_at(l: &DomainLine) -> (r: bool)
    ensures
        r == is_looked_at(l.deep_view()),
{
    let yes = match l.confirmed {
        Some(b) => b,
        None => false,
    };
    l.report.allowed || (!l.report.structured && !l.report.source.explicit() && yes)
}

fn gap_of(
    kind: &'static str,
    domain: &str,
    tier: Option<Tier>,
    source: Option<String>,
    why: &'static str,
    how: String,
) -> (r: Gap)
    ensures
        r.deep_view() == domain_gap(
            kind@,
            domain@,
            match tier {
                Some(t) => Some(t),
                None => None,
            },
            source.deep_view(),
            why@,
            how@,
        ),
{
    let languages: Vec<String> = Vec::new();
    let items: Vec<String> = Vec::new();
    assert(languages.deep_view() =~= seq![]);
    assert(items.deep_view() =~= seq![]);
    Gap {
        kind,
        domain: Some(owned(domain)),
        tier,
        source,
        languages,
        items,
        count: 0,
        why,
        how_to_establish: how,
    }
}

fn how_confirm(d: &str) -> (r: String)
    ensures
        r@ == how_to_confirm(d@),
{
    let mut out = owned("run `archietect ");
    out.append(d);
    out.append(" scan --dir <path>` in a terminal and answer the prompt, or set [domains.");
    out.append(d);
    out.append("] state = \"enabled\" explicitly in archietect.toml");
    out
}

fn how_reconsider(d: &str) -> (r: String)
    ensures
        r@ == how_to_reconsider(d@),
{
    let mut out = owned("set [domains.");
    out.append(d);
    out.append(
        "] state = \"enabled\" explicitly in archietect.toml (an explicit config entry is honored without prompting), or remove the entry from ~/.archietect/confirmations.toml to be asked again",
    );
    out
}

fn how_enable(d: &str) -> (r: String)
    ensures
        r@ == how_to_enable(d@),
{
    let mut out = owned("enable it: [domains] ");
    out.append(d);
    out.append(
        " = \"enabled\" in archietect.toml (this project) or ~/.archietect/system.toml (every project), then re-run",
    );
    out
}

fn gaps_of(l: &DomainLine) -> (r: Vec<Gap>)
    ensures
        r.deep_view() == line_gaps(l.deep_view()),
{
    let d = l.report.domain.as_str();
    let mut out: Vec<Gap> = Vec::new();
    if !implemented(d) {
        assert(out.deep_view() =~= seq![]);
    } else if looked_at(l) {
        if same(d, "git") {
            out.push(
                gap_of(
                    "tier_not_producible",
                    d,
                    Some(Tier::Observed),
                    None,
                    WHY_GIT_OBSERVED,
                    owned(HOW_GIT_OBSERVED),
                ),
            );
        } else if same(d, "documents") {
            out.push(
                gap_of(
                    "tier_not_producible",
                    d,
                    Some(Tier::Explicit),
                    None,
                    WHY_DOCUMENTS_EXPLICIT,
                    owned(HOW_DOCUMENTS_EXPLICIT),
                ),
            );
            out.push(
                gap_of(
                    "tier_not_producible",
                    d,
                    Some(Tier::Inferred),
                    None,
                    WHY_DOCUMENTS_INFERRED,
                    owned(HOW_DOCUMENTS_INFERRED),
                ),
            );
        }
        assert(out.deep_view() =~= missing_tiers(d@));
    } else if !l.report.structured && !l.report.source.explicit() {
        if l.confirmed.is_none() {
            out.push(
                gap_of(
                    "unstructured_domain_unconfirmed",
                    d,
                    None,
                    Some(owned(l.report.source.label())),
                    WHY_UNCONFIRMED,
                    how_confirm(d),
                ),
            );
        } else {
            out.push(
                gap_of(
                    "domain_disabled",
                    d,
                    None,
                    Some(owned("confirmation-declined")),
                    WHY_DECLINED,
                    how_reconsider(d),
                ),
            );
        }
    } else {
        out.push(
            gap_of(
                "domain_disabled",
                d,
                None,
                Some(owned(l.report.source.label())),
                WHY_DISABLED,
                how_enable(d),
            ),
        );
    }
    assert(out.deep_view() =~= line_gaps(l.deep_view()));
    out
}

fn language_gap_of(files: &Vec<(String, String)>) -> (r: Vec<Gap>)
    ensures
        r.deep_view() == language_gap(files.deep_view()),
{
    let mut out: Vec<Gap> = Vec::new();
    assert(out.deep_view() =~= seq![]);
    assert(files.deep_view().len() == files@.len());
    if files.len() == 0 {
        return out;
    }
    let ghost ls = files.deep_view().map_values(each_language());
    let ghost fs = files.deep_view().map_values(each_file());
    let mut languages: Vec<String> = Vec::new();
    let mut items: Vec<String> = Vec::new();
    let mut i: usize = 0;
    while i < files.len()
        invariant
            i <= files.len(),
            ls == files.deep_view().map_values(each_language()),
            fs == files.deep_view().map_values(each_file()),
            languages.deep_view() =~= ls.take(i as int),
            items.deep_view() =~= fs.take(i as int),
        decreases files.len() - i,
    {
        let ghost l = languages.deep_view();
        let ghost f = items.deep_view();
        assert(files.deep_view()[i as int] == files[i as int].deep_view());
        let mut x = owned(".");
        x.append(files[i].1.as_str());
        x.append(" (unclassified)");
        assert(x@ == ls[i as int]);
        languages.push(x);
        items.push(owned(files[i].0.as_str()));
        assert(languages.deep_view() =~= l.push(ls[i as int]));
        assert(items.deep_view() =~= f.push(fs[i as int]));
        i += 1;
    }
    assert(ls.take(i as int) =~= ls);
    assert(fs.take(i as int) =~= fs);
    let g = Gap {
        kind: "unsupported_language",
        domain: None,
        tier: None,
        source: None,
        languages: sorted_distinct(&languages),
        items: shortened(items, 20),
        count: files.len(),
        why: WHY_LANGUAGE,
        how_to_establish: owned(HOW_LANGUAGE),
    };
    let ghost gv = g.deep_view();
    out.push(g);
    assert(out.deep_view() =~= seq![gv]);
    out
}

fn usage_gap_of(idx: &Index) -> (r: Vec<Gap>)
    ensures
        r.deep_view() == usage_gap(idx.deep_view()),
{
    let mut out: Vec<Gap> = Vec::new();
    assert(out.deep_view() =~= seq![]);
    let dead = dead_of(idx);
    let n: usize = dead.len();
    assert(dead.deep_view().len() == n);
    if n == 0 {
        return out;
    }
    let languages: Vec<String> = Vec::new();
    assert(languages.deep_view() =~= seq![]);
    let g = Gap {
        kind: "usage_unobserved",
        domain: None,
        tier: None,
        source: None,
        languages,
        items: shortened(dead, 20),
        count: n,
        why: WHY_UNUSED,
        how_to_establish: owned(HOW_UNUSED),
    };
    let ghost gv = g.deep_view();
    out.push(g);
    assert(out.deep_view() =~= seq![gv]);
    out
}

fn newest_of(idx: &Index) -> (r: Option<i64>)
    ensures
        match r {
            Some(t) => newest(idx.deep_view().concepts) == Some(t as int),
            None => newest(idx.deep_view().concepts) is None,
        },
{
    let ghost cv = idx.concepts.deep_view();
    let n: usize = idx.concepts.len();
    let mut best: Option<i64> = None;
    let mut i: usize = 0;
    while i < n
        invariant
            i <= n,
            n == cv.len(),
            cv == idx.concepts.deep_view(),
            match best {
                Some(t) => newest(cv.take(i as int)) == Some(t as int),
                None => newest(cv.take(i as int)) is None,
            },
        decreases n - i,
    {
        proof {
            let step = cv.take(i + 1);
            assert(step.drop_last() =~= cv.take(i as int));
            assert(step.last() == cv[i as int]);
        }
        let t: i64 = idx.concepts.value(i).last_verified_ms;
        best = match best {
            Some(m) => if m > t {
                Some(m)
            } else {
                Some(t)
            },
            None => Some(t),
        };
        i += 1;
    }
    assert(cv.take(i as int) =~= cv);
    best
}

/// The map for an index, given the line of each domain. `unclassified` holds the
/// files in languages that nobody classified, with their endings; `persisted`
/// says whether the index is kept on disk.
pub fn register_given(
    idx: &Index,
    lines: Vec<DomainLine>,
    unclassified: &Vec<(String, String)>,
    persisted: bool,
) -> (r: Register)
    ensures
        r.deep_view() == registered(
            idx.deep_view(),
            lines.deep_view(),
            unclassified.deep_view(),
            persisted,
        ),
{
    let ghost lv = lines.deep_view();
    let ghost f = each_enabled();
    let mut gaps = language_gap_of(unclassified);
    let ghost start = gaps.deep_view();
    let mut domains_enabled: Vec<String> = Vec::new();
    let mut i: usize = 0;
    proof {
        assert(lv.take(0) =~= seq![]);
        reveal(Seq::filter_map);
        assert(start + all_line_gaps(lv.take(0)) =~= start);
    }
    while i < lines.len()
        invariant
            i <= lines.len(),
            lv == lines.deep_view(),
            f == each_enabled(),
            domains_enabled.deep_view() =~= lv.take(i as int).filter_map(f),
            gaps.deep_view() =~= start + all_line_gaps(lv.take(i as int)),
        decreases lines.len() - i,
    {
        let ghost e = domains_enabled.deep_view();
        let ghost g = gaps.deep_view();
        let l = &lines[i];
        proof {
            lv.lemma_filter_map_take_succ(f, i as int);
            let step = lv.take(i + 1);
            assert(step.drop_last() =~= lv.take(i as int));
            assert(step.last() == l.deep_view());
            assert(lv[i as int] == l.deep_view());
        }
        if implemented(l.report.domain.as_str()) && looked_at(l) {
            domains_enabled.push(owned(l.report.domain.as_str()));
            assert(domains_enabled.deep_view() =~= e.push(l.report.domain@));
        }
        let mut more = gaps_of(l);
        let ghost mv = more.deep_view();
        gaps.append(&mut more);
        assert(gaps.deep_view() =~= g + mv);
        i += 1;
    }
    assert(lv.take(i as int) =~= lv);
    let ghost g = gaps.deep_view();
    let mut more = usage_gap_of(idx);
    let ghost mv = more.deep_view();
    gaps.append(&mut more);
    assert(gaps.deep_view() =~= g + mv);
    Register {
        index: index_freshness(persisted),
        newest_verification_ms: newest_of(idx),
        status: status(idx),
        domains_enabled,
        not_known: gaps,
        boundary: lines,
    }
}

/// The line of each known domain, from the settings and the answers that were
/// recorded.
pub fn domain_lines(cfg: &PermissionConfig, confirmations: Option<&str>) -> (r: Vec<DomainLine>)
    ensures
        r.deep_view() == known_domains().map_values(
            each_line(cfg.deep_view(), str_view(confirmations)),
        ),
{
    let ghost all = known_domains().map_values(each_line(cfg.deep_view(), str_view(confirmations)));
    let mut reports = report(cfg);
    let ghost rv = reports.deep_view();
    let mut out: Vec<DomainLine> = Vec::new();
    let ghost mut n: int = 0;
    assert(rv.skip(0) =~= rv);
    while reports.len() > 0
        invariant
            0 <= n <= rv.len(),
            rv == known_domains().map_values(each_report(cfg.deep_view())),
            all == known_domains().map_values(each_line(cfg.deep_view(), str_view(confirmations))),
            reports.deep_view() =~= rv.skip(n),
            out.deep_view() =~= all.take(n),
        decreases reports.len(),
    {
        let ghost front = reports.deep_view();
        let ghost so_far = out.deep_view();
        let x = reports.remove(0);
        proof {
            assert(front.len() > 0);
            assert(front == rv.skip(n));
            assert(front[0] == x.deep_view());
            assert(rv.skip(n)[0] == rv[n]);
            assert(reports.deep_view() =~= front.skip(1));
        }
        let confirmed = if x.structured {
            None
        } else {
            confirmation_state(confirmations, x.domain.as_str())
        };
        let line = DomainLine { report: x, confirmed };
        assert(line.deep_view() == all[n]);
        out.push(line);
        assert(out.deep_view() =~= so_far.push(all[n]));
        proof {
            n = n + 1;
        }
    }
    assert(all.take(n) =~= all);
    out
}

/// The map for an index, a project's settings and the answers that were
/// recorded.
pub fn register(
    idx: &Index,
    cfg: &PermissionConfig,
    confirmations: Option<&str>,
    unclassified: &Vec<(String, String)>,
    persisted: bool,
) -> (r: Register)
    ensures
        r.deep_view() == registered(
            idx.deep_view(),
            known_domains().map_values(each_line(cfg.deep_view(), str_view(confirmations))),
            unclassified.deep_view(),
            persisted,
        ),
{
    register_given(idx, domain_lines(cfg, confirmations), unclassified, persisted)
}

// ---------------------------------------------------------------------------
// Laws
// ---------------------------------------------------------------------------

/// Every domain that can be looked at is either looked at, or the map says why
/// not in exactly one entry.
pub proof fn law_every_boundary_is_named(l: DomainLineView)
    requires
        is_implemented(l.report.domain),
    ensures
        is_looked_at(l) <==> each_enabled()(l) is Some,
        !is_looked_at(l) ==> line_gaps(l).len() == 1 && line_gaps(l)[0].domain == Some(
            l.report.domain,
        ),
{
}

/// The map holds no empty categories: it speaks of unread languages, and of
/// unused concepts, only where there are some.
pub proof fn law_no_empty_categories(
    idx: IndexView,
    unclassified: Seq<(Seq<char>, Seq<char>)>,
)
    ensures
        language_gap(unclassified).len() == 0 <==> unclassified.len() == 0,
        usage_gap(idx).len() == 0 <==> idx.concepts.filter_map(each_dead()).len() == 0,
        unclassified.len() > 0 ==> language_gap(unclassified)[0].count == unclassified.len(),
{
}

} // verus!
