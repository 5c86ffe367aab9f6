//! The protocol for proposed changes: what a patch may touch, how a test of it
//! ends, and when it may be applied.
use vstd::prelude::*;
use crate::invariants::{Violation, ViolationView};
use crate::numbers::{unsigned, unsigned_value};
use crate::order::{in_order, law_sorting_orders, stable_sort, Ranked};
use crate::outside::{found, found_in, group_text, group_text_of};
use crate::patch::outcome;
use crate::permissions::str_view;
use crate::table::{sorted_distinct, sorted_set};
use crate::text::{decimal, join, lines, split, starts_with, strip_prefix, trim};
use crate::text::{
    after_prefix, begins, blank, chars_of, copied_option, cut, joined, lines_of, number, owned,
    same, split_at_char, trimmed,
};

verus! {

/// What a proposal proposes.
#[derive(Clone, Copy, Debug, PartialEq, Eq, Structural)]
pub enum Kind {
    /// New code that reads a language.
    Extractor,
    /// A new decision in the settings.
    Decision,
    /// A new alias in the settings.
    Alias,
}

/// Where a proposal stands.
#[derive(Clone, Copy, Debug, PartialEq, Eq, Structural)]
pub enum Status {
    Pending,
    Passed,
    Failed,
    Accepted,
    Rejected,
}

impl Kind {
    pub open spec fn label_text(self) -> Seq<char> {
        match self {
            Kind::Extractor => "extractor"@,
            Kind::Decision => "decision"@,
            Kind::Alias => "alias"@,
        }
    }

    pub fn label(&self) -> (r: &'static str)
        ensures
            r@ == self.label_text(),
    {
        match self {
            Kind::Extractor => "extractor",
            Kind::Decision => "decision",
            Kind::Alias => "alias",
        }
    }
}

impl Status {
    pub open spec fn name_text(self) -> Seq<char> {
        match self {
            Status::Pending => "Pending"@,
            Status::Passed => "Passed"@,
            Status::Failed => "Failed"@,
            Status::Accepted => "Accepted"@,
            Status::Rejected => "Rejected"@,
        }
    }

    /// The status as it is written down.
    pub open spec fn label_text(self) -> Seq<char> {
        match self {
            Status::Pending => "pending"@,
            Status::Passed => "passed"@,
            Status::Failed => "failed"@,
            Status::Accepted => "accepted"@,
            Status::Rejected => "rejected"@,
        }
    }

    pub fn label(&self) -> (r: &'static str)
        ensures
            r@ == self.label_text(),
    {
        match self {
            Status::Pending => "pending",
            Status::Passed => "passed",
            Status::Failed => "failed",
            Status::Accepted => "accepted",
            Status::Rejected => "rejected",
        }
    }

    pub fn name(&self) -> (r: &'static str)
        ensures
            r@ == self.name_text(),
    {
        match self {
            Status::Pending => "Pending",
            Status::Passed => "Passed",
            Status::Failed => "Failed",
            Status::Accepted => "Accepted",
            Status::Rejected => "Rejected",
        }
    }
}

// ---------------------------------------------------------------------------
// What a patch touches
// ---------------------------------------------------------------------------

/// The header of a file in a patch.
pub const FILE_HEADER: &'static str = r"^diff --git a/(.+?) b/(.+)$";

/// The files that one line of a patch names: by its header where that could be
/// read, else by the old or new name.
pub open spec fn line_files(line: Seq<char>, header: Option<(Seq<char>, Seq<char>)>) -> Seq<
    Seq<char>,
> {
    match header {
        Some(h) => seq![h.0, h.1],
        None => match strip_prefix(line, "+++ b/"@) {
            Some(rest) => seq![trim(rest)],
            None => match strip_prefix(line, "--- a/"@) {
                Some(rest) => seq![trim(rest)],
                None => seq![],
            },
        },
    }
}

/// The two names in a header.
pub open spec fn header_in(line: Seq<char>) -> Option<(Seq<char>, Seq<char>)> {
    let ms = found(FILE_HEADER@, line);
    if ms.len() > 0 {
        Some((group_text(ms[0], 1), group_text(ms[0], 2)))
    } else {
        None
    }
}

pub open spec fn named_in(ls: Seq<Seq<char>>) -> Seq<Seq<char>>
    decreases ls.len(),
{
    if ls.len() == 0 {
        seq![]
    } else {
        named_in(ls.drop_last()) + line_files(ls.last(), header_in(ls.last()))
    }
}

/// Every file that a patch touches, under its old and its new name.
pub open spec fn touched(patch: Seq<char>) -> Seq<Seq<char>> {
    sorted_set(named_in(lines(patch)))
}

/// The files that one line of a patch names.
pub fn files_in_line(line: &str, header: Option<(String, String)>) -> (r: Vec<String>)
    ensures
        r.deep_view() == line_files(line@, header.deep_view()),
{
    let mut out: Vec<String> = Vec::new();
    match header {
        Some((a, b)) => {
            out.push(a);
            out.push(b);
        },
        None => {
            if let Some(rest) = after_prefix(line, "+++ b/") {
                out.push(trimmed(rest.as_str()));
            } else if let Some(rest) = after_prefix(line, "--- a/") {
                out.push(trimmed(rest.as_str()));
            }
        },
    }
    assert(out.deep_view() =~= line_files(line@, header.deep_view()));
    out
}

fn header_of(line: &str) -> (r: Option<(String, String)>)
    ensures
        r.deep_view() == header_in(line@),
{
    let ms = found_in(FILE_HEADER, line);
    assert(ms.deep_view().len() == ms@.len());
    if ms.len() > 0 {
        assert(ms.deep_view()[0] == ms[0].deep_view());
        Some((group_text_of(&ms[0], 1), group_text_of(&ms[0], 2)))
    } else {
        None
    }
}

/// Every file that a patch touches, under its old and its new name.
pub fn touched_files(patch: &str) -> (r: Vec<String>)
    ensures
        r.deep_view() == touched(patch@),
{
    let ls = lines_of(patch);
    let ghost lv = ls.deep_view();
    let mut out: Vec<String> = Vec::new();
    let mut i: usize = 0;
    assert(out.deep_view() =~= named_in(lv.take(0)));
    while i < ls.len()
        invariant
            i <= ls.len(),
            lv == ls.deep_view(),
            out.deep_view() == named_in(lv.take(i as int)),
        decreases ls.len() - i,
    {
        let ghost so_far = out.deep_view();
        let line = ls[i].as_str();
        proof {
            let step = lv.take(i + 1);
            assert(step.drop_last() =~= lv.take(i as int));
            assert(step.last() == line@);
        }
        let mut more = files_in_line(line, header_of(line));
        let ghost mv = more.deep_view();
        out.append(&mut more);
        assert(out.deep_view() =~= so_far + mv);
        i += 1;
    }
    assert(lv.take(i as int) =~= lv);
    sorted_distinct(&out)
}

// ---------------------------------------------------------------------------
// What a patch may touch
// ---------------------------------------------------------------------------

/// A path that leads out of the repository.
pub open spec fn escapes(path: Seq<char>) -> bool {
    starts_with(path, "/"@) || exists|i: int|
        0 <= i < split(path, '/').len() && #[trigger] split(path, '/')[i] == ".."@
}

/// The machinery that proposals are judged by.
pub open spec fn is_forbidden(path: Seq<char>) -> bool {
    ||| path == "src/proposal.rs"@
    ||| path == "src/laws.rs"@
    ||| path == "src/invariants.rs"@
    ||| path == "src/store.rs"@
    ||| path == "src/model.rs"@
    ||| path == "tests/laws.rs"@
    ||| path == "tests/invariants.rs"@
    ||| path == "Cargo.toml"@
    ||| path == "Cargo.lock"@
    ||| starts_with(path, ".github/"@)
    ||| starts_with(path, ".git/"@)
    ||| starts_with(path, "laws/"@)
}

/// The files that a proposal of a kind is about.
pub open spec fn is_in_scope(kind: Kind, path: Seq<char>) -> bool {
    match kind {
        Kind::Extractor => path == "src/structural.rs"@ || starts_with(path, "tests/fixtures/"@)
            || starts_with(path, "validation/"@),
        _ => path == "archietect.toml"@,
    }
}

/// What is wrong with a file, whatever the kind of the proposal.
pub open spec fn file_fault(path: Seq<char>) -> Option<Seq<char>> {
    if escapes(path) {
        Some("proposal touches a path outside the repository: '"@ + path + "'"@)
    } else if is_forbidden(path) {
        Some(
            "proposal touches '"@ + path
                + "', which is part of Archietect's own validation machinery and is never permitted in a proposal patch"@,
        )
    } else {
        None
    }
}

pub open spec fn scope_fault(kind: Kind, path: Seq<char>) -> Option<Seq<char>> {
    if is_in_scope(kind, path) {
        None
    } else {
        Some(
            (if kind == Kind::Extractor {
                "an extractor proposal may only touch src/structural.rs, tests/fixtures/**, or validation/** — this patch also touches '"@
            } else {
                "a decision/alias proposal may only touch archietect.toml — this patch also touches '"@
            }) + path + "'"@,
        )
    }
}

/// The first fault from `i` on: of the files by themselves, or against the scope
/// of a kind.
pub open spec fn first_fault(kind: Option<Kind>, files: Seq<Seq<char>>, i: int) -> Option<Seq<char>>
    decreases files.len() - i,
{
    if i < 0 || i >= files.len() {
        None
    } else {
        let fault = match kind {
            Some(k) => scope_fault(k, files[i]),
            None => file_fault(files[i]),
        };
        match fault {
            Some(e) => Some(e),
            None => first_fault(kind, files, i + 1),
        }
    }
}

/// What is wrong with a patch of a kind that touches some files.
pub open spec fn patch_fault(kind: Kind, files: Seq<Seq<char>>) -> Option<Seq<char>> {
    if files.len() == 0 {
        Some("patch does not appear to touch any files"@)
    } else {
        match first_fault(None, files, 0) {
            Some(e) => Some(e),
            None => first_fault(Some(kind), files, 0),
        }
    }
}

fn leads_out(path: &str) -> (r: bool)
    ensures
        r == escapes(path@),
{
    if begins(path, "/") {
        return true;
    }
    let parts = split_at_char(path, '/');
    let ghost pv = parts.deep_view();
    let mut i: usize = 0;
    while i < parts.len()
        invariant
            i <= parts.len(),
            pv == parts.deep_view(),
            pv == split(path@, '/'),
            forall|j: int| 0 <= j < i ==> #[trigger] pv[j] != ".."@,
        decreases parts.len() - i,
    {
        assert(pv[i as int] == parts[i as int]@);
        if same(parts[i].as_str(), "..") {
            return true;
        }
        i += 1;
    }
    false
}

fn forbidden(p: &str) -> (r: bool)
    ensures
        r == is_forbidden(p@),
{
    same(p, "src/proposal.rs") || same(p, "src/laws.rs") || same(p, "src/invariants.rs") || same(
        p,
        "src/store.rs",
    ) || same(p, "src/model.rs") || same(p, "tests/laws.rs") || same(p, "tests/invariants.rs")
        || same(p, "Cargo.toml") || same(p, "Cargo.lock") || begins(p, ".github/") || begins(
        p,
        ".git/",
    ) || begins(p, "laws/")
}

fn fault_of_file(path: &str) -> (r: Option<String>)
    ensures
        r.deep_view() == file_fault(path@),
{
    if leads_out(path) {
        let mut e = owned("proposal touches a path outside the repository: '");
        e.append(path);
        e.append("'");
        Some(e)
    } else if forbidden(path) {
        let mut e = owned("proposal touches '");
        e.append(path);
        e.append(
            "', which is part of Archietect's own validation machinery and is never permitted in a proposal patch",
        );
        Some(e)
    } else {
        None
    }
}

fn fault_of_scope(kind: Kind, path: &str) -> (r: Option<String>)
    ensures
        r.deep_view() == scope_fault(kind, path@),
{
    let inside = match kind {
        Kind::Extractor => same(path, "src/structural.rs") || begins(path, "tests/fixtures/")
            || begins(path, "validation/"),
        _ => same(path, "archietect.toml"),
    };
    if inside {
        return None;
    }
    let mut e = match kind {
        Kind::Extractor => owned(
            "an extractor proposal may only touch src/structural.rs, tests/fixtures/**, or validation/** — this patch also touches '",
        ),
        _ => owned(
            "a decision/alias proposal may only touch archietect.toml — this patch also touches '",
        ),
    };
    e.append(path);
    e.append("'");
    Some(e)
}

fn fault_among(kind: Option<Kind>, files: &Vec<String>) -> (r: Option<String>)
    ensures
        r.deep_view() == first_fault(kind, files.deep_view(), 0),
{
    let ghost fv = files.deep_view();
    let mut i: usize = 0;
    while i < files.len()
        invariant
            i <= files.len(),
            fv == files.deep_view(),
            first_fault(kind, fv, 0) == first_fault(kind, fv, i as int),
        decreases files.len() - i,
    {
        assert(fv[i as int] == files[i as int]@);
        let fault = match kind {
            Some(k) => fault_of_scope(k, files[i].as_str()),
            None => fault_of_file(files[i].as_str()),
        };
        if let Some(e) = fault {
            return Some(e);
        }
        i += 1;
    }
    None
}

/// What is wrong with a patch of a kind that touches some files.
pub fn fault_in(kind: Kind, files: &Vec<String>) -> (r: Option<String>)
    ensures
        r.deep_view() == patch_fault(kind, files.deep_view()),
{
    assert(files.deep_view().len() == files@.len());
    if files.len() == 0 {
        return Some(owned("patch does not appear to touch any files"));
    }
    match fault_among(None, files) {
        Some(e) => Some(e),
        None => fault_among(Some(kind), files),
    }
}

/// What is wrong with a patch of a kind: it may touch nothing outside its scope,
/// nothing outside the repository, and never what it is judged by.
pub fn check_scope(kind: Kind, patch: &str) -> (r: Option<String>)
    ensures
        r.deep_view() == patch_fault(kind, touched(patch@)),
{
    fault_in(kind, &touched_files(patch))
}

/// What stands against submitting a patch.
pub fn submission_fault(kind: Kind, patch: &str) -> (r: Option<String>)
    ensures
        r.deep_view() == (if trim(patch@).len() == 0 {
            Some("patch file is empty"@)
        } else {
            patch_fault(kind, touched(patch@))
        }),
{
    if blank(patch) {
        Some(owned("patch file is empty"))
    } else {
        check_scope(kind, patch)
    }
}

// ---------------------------------------------------------------------------
// Numbers and logs
// ---------------------------------------------------------------------------

pub open spec fn counter_value(record: Option<Seq<char>>) -> nat {
    match record {
        Some(s) => match unsigned_value(trim(s)) {
            Some(n) => n,
            None => 0,
        },
        None => 0,
    }
}

/// The next proposal's number; none where there is no greater number.
pub fn next_id(record: Option<&str>) -> (r: Option<u64>)
    ensures
        match r {
            Some(n) => n == counter_value(str_view(record)) + 1,
            None => counter_value(str_view(record)) == u64::MAX,
        },
{
    let cur: u64 = match record {
        Some(s) => match unsigned(trimmed(s).as_str()) {
            Some(n) => n,
            None => 0,
        },
        None => 0,
    };
    cur.checked_add(1)
}

// ---------------------------------------------------------------------------
// The list of proposals
// ---------------------------------------------------------------------------

/// The number that a proposal is filed under.
#[derive(Debug)]
pub struct Filed {
    pub id: u64,
}

pub struct FiledView {
    pub id: nat,
}

impl DeepView for Filed {
    type V = FiledView;

    open spec fn deep_view(&self) -> FiledView {
        FiledView { id: self.id as nat }
    }
}

impl Ranked for Filed {
    open spec fn leads(a: FiledView, b: FiledView) -> bool {
        a.id < b.id
    }

    fn goes_before(&self, other: &Self) -> (r: bool) {
        self.id < other.id
    }
}

pub open spec fn each_filed() -> spec_fn(Seq<char>) -> Option<FiledView> {
    |name: Seq<char>|
        match unsigned_value(name) {
            Some(id) => Some(FiledView { id }),
            None => None,
        }
}

/// The proposals among the folders of some names, in the order of their numbers;
/// a folder whose name is no number holds none.
pub fn filed_among(names: &Vec<String>) -> (r: Vec<Filed>)
    ensures
        r.deep_view() == stable_sort::<Filed>(names.deep_view().filter_map(each_filed())),
{
    let ghost nv = names.deep_view();
    let ghost f = each_filed();
    let mut out: Vec<Filed> = Vec::new();
    let mut i: usize = 0;
    proof {
        assert(nv.take(0) =~= seq![]);
        reveal(Seq::filter_map);
    }
    while i < names.len()
        invariant
            i <= names.len(),
            nv == names.deep_view(),
            f == each_filed(),
            out.deep_view() =~= nv.take(i as int).filter_map(f),
        decreases names.len() - i,
    {
        let ghost so_far = out.deep_view();
        proof {
            nv.lemma_filter_map_take_succ(f, i as int);
        }
        assert(nv[i as int] == names[i as int]@);
        if let Some(id) = unsigned(names[i].as_str()) {
            let x = Filed { id };
            let ghost xv = x.deep_view();
            out.push(x);
            assert(out.deep_view() =~= so_far.push(xv));
        }
        i += 1;
    }
    assert(nv.take(i as int) =~= nv);
    in_order(out)
}

/// Proposals are listed in the order of their numbers.
pub proof fn law_proposals_are_listed_by_number(names: Seq<Seq<char>>, i: int, j: int)
    requires
        0 <= i < j < stable_sort::<Filed>(names.filter_map(each_filed())).len(),
    ensures
        ({
            let r = stable_sort::<Filed>(names.filter_map(each_filed()));
            r[i].id <= r[j].id
        }),
{
    let r = stable_sort::<Filed>(names.filter_map(each_filed()));
    law_sorting_orders::<Filed>(names.filter_map(each_filed()));
    assert(!Filed::leads(r[j], r[i]));
}

/// The last `max` characters of a text.
pub open spec fn tail_of(s: Seq<char>, max: int) -> Seq<char> {
    if s.len() <= max {
        s
    } else {
        s.skip(s.len() - max)
    }
}

/// The last `max` characters of a text.
pub fn tail_chars(s: &str, max: usize) -> (r: String)
    ensures
        r@ == tail_of(s@, max as int),
{
    let cs = chars_of(s);
    if cs.len() <= max {
        owned(s)
    } else {
        let out = cut(&cs, cs.len() - max, cs.len());
        assert(out@ =~= s@.skip(s@.len() - max));
        out
    }
}

// ---------------------------------------------------------------------------
// Testing
// ---------------------------------------------------------------------------

/// How a test ended.
#[derive(Debug)]
pub struct Report {
    pub passed: bool,
    pub summary: String,
    pub log_tail: String,
}

pub struct ReportView {
    pub passed: bool,
    pub summary: Seq<char>,
    pub log_tail: Seq<char>,
}

impl DeepView for Report {
    type V = ReportView;

    open spec fn deep_view(&self) -> ReportView {
        ReportView { passed: self.passed, summary: self.summary@, log_tail: self.log_tail@ }
    }
}

/// What came back from the outside while a proposal is tested.
#[derive(Debug)]
pub enum Happening {
    /// The patch was applied, or was not, with what was said.
    Applied(bool, String),
    /// What is wrong with the index of the patched settings.
    Indexed(Vec<Violation>),
    /// The suite ran, passed or not, with its log.
    SuiteRan(bool, String),
}

pub enum HappeningView {
    Applied(bool, Seq<char>),
    Indexed(Seq<ViolationView>),
    SuiteRan(bool, Seq<char>),
}

impl DeepView for Happening {
    type V = HappeningView;

    open spec fn deep_view(&self) -> HappeningView {
        match self {
            Happening::Applied(b, s) => HappeningView::Applied(*b, s@),
            Happening::Indexed(v) => HappeningView::Indexed(v.deep_view()),
            Happening::SuiteRan(b, s) => HappeningView::SuiteRan(*b, s@),
        }
    }
}

/// What to do next while a proposal is tested.
#[derive(Debug)]
pub enum Step {
    /// Index the patched settings and check the index.
    CheckIndex,
    /// Run the whole suite on the patched code.
    RunSuite,
    Finish(Report),
}

pub enum StepView {
    CheckIndex,
    RunSuite,
    Finish(ReportView),
}

impl DeepView for Step {
    type V = StepView;

    open spec fn deep_view(&self) -> StepView {
        match self {
            Step::CheckIndex => StepView::CheckIndex,
            Step::RunSuite => StepView::RunSuite,
            Step::Finish(r) => StepView::Finish(r.deep_view()),
        }
    }
}

pub open spec fn each_violation_line() -> spec_fn(ViolationView) -> Seq<char> {
    |v: ViolationView| "["@ + v.invariant + "] "@ + v.detail
}

/// The step after a happening.
pub open spec fn step_after(kind: Kind, h: HappeningView) -> StepView {
    match h {
        HappeningView::Applied(ok, said) => if !ok {
            StepView::Finish(
                ReportView {
                    passed: false,
                    summary: "patch did not apply"@,
                    log_tail: tail_of(said, 4000),
                },
            )
        } else if kind == Kind::Extractor {
            StepView::RunSuite
        } else {
            StepView::CheckIndex
        },
        HappeningView::Indexed(list) => StepView::Finish(
            ReportView {
                passed: list.len() == 0,
                summary: if list.len() == 0 {
                    "invariants clean"@
                } else {
                    decimal(list.len()) + " invariant violation(s)"@
                },
                log_tail: join(list.map_values(each_violation_line()), "\n"@),
            },
        ),
        HappeningView::SuiteRan(ok, log) => StepView::Finish(
            ReportView {
                passed: ok,
                summary: if ok {
                    "laws + invariants passed"@
                } else {
                    "cargo test (laws + invariants) failed"@
                },
                log_tail: tail_of(log, 4000),
            },
        ),
    }
}

fn violation_lines(list: &Vec<Violation>) -> (r: Vec<String>)
    ensures
        r.deep_view() == list.deep_view().map_values(each_violation_line()),
{
    let ghost all = list.deep_view().map_values(each_violation_line());
    let mut out: Vec<String> = Vec::new();
    let mut i: usize = 0;
    while i < list.len()
        invariant
            i <= list.len(),
            all == list.deep_view().map_values(each_violation_line()),
            out.deep_view() =~= all.take(i as int),
        decreases list.len() - i,
    {
        let ghost so_far = out.deep_view();
        assert(list.deep_view()[i as int] == list[i as int].deep_view());
        let mut x = owned("[");
        x.append(list[i].invariant);
        x.append("] ");
        x.append(list[i].detail.as_str());
        assert(x@ == all[i as int]);
        out.push(x);
        assert(out.deep_view() =~= so_far.push(all[i as int]));
        i += 1;
    }
    assert(all.take(i as int) =~= all);
    out
}

/// What to do next while a proposal is tested.
pub fn advance(kind: Kind, h: &Happening) -> (r: Step)
    ensures
        r.deep_view() == step_after(kind, h.deep_view()),
{
    match h {
        Happening::Applied(ok, said) => if !*ok {
            Step::Finish(
                Report {
                    passed: false,
                    summary: owned("patch did not apply"),
                    log_tail: tail_chars(said.as_str(), 4000),
                },
            )
        } else {
            match kind {
                Kind::Extractor => Step::RunSuite,
                _ => Step::CheckIndex,
            }
        },
        Happening::Indexed(list) => {
            assert(list.deep_view().len() == list@.len());
            let passed = list.len() == 0;
            let summary = if passed {
                owned("invariants clean")
            } else {
                let mut out = number(list.len() as u64);
                out.append(" invariant violation(s)");
                out
            };
            Step::Finish(
                Report { passed, summary, log_tail: joined(&violation_lines(list), "\n") },
            )
        },
        Happening::SuiteRan(ok, log) => Step::Finish(
            Report {
                passed: *ok,
                summary: if *ok {
                    owned("laws + invariants passed")
                } else {
                    owned("cargo test (laws + invariants) failed")
                },
                log_tail: tail_chars(log.as_str(), 4000),
            },
        ),
    }
}

// ---------------------------------------------------------------------------
// The life of a proposal
// ---------------------------------------------------------------------------

/// What is kept of a proposal beside its patch.
#[derive(Debug)]
pub struct Record {
    pub id: u64,
    pub kind: Kind,
    pub status: Status,
    /// The fingerprint of the patch when it was last submitted or tested.
    pub patch_hash: String,
    /// The commit that the last test ran against.
    pub tested_head: Option<String>,
}

pub struct RecordView {
    pub id: nat,
    pub kind: Kind,
    pub status: Status,
    pub patch_hash: Seq<char>,
    pub tested_head: Option<Seq<char>>,
}

impl DeepView for Record {
    type V = RecordView;

    open spec fn deep_view(&self) -> RecordView {
        RecordView {
            id: self.id as nat,
            kind: self.kind,
            status: self.status,
            patch_hash: self.patch_hash@,
            tested_head: self.tested_head.deep_view(),
        }
    }
}

/// A proposal as it is submitted.
pub fn submitted(id: u64, kind: Kind, patch_hash: &str) -> (r: Record)
    ensures
        r.deep_view() == (RecordView {
            id: id as nat,
            kind,
            status: Status::Pending,
            patch_hash: patch_hash@,
            tested_head: None,
        }),
{
    Record {
        id,
        kind,
        status: Status::Pending,
        patch_hash: owned(patch_hash),
        tested_head: None,
    }
}

pub open spec fn after_test(r: RecordView, passed: bool, patch_hash: Seq<char>, head: Seq<char>) -> RecordView {
    RecordView {
        id: r.id,
        kind: r.kind,
        status: if passed {
            Status::Passed
        } else {
            Status::Failed
        },
        patch_hash,
        tested_head: Some(head),
    }
}

/// A proposal after a test: what was tested, and against which commit.
pub fn tested(r: &Record, passed: bool, patch_hash: &str, head: &str) -> (out: Record)
    ensures
        out.deep_view() == after_test(r.deep_view(), passed, patch_hash@, head@),
{
    Record {
        id: r.id,
        kind: r.kind,
        status: if passed {
            Status::Passed
        } else {
            Status::Failed
        },
        patch_hash: owned(patch_hash),
        tested_head: Some(owned(head)),
    }
}

pub open spec fn retest(id: nat) -> Seq<char> {
    "`archietect proposal test "@ + decimal(id) + "`"@
}

/// What stands against applying a proposal on whatever commit.
pub open spec fn early_fault(r: RecordView, patch_hash: Seq<char>, files: Seq<Seq<char>>) -> Option<
    Seq<char>,
> {
    if r.status != Status::Passed {
        Some(
            "proposal "@ + decimal(r.id) + " is '"@ + r.status.name_text()
                + "', not 'passed' — run "@ + retest(r.id) + " first"@,
        )
    } else if patch_hash != r.patch_hash {
        Some("patch.diff changed since the last passing test — re-run "@ + retest(r.id))
    } else {
        patch_fault(r.kind, files)
    }
}

/// What stands against applying a proposal: it must have passed, with this very
/// patch, on this very commit, and within its scope.
pub open spec fn acceptance_fault(
    r: RecordView,
    patch_hash: Seq<char>,
    files: Seq<Seq<char>>,
    head: Seq<char>,
) -> Option<Seq<char>> {
    match early_fault(r, patch_hash, files) {
        Some(e) => Some(e),
        None => match r.tested_head {
            Some(h) => if h == head {
                None
            } else {
                Some(
                    "repository HEAD has moved since this proposal was tested (tested against "@ + h
                        + ", now at "@ + head + ") — re-run "@ + retest(r.id),
                )
            },
            None => Some(
                "proposal "@ + decimal(r.id) + " has no recorded tested HEAD — run "@ + retest(r.id)
                    + " first"@,
            ),
        },
    }
}

fn retest_text(id: u64) -> (r: String)
    ensures
        r@ == retest(id as nat),
{
    let mut out = owned("`archietect proposal test ");
    out.append(number(id).as_str());
    out.append("`");
    out
}

/// What stands against applying a proposal whose patch touches some files, on
/// whatever commit.
pub fn early_fault_in(r: &Record, patch_hash: &str, files: &Vec<String>) -> (out: Option<String>)
    ensures
        out.deep_view() == early_fault(r.deep_view(), patch_hash@, files.deep_view()),
{
    if r.status != Status::Passed {
        let mut e = owned("proposal ");
        e.append(number(r.id).as_str());
        e.append(" is '");
        e.append(r.status.name());
        e.append("', not 'passed' — run ");
        e.append(retest_text(r.id).as_str());
        e.append(" first");
        return Some(e);
    }
    if !same(patch_hash, r.patch_hash.as_str()) {
        let mut e = owned("patch.diff changed since the last passing test — re-run ");
        e.append(retest_text(r.id).as_str());
        return Some(e);
    }
    fault_in(r.kind, files)
}

/// What stands against applying a proposal on whatever commit: what is found
/// before anybody asks which commit it is.
pub fn check_before_head(r: &Record, patch_hash: &str, patch: &str) -> (out: Option<String>)
    ensures
        out.deep_view() == early_fault(r.deep_view(), patch_hash@, touched(patch@)),
{
    early_fault_in(r, patch_hash, &touched_files(patch))
}

/// What stands against applying a proposal whose patch touches some files.
pub fn fault_in_acceptance(r: &Record, patch_hash: &str, files: &Vec<String>, head: &str) -> (out:
    Option<String>)
    ensures
        out.deep_view() == acceptance_fault(
            r.deep_view(),
            patch_hash@,
            files.deep_view(),
            head@,
        ),
{
    if let Some(e) = early_fault_in(r, patch_hash, files) {
        return Some(e);
    }
    match &r.tested_head {
        Some(h) => {
            if same(h.as_str(), head) {
                None
            } else {
                let mut e = owned(
                    "repository HEAD has moved since this proposal was tested (tested against ",
                );
                e.append(h.as_str());
                e.append(", now at ");
                e.append(head);
                e.append(") — re-run ");
                e.append(retest_text(r.id).as_str());
                Some(e)
            }
        },
        None => {
            let mut e = owned("proposal ");
            e.append(number(r.id).as_str());
            e.append(" has no recorded tested HEAD — run ");
            e.append(retest_text(r.id).as_str());
            e.append(" first");
            Some(e)
        },
    }
}

/// What stands against applying a proposal: it must have passed, with this very
/// patch, on this very commit, and within its scope.
pub fn check_acceptance(r: &Record, patch_hash: &str, patch: &str, head: &str) -> (out: Option<String>)
    ensures
        out.deep_view() == acceptance_fault(r.deep_view(), patch_hash@, touched(patch@), head@),
{
    fault_in_acceptance(r, patch_hash, &touched_files(patch), head)
}

pub open spec fn with_status(r: RecordView, status: Status) -> RecordView {
    RecordView {
        id: r.id,
        kind: r.kind,
        status,
        patch_hash: r.patch_hash,
        tested_head: r.tested_head,
    }
}

fn moved_to(r: &Record, status: Status) -> (out: Record)
    ensures
        out.deep_view() == with_status(r.deep_view(), status),
{
    Record {
        id: r.id,
        kind: r.kind,
        status,
        patch_hash: owned(r.patch_hash.as_str()),
        tested_head: copied_option(&r.tested_head),
    }
}

/// A new proposal, or what stands against it.
pub fn submit(id: u64, kind: Kind, patch: &str, patch_hash: &str) -> (r: Result<Record, String>)
    ensures
        outcome(r) == (match (if trim(patch@).len() == 0 {
            Some("patch file is empty"@)
        } else {
            patch_fault(kind, touched(patch@))
        }) {
            Some(e) => Err(e),
            None => Ok(
                RecordView {
                    id: id as nat,
                    kind,
                    status: Status::Pending,
                    patch_hash: patch_hash@,
                    tested_head: None,
                },
            ),
        }),
{
    match submission_fault(kind, patch) {
        Some(e) => Err(e),
        None => Ok(submitted(id, kind, patch_hash)),
    }
}

/// The proposal as it is applied, or what stands against applying it.
pub fn accept(r: &Record, patch_hash: &str, patch: &str, head: &str) -> (out: Result<Record, String>)
    ensures
        outcome(out) == (match acceptance_fault(
            r.deep_view(),
            patch_hash@,
            touched(patch@),
            head@,
        ) {
            Some(e) => Err(e),
            None => Ok(with_status(r.deep_view(), Status::Accepted)),
        }),
{
    match check_acceptance(r, patch_hash, patch, head) {
        Some(e) => Err(e),
        None => Ok(moved_to(r, Status::Accepted)),
    }
}

/// The proposal as it is turned down.
pub fn reject(r: &Record) -> (out: Record)
    ensures
        out.deep_view() == with_status(r.deep_view(), Status::Rejected),
{
    moved_to(r, Status::Rejected)
}

/// What is told after a proposal was applied.
pub open spec fn acceptance_words(kind: Kind) -> Seq<char> {
    "Applied to the working tree, uncommitted. Review with `git diff` and commit when ready — Archietect does not commit on your behalf."@
        + (if kind == Kind::Extractor {
        " A rebuild (`cargo build`) is needed before the new extractor is live."@
    } else {
        ""@
    })
}

/// What to tell after a proposal was applied.
pub fn acceptance_note(kind: Kind) -> (r: String)
    ensures
        r@ == acceptance_words(kind),
{
    let mut out = owned(
        "Applied to the working tree, uncommitted. Review with `git diff` and commit when ready — Archietect does not commit on your behalf.",
    );
    match kind {
        Kind::Extractor => {
            out.append(" A rebuild (`cargo build`) is needed before the new extractor is live.");
        },
        _ => {
            out.append("");
        },
    }
    out
}

// ---------------------------------------------------------------------------
// Laws
// ---------------------------------------------------------------------------

proof fn lemma_fault_at(kind: Option<Kind>, files: Seq<Seq<char>>, from: int, i: int)
    requires
        0 <= from <= i < files.len(),
        match kind {
            Some(k) => scope_fault(k, files[i]) is Some,
            None => file_fault(files[i]) is Some,
        },
    ensures
        first_fault(kind, files, from) is Some,
    decreases i - from,
{
    if from < i {
        lemma_fault_at(kind, files, from + 1, i);
    }
}

/// A patch that touches what proposals are judged by, or leads out of the
/// repository, is never in order, whatever its kind.
pub proof fn law_nobody_edits_the_judge(kind: Kind, files: Seq<Seq<char>>, i: int)
    requires
        0 <= i < files.len(),
        is_forbidden(files[i]) || escapes(files[i]),
    ensures
        patch_fault(kind, files) is Some,
{
    lemma_fault_at(None, files, 0, i);
}

/// A patch in order touches something, and nothing outside the scope of its
/// kind.
pub proof fn law_patches_stay_in_scope(kind: Kind, files: Seq<Seq<char>>, i: int)
    requires
        patch_fault(kind, files) is None,
        0 <= i < files.len(),
    ensures
        files.len() > 0,
        is_in_scope(kind, files[i]),
        !is_forbidden(files[i]),
        !escapes(files[i]),
{
    if !is_in_scope(kind, files[i]) {
        lemma_fault_at(Some(kind), files, 0, i);
    }
    if is_forbidden(files[i]) || escapes(files[i]) {
        lemma_fault_at(None, files, 0, i);
    }
}

/// A proposal is applied only as it passed: after a test that passed, with the
/// patch that was tested, on the commit that it was tested on.
pub proof fn law_only_what_passed_is_applied(
    r: RecordView,
    passed: bool,
    tested_hash: Seq<char>,
    tested_on: Seq<char>,
    patch_hash: Seq<char>,
    files: Seq<Seq<char>>,
    head: Seq<char>,
)
    ensures
        acceptance_fault(after_test(r, passed, tested_hash, tested_on), patch_hash, files, head)
            is None <==> passed && patch_hash == tested_hash && head == tested_on && patch_fault(
            r.kind,
            files,
        ) is None,
{
}

/// A proposal that was never tested is never applied.
pub proof fn law_untested_is_never_applied(
    id: nat,
    kind: Kind,
    hash: Seq<char>,
    patch_hash: Seq<char>,
    files: Seq<Seq<char>>,
    head: Seq<char>,
)
    ensures
        acceptance_fault(
            RecordView { id, kind, status: Status::Pending, patch_hash: hash, tested_head: None },
            patch_hash,
            files,
            head,
        ) is Some,
{
}

} // verus!
