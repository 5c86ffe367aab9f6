//! Which proposals are in order, how a test of one goes on, and when it may be
//! applied.
use vstd::prelude::*;
use crate::invariants::ViolationView;
use crate::outside::{found, group_text};
use crate::numbers::unsigned_value;
use crate::proposal::{
    acceptance_fault, after_test, counter_value, each_filed, escapes, file_fault, first_fault,
    header_in, is_forbidden, is_in_scope, line_files, named_in, patch_fault, scope_fault,
    step_after, tail_of, touched, with_status, FILE_HEADER, HappeningView, Kind, RecordView, Status,
    StepView,
};
use crate::table::lemma_sorted_set;
use crate::text::{lines, split, starts_with, trim};

verus! {

proof fn lemma_starts(s: Seq<char>, p: Seq<char>)
    ensures
        starts_with(s, p) <==> p.is_prefix_of(s),
{
    if p.len() <= s.len() {
        assert(s.take(p.len() as int) =~= s.subrange(0, p.len() as int));
    }
}

/// A file that no proposal may touch.
pub open spec fn is_out_of_bounds(path: Seq<char>) -> bool {
    ||| path.len() > 0 && path[0] == '/'
    ||| split(path, '/').contains(".."@)
    ||| seq![
        "src/proposal.rs"@,
        "src/laws.rs"@,
        "src/invariants.rs"@,
        "src/store.rs"@,
        "src/model.rs"@,
        "tests/laws.rs"@,
        "tests/invariants.rs"@,
        "Cargo.toml"@,
        "Cargo.lock"@,
    ].contains(path)
    ||| ".github/"@.is_prefix_of(path)
    ||| ".git/"@.is_prefix_of(path)
    ||| "laws/"@.is_prefix_of(path)
}

/// A file that a proposal of a kind is about.
pub open spec fn is_about(kind: Kind, path: Seq<char>) -> bool {
    if kind == Kind::Extractor {
        path == "src/structural.rs"@ || "tests/fixtures/"@.is_prefix_of(path)
            || "validation/"@.is_prefix_of(path)
    } else {
        path == "archietect.toml"@
    }
}

proof fn lemma_bounds(path: Seq<char>, kind: Kind)
    ensures
        is_out_of_bounds(path) <==> escapes(path) || is_forbidden(path),
        is_about(kind, path) <==> is_in_scope(kind, path),
{
    reveal_strlit("/");
    let named = seq![
        "src/proposal.rs"@,
        "src/laws.rs"@,
        "src/invariants.rs"@,
        "src/store.rs"@,
        "src/model.rs"@,
        "tests/laws.rs"@,
        "tests/invariants.rs"@,
        "Cargo.toml"@,
        "Cargo.lock"@,
    ];
    assert(named[0] == "src/proposal.rs"@ && named[1] == "src/laws.rs"@ && named[2]
        == "src/invariants.rs"@ && named[3] == "src/store.rs"@ && named[4] == "src/model.rs"@
        && named[5] == "tests/laws.rs"@ && named[6] == "tests/invariants.rs"@ && named[7]
        == "Cargo.toml"@ && named[8] == "Cargo.lock"@);
    lemma_starts(path, "/"@);
    lemma_starts(path, ".github/"@);
    lemma_starts(path, ".git/"@);
    lemma_starts(path, "laws/"@);
    lemma_starts(path, "tests/fixtures/"@);
    lemma_starts(path, "validation/"@);
    assert("/"@.len() == 1 && "/"@[0] == '/');
    assert("/"@.is_prefix_of(path) <==> path.len() > 0 && path[0] == '/') by {
        if path.len() > 0 && path[0] == '/' {
            assert(path.subrange(0, 1) =~= "/"@);
        }
        if "/"@.is_prefix_of(path) {
            assert(path.subrange(0, 1)[0] == '/');
        }
    }
    let parts = split(path, '/');
    assert(parts.contains(".."@) <==> exists|i: int|
        0 <= i < parts.len() && #[trigger] parts[i] == ".."@);
}

proof fn lemma_first_fault(kind: Option<Kind>, files: Seq<Seq<char>>, from: int)
    requires
        0 <= from,
    ensures
        first_fault(kind, files, from) is None <==> forall|i: int|
            from <= i < files.len() ==> match kind {
                Some(k) => scope_fault(k, #[trigger] files[i]) is None,
                None => file_fault(files[i]) is None,
            },
    decreases files.len() - from,
{
    if from < files.len() {
        lemma_first_fault(kind, files, from + 1);
    }
}

/// A patch is in order exactly where it touches something, nothing that leads out
/// of the repository or judges proposals, and nothing that proposals of its kind
/// are not about.
pub proof fn law_which_patches_are_in_order(kind: Kind, files: Seq<Seq<char>>)
    ensures
        patch_fault(kind, files) is None <==> files.len() > 0 && forall|i: int|
            0 <= i < files.len() ==> !is_out_of_bounds(#[trigger] files[i]) && is_about(
                kind,
                files[i],
            ),
{
    lemma_first_fault(None, files, 0);
    lemma_first_fault(Some(kind), files, 0);
    assert forall|i: int| 0 <= i < files.len() implies (file_fault(#[trigger] files[i]) is None
        <==> !is_out_of_bounds(files[i])) && (scope_fault(kind, files[i]) is None <==> is_about(
        kind,
        files[i],
    )) by {
        lemma_bounds(files[i], kind);
    }
}

proof fn lemma_named(ls: Seq<Seq<char>>, i: int, name: Seq<char>)
    requires
        0 <= i < ls.len(),
        line_files(ls[i], header_in(ls[i])).contains(name),
    ensures
        named_in(ls).contains(name),
    decreases ls.len(),
{
    let front = named_in(ls.drop_last());
    let own = line_files(ls.last(), header_in(ls.last()));
    if i < ls.len() - 1 {
        lemma_named(ls.drop_last(), i, name);
        let k = choose|k: int| 0 <= k < front.len() && front[k] == name;
        assert(named_in(ls)[k] == name);
    } else {
        let k = choose|k: int| 0 <= k < own.len() && own[k] == name;
        assert(named_in(ls)[front.len() + k] == name);
    }
}

/// A patch touches what its lines name: both names of a header, and the name
/// behind either mark of a file.
pub proof fn law_patches_touch_what_they_name(patch: Seq<char>, i: int, name: Seq<char>)
    requires
        0 <= i < lines(patch).len(),
    ensures
        header_in(lines(patch)[i]) matches Some(h) ==> touched(patch).contains(h.0) && touched(
            patch,
        ).contains(h.1),
        header_in(lines(patch)[i]) is None && lines(patch)[i] == "+++ b/"@ + name ==> touched(
            patch,
        ).contains(trim(name)),
        header_in(lines(patch)[i]) is None && lines(patch)[i] == "--- a/"@ + name ==> touched(
            patch,
        ).contains(trim(name)),
{
    let ls = lines(patch);
    lemma_sorted_set(named_in(ls));
    if let Some(h) = header_in(ls[i]) {
        let own = line_files(ls[i], header_in(ls[i]));
        assert(own[0] == h.0 && own[1] == h.1);
        lemma_named(ls, i, h.0);
        lemma_named(ls, i, h.1);
    } else {
        reveal_strlit("+++ b/");
        reveal_strlit("--- a/");
        let plus = "+++ b/"@;
        let minus = "--- a/"@;
        assert(plus[0] == '+' && minus[0] == '-' && plus.len() == 6 && minus.len() == 6);
        if ls[i] == plus + name {
            assert(ls[i].take(6) =~= plus);
            assert(ls[i].skip(6) =~= name);
            let own = line_files(ls[i], header_in(ls[i]));
            assert(own[0] == trim(name));
            lemma_named(ls, i, trim(name));
        }
        if ls[i] == minus + name {
            assert(ls[i].take(6) =~= minus);
            assert(ls[i].skip(6) =~= name);
            assert(ls[i].take(6)[0] == '-');
            assert(!starts_with(ls[i], plus));
            let own = line_files(ls[i], header_in(ls[i]));
            assert(own[0] == trim(name));
            lemma_named(ls, i, trim(name));
        }
    }
}

/// The lesser of two lengths.
pub open spec fn shorter(a: int, b: int) -> int {
    if a <= b {
        a
    } else {
        b
    }
}

/// What a test of a proposal does next: a patch that was applied is tried by the
/// suite where it is code and by the invariants where it is settings; one that
/// was not has failed, and whoever judged it decides how the test ends.
pub proof fn law_how_a_test_goes_on(
    kind: Kind,
    ok: bool,
    said: Seq<char>,
    list: Seq<ViolationView>,
)
    ensures
        ok && kind == Kind::Extractor ==> step_after(kind, HappeningView::Applied(ok, said))
            is RunSuite,
        ok && kind != Kind::Extractor ==> step_after(kind, HappeningView::Applied(ok, said))
            is CheckIndex,
        !ok ==> (step_after(kind, HappeningView::Applied(ok, said)) matches StepView::Finish(r)
            && !r.passed && r.log_tail.is_suffix_of(said) && r.log_tail.len() == shorter(
            said.len() as int,
            4000,
        )),
        step_after(kind, HappeningView::Indexed(list)) matches StepView::Finish(r) && (r.passed
            <==> list.len() == 0),
        step_after(kind, HappeningView::SuiteRan(ok, said)) matches StepView::Finish(r) && r.passed
            == ok && r.log_tail.is_suffix_of(said) && r.log_tail.len() == shorter(
            said.len() as int,
            4000,
        ),
{
    law_logs_keep_their_end(said, 4000);
}

/// Of a log its end is kept, all of it where it is short.
pub proof fn law_logs_keep_their_end(s: Seq<char>, max: int)
    requires
        max >= 0,
    ensures
        tail_of(s, max).is_suffix_of(s),
        tail_of(s, max).len() == if s.len() <= max {
            s.len() as int
        } else {
            max
        },
{
    let t = tail_of(s, max);
    assert(s.subrange(s.len() - t.len(), s.len() as int) =~= t);
}

/// A test settles a proposal's standing by its outcome and remembers what was
/// tested and where; it is still the same proposal.
pub proof fn law_tests_settle_a_proposal(
    r: RecordView,
    passed: bool,
    patch_hash: Seq<char>,
    head: Seq<char>,
)
    ensures
        ({
            let t = after_test(r, passed, patch_hash, head);
            &&& t.id == r.id && t.kind == r.kind
            &&& t.status == Status::Passed <==> passed
            &&& t.status == Status::Failed <==> !passed
            &&& t.patch_hash == patch_hash && t.tested_head == Some(head)
        }),
{
}

/// A proposal may be applied exactly where it stands as passed, with the patch
/// and on the commit that were tested, and its patch is in order.
pub proof fn law_when_a_proposal_may_be_applied(
    r: RecordView,
    patch_hash: Seq<char>,
    files: Seq<Seq<char>>,
    head: Seq<char>,
)
    ensures
        acceptance_fault(r, patch_hash, files, head) is None <==> {
            &&& r.status == Status::Passed
            &&& patch_hash == r.patch_hash
            &&& r.tested_head == Some(head)
            &&& files.len() > 0
            &&& forall|i: int|
                0 <= i < files.len() ==> !is_out_of_bounds(#[trigger] files[i]) && is_about(
                    r.kind,
                    files[i],
                )
        },
{
    law_which_patches_are_in_order(r.kind, files);
}

/// What becomes of a proposal changes its standing and nothing else.
pub proof fn law_standing_is_all_that_changes(r: RecordView, status: Status)
    ensures
        ({
            let t = with_status(r, status);
            t.status == status && t.id == r.id && t.kind == r.kind && t.patch_hash == r.patch_hash
                && t.tested_head == r.tested_head
        }),
{
}

/// Proposals are filed under their numbers; a name that is no number is no
/// proposal, and a missing or malformed count starts anew.
pub proof fn law_proposals_are_filed_by_number(name: Seq<char>, record: Option<Seq<char>>)
    ensures
        each_filed()(name) is Some <==> unsigned_value(name) is Some,
        unsigned_value(name) matches Some(n) ==> (each_filed()(name) matches Some(x) && x.id == n),
        record is None ==> counter_value(record) == 0,
        record matches Some(s) ==> (unsigned_value(trim(s)) matches Some(n) ==> counter_value(record)
            == n) && (unsigned_value(trim(s)) is None ==> counter_value(record) == 0),
{
}

/// The header of a file in a patch names the file before and after.
pub proof fn law_headers_name_both_files(line: Seq<char>)
    ensures
        header_in(line) is Some <==> found(FILE_HEADER@, line).len() > 0,
        header_in(line) matches Some(h) ==> h.0 == group_text(found(FILE_HEADER@, line)[0], 1) && h.1
            == group_text(found(FILE_HEADER@, line)[0], 2),
{
}

} // verus!
