//! Which domains may be looked at, and which paths never: two layers of
//! configuration over safe defaults, under denials that nothing lifts.
use vstd::prelude::*;
use crate::outside::{parse_toml, toml_content, toml_tree};
use crate::outside::{toml_flag, toml_get, toml_put, toml_shown, toml_table, toml_value};
use crate::paths::{final_name, final_name_of};
use crate::table::{has_key, lookup, put, TextMap};
use crate::text::{ascii_lower, contains, lowered, split, trim};
use crate::text::{holds, lowercase, owned, same, same_ignoring_case, split_at_char, trimmed};
use crate::tree::{field, text, text_field, texts, Tree, TreeView};
use crate::written::{
    document_text, is_date_mark, is_fit, is_readable, is_writable, law_readable_is_writable,
    DEEPEST_READ, DEEPEST_WRITTEN,
};

verus! {

#[derive(Clone, Copy, Debug, PartialEq, Eq, Structural)]
pub enum DomainState {
    Enabled,
    Disabled,
}

/// What one layer of configuration says of one domain.
#[derive(Debug)]
pub struct DomainEntry {
    pub state: DomainState,
    /// The attributes that may be read, where a list is given.
    pub attributes: Option<Vec<String>>,
}

pub struct DomainEntryView {
    pub state: DomainState,
    pub attributes: Option<Seq<Seq<char>>>,
}

impl DeepView for DomainEntry {
    type V = DomainEntryView;

    open spec fn deep_view(&self) -> DomainEntryView {
        DomainEntryView { state: self.state, attributes: self.attributes.deep_view() }
    }
}

/// Both layers of configuration: the user's and the project's.
#[derive(Debug)]
pub struct PermissionConfig {
    global: TextMap<DomainEntry>,
    project: TextMap<DomainEntry>,
}

pub struct PermissionConfigView {
    pub global: Seq<(Seq<char>, DomainEntryView)>,
    pub project: Seq<(Seq<char>, DomainEntryView)>,
}

impl DeepView for PermissionConfig {
    type V = PermissionConfigView;

    closed spec fn deep_view(&self) -> PermissionConfigView {
        PermissionConfigView {
            global: self.global.deep_view(),
            project: self.project.deep_view(),
        }
    }
}

impl Default for PermissionConfig {
    /// No configuration anywhere.
    fn default() -> (r: PermissionConfig)
        ensures
            r.deep_view() == (PermissionConfigView { global: seq![], project: seq![] }),
    {
        PermissionConfig { global: TextMap::new(), project: TextMap::new() }
    }
}

pub open spec fn is_structured(d: Seq<char>) -> bool {
    d == "code"@ || d == "git"@ || d == "docker"@ || d == "systemd"@
}

pub open spec fn is_enabled_by_default(d: Seq<char>) -> bool {
    d == "code"@ || d == "git"@
}

// ---------------------------------------------------------------------------
// Reading configuration
// ---------------------------------------------------------------------------

pub open spec fn state_named(s: Seq<char>) -> DomainState {
    if ascii_lower(s) == ascii_lower("enabled"@) {
        DomainState::Enabled
    } else {
        DomainState::Disabled
    }
}

/// What a value says of a domain: a state by itself, or a table with a state
/// and a list of attributes.
pub open spec fn entry_for(t: TreeView) -> Option<DomainEntryView> {
    match t {
        TreeView::Text(s) => Some(DomainEntryView { state: state_named(s), attributes: None }),
        TreeView::Table(_) => Some(
            DomainEntryView {
                state: match text_field(t, "state"@) {
                    Some(s) => state_named(s),
                    None => DomainState::Disabled,
                },
                attributes: match field(t, "attributes"@) {
                    Some(TreeView::List(_)) => Some(texts(field(t, "attributes"@))),
                    _ => None,
                },
            },
        ),
        _ => None,
    }
}

pub open spec fn domain_table(entries: Seq<(Seq<char>, TreeView)>) -> Seq<
    (Seq<char>, DomainEntryView),
>
    decreases entries.len(),
{
    if entries.len() == 0 {
        seq![]
    } else {
        let front = domain_table(entries.drop_last());
        match entry_for(entries.last().1) {
            Some(e) => put(front, lowered(entries.last().0), e),
            None => front,
        }
    }
}

/// What a document's `[domains]` say.
pub open spec fn domains_in(t: TreeView) -> Seq<(Seq<char>, DomainEntryView)> {
    match field(t, "domains"@) {
        Some(TreeView::Table(entries)) => domain_table(entries),
        _ => seq![],
    }
}

/// What a file's `[domains]` say: nothing where there is no file or where it is
/// no TOML.
pub open spec fn domains_of_text(text: Option<Seq<char>>) -> Seq<(Seq<char>, DomainEntryView)> {
    match text {
        Some(s) => match toml_tree(s) {
            Ok(t) => domains_in(t),
            Err(_) => seq![],
        },
        None => seq![],
    }
}

pub open spec fn str_view(s: Option<&str>) -> Option<Seq<char>> {
    match s {
        Some(x) => Some(x@),
        None => None,
    }
}

pub fn parse_state(s: &str) -> (r: DomainState)
    ensures
        r == state_named(s@),
{
    if same_ignoring_case(s, "enabled") {
        DomainState::Enabled
    } else {
        DomainState::Disabled
    }
}

fn read_entry(t: &Tree) -> (r: Option<DomainEntry>)
    ensures
        r.deep_view() == entry_for(t.deep_view()),
{
    match t {
        Tree::Text(s) => Some(
            DomainEntry { state: parse_state(s.as_str()), attributes: None },
        ),
        Tree::Table(v) => {
            proof {
                crate::tree::lemma_table_view(*v);
            }
            let state = match t.text_field("state") {
                Some(s) => parse_state(s.as_str()),
                None => DomainState::Disabled,
            };
            let attributes = match t.field("attributes") {
                Some(Tree::List(_)) => Some(t.texts_field("attributes")),
                _ => None,
            };
            Some(DomainEntry { state, attributes })
        },
        _ => None,
    }
}

fn read_domain_table(v: &Vec<(String, Tree)>) -> (r: TextMap<DomainEntry>)
    ensures
        r.deep_view() == domain_table(v.deep_view()),
{
    let mut out: TextMap<DomainEntry> = TextMap::new();
    let mut i: usize = 0;
    while i < v.len()
        invariant
            i <= v.len(),
            out.deep_view() == domain_table(v.deep_view().take(i as int)),
        decreases v.len() - i,
    {
        let ghost step = v.deep_view().take(i + 1);
        assert(step.drop_last() =~= v.deep_view().take(i as int));
        assert(step.last() == (v[i as int].0@, v[i as int].1.deep_view()));
        if let Some(e) = read_entry(&v[i].1) {
            out = out.with(lowercase(v[i].0.as_str()), e);
        }
        i += 1;
    }
    assert(v.deep_view().take(i as int) =~= v.deep_view());
    out
}

/// What a parsed document's `[domains]` say.
pub fn read_domains(t: &Tree) -> (r: TextMap<DomainEntry>)
    ensures
        r.deep_view() == domains_in(t.deep_view()),
{
    match t.field("domains") {
        Some(Tree::Table(v)) => {
            proof {
                crate::tree::lemma_table_view(*v);
            }
            read_domain_table(v)
        },
        _ => TextMap::new(),
    }
}

fn parse_domains_table(text: Option<&str>) -> (r: TextMap<DomainEntry>)
    ensures
        r.deep_view() == domains_of_text(str_view(text)),
{
    if let Some(s) = text {
        if let Ok(t) = parse_toml(s) {
            return read_domains(&t);
        }
    }
    TextMap::new()
}

/// Both layers, from the texts of the two files.
pub fn load(global_text: Option<&str>, project_text: Option<&str>) -> (r: PermissionConfig)
    ensures
        r.deep_view() == (PermissionConfigView {
            global: domains_of_text(str_view(global_text)),
            project: domains_of_text(str_view(project_text)),
        }),
{
    PermissionConfig {
        global: parse_domains_table(global_text),
        project: parse_domains_table(project_text),
    }
}

/// Both layers, from documents that have been parsed already.
pub fn config_of(global: &Tree, project: &Tree) -> (r: PermissionConfig)
    ensures
        r.deep_view() == (PermissionConfigView {
            global: domains_in(global.deep_view()),
            project: domains_in(project.deep_view()),
        }),
{
    PermissionConfig { global: read_domains(global), project: read_domains(project) }
}

// ---------------------------------------------------------------------------
// Domains
// ---------------------------------------------------------------------------

/// The entry that decides on a domain: the project's before the user's.
pub open spec fn deciding_entry(cfg: PermissionConfigView, d: Seq<char>) -> Option<DomainEntryView> {
    match lookup(cfg.project, d) {
        Some(e) => Some(e),
        None => lookup(cfg.global, d),
    }
}

/// A domain is allowed as its deciding entry says, and without one by default.
pub open spec fn is_domain_allowed(cfg: PermissionConfigView, domain: Seq<char>) -> bool {
    match deciding_entry(cfg, lowered(domain)) {
        Some(e) => e.state == DomainState::Enabled,
        None => is_enabled_by_default(lowered(domain)),
    }
}

fn structured(d: &str) -> (r: bool)
    ensures
        r == is_structured(d@),
{
    same(d, "code") || same(d, "git") || same(d, "docker") || same(d, "systemd")
}

fn enabled_by_default(d: &str) -> (r: bool)
    ensures
        r == is_enabled_by_default(d@),
{
    same(d, "code") || same(d, "git")
}

/// Whether a domain is formal enough that configuration alone enables it. A
/// name that is not known is not.
pub fn is_structured_domain(domain: &str) -> (r: bool)
    ensures
        r == is_structured(lowered(domain@)),
{
    structured(lowercase(domain).as_str())
}

impl PermissionConfig {
    fn deciding(&self, d: &str) -> (r: Option<&DomainEntry>)
        ensures
            match r {
                Some(e) => deciding_entry(self.deep_view(), d@) == Some(e.deep_view()),
                None => deciding_entry(self.deep_view(), d@) is None,
            },
    {
        match self.project.get(d) {
            Some(e) => Some(e),
            None => self.global.get(d),
        }
    }
}

/// Whether configuration, or the default without it, allows a domain.
pub fn domain_allowed(cfg: &PermissionConfig, domain: &str) -> (r: bool)
    ensures
        r == is_domain_allowed(cfg.deep_view(), domain@),
{
    let d = lowercase(domain);
    match cfg.deciding(d.as_str()) {
        Some(e) => e.state == DomainState::Enabled,
        None => enabled_by_default(d.as_str()),
    }
}

// ---------------------------------------------------------------------------
// Confirmation
// ---------------------------------------------------------------------------

/// Someone who can be asked whether a domain may be looked at.
pub trait ConfirmationAsker {
    /// Whether an answer is a person's decision, and so to be remembered.
    fn answers_are_decisions(&self) -> (r: bool)
        default_ensures
            r,
    {
        true
    }

    fn confirm(&self, prompt: &str) -> bool;
}

/// Refuses, because nobody can be asked. That is no decision.
#[derive(Debug)]
pub struct NonInteractiveAsker;

impl ConfirmationAsker for NonInteractiveAsker {
    fn answers_are_decisions(&self) -> (r: bool)
        ensures
            !r,
    {
        false
    }

    fn confirm(&self, _prompt: &str) -> (r: bool)
        ensures
            !r,
    {
        false
    }
}

/// Whether a line typed at a prompt means yes.
pub fn says_yes(line: &str) -> (r: bool)
    ensures
        r == (lowered(trim(line@)) == "y"@ || lowered(trim(line@)) == "yes"@),
{
    let answer = lowercase(trimmed(line).as_str());
    same(answer.as_str(), "y") || same(answer.as_str(), "yes")
}

pub open spec fn flag(t: Option<TreeView>) -> Option<bool> {
    match t {
        Some(TreeView::Flag(b)) => Some(b),
        _ => None,
    }
}

/// The answer that a document of confirmations holds for a domain.
pub open spec fn recorded_in(t: TreeView, domain: Seq<char>) -> Option<bool> {
    match field(t, "confirmations"@) {
        Some(c) => flag(field(c, domain)),
        None => None,
    }
}

pub open spec fn recorded(text: Option<Seq<char>>, domain: Seq<char>) -> Option<bool> {
    match text {
        Some(s) => match toml_tree(s) {
            Ok(t) => recorded_in(t, domain),
            Err(_) => None,
        },
        None => None,
    }
}

/// The answer that a parsed document of confirmations holds for a domain.
pub fn confirmation_in(t: &Tree, domain: &str) -> (r: Option<bool>)
    ensures
        r == recorded_in(t.deep_view(), domain@),
{
    match t.field("confirmations") {
        Some(c) => match c.field(domain) {
            Some(Tree::Flag(b)) => Some(*b),
            _ => None,
        },
        None => None,
    }
}

/// The answer that a file of confirmations holds for a domain.
pub fn confirmation_state(text: Option<&str>, domain: &str) -> (r: Option<bool>)
    ensures
        r == recorded(str_view(text), domain@),
{
    if let Some(s) = text {
        if let Ok(t) = parse_toml(s) {
            return confirmation_in(&t, domain);
        }
    }
    None
}

/// The document that a file of confirmations holds; an empty one where the file
/// is missing or malformed, or is no table.
pub open spec fn kept_document(text: Option<Seq<char>>) -> TreeView {
    match text {
        Some(s) => match toml_tree(s) {
            Ok(t) => or_empty_table(Some(t)),
            Err(_) => or_empty_table(None),
        },
        None => or_empty_table(None),
    }
}

/// A table; one without entries in place of anything else.
pub open spec fn or_empty_table(t: Option<TreeView>) -> TreeView {
    match t {
        Some(TreeView::Table(entries)) => TreeView::Table(entries),
        _ => TreeView::Table(Seq::empty()),
    }
}

/// A document of confirmations with one more answer: the answer stands under its
/// domain, and everything else is as it was.
pub open spec fn is_answered(before: TreeView, domain: Seq<char>, allowed: bool, after: TreeView) -> bool {
    &&& after is Table
    &&& forall|k: Seq<char>|
        k != "confirmations"@ ==> #[trigger] field(after, k) == field(before, k)
    &&& field(after, "confirmations"@) matches Some(answers) && {
        &&& answers is Table
        &&& field(answers, domain) == Some(TreeView::Flag(allowed))
        &&& forall|k: Seq<char>|
            k != domain ==> #[trigger] field(answers, k) == field(
                or_empty_table(field(before, "confirmations"@)),
                k,
            )
    }
}

/// A text holds what a file of confirmations held, with one more answer.
pub open spec fn is_kept(
    before: Option<Seq<char>>,
    domain: Seq<char>,
    allowed: bool,
    written: Seq<char>,
) -> bool {
    toml_tree(written) matches Ok(after) && is_answered(
        kept_document(before),
        domain,
        allowed,
        after,
    )
}

/// An answer for a domain can be written beside what a file of confirmations
/// holds.
pub open spec fn can_be_written(before: Option<Seq<char>>) -> bool {
    is_writable(kept_document(before))
}

/// An answer for a domain can be written beside what a file of confirmations
/// holds, and read again: the document nests no deeper than one can be read, its
/// texts can be quoted, and neither a key of it nor the domain is TOML's own mark
/// for dates.
pub open spec fn can_be_kept(before: Option<Seq<char>>, domain: Seq<char>) -> bool {
    !is_date_mark(domain) && is_readable(kept_document(before))
}

fn table_or_empty(v: Option<toml::Value>) -> (r: toml::Value)
    ensures
        toml_content(r) == or_empty_table(
            match v {
                Some(x) => Some(toml_content(x)),
                None => None,
            },
        ),
{
    match v {
        Some(x) => {
            let t = toml_shown(&x);
            match t {
                Tree::Table(_) => x,
                _ => toml_table(),
            }
        },
        None => toml_table(),
    }
}

/// A document that is fit stays so with an answer.
proof fn lemma_answer_is_fit(
    before: TreeView,
    old_answers: TreeView,
    answers: TreeView,
    after: TreeView,
    domain: Seq<char>,
    allowed: bool,
    depth: nat,
    marks: bool,
)
    requires
        depth > 1,
        is_fit(before, depth, marks),
        marks || !is_date_mark(domain),
        old_answers == or_empty_table(None) || before->Table_0.contains(
            ("confirmations"@, old_answers),
        ),
        before is Table,
        old_answers is Table,
        answers is Table,
        after is Table,
        forall|i: int|
            0 <= i < answers->Table_0.len() ==> {
                let e = #[trigger] answers->Table_0[i];
                e == (domain, TreeView::Flag(allowed)) || old_answers->Table_0.contains(e)
            },
        forall|i: int|
            0 <= i < after->Table_0.len() ==> {
                let e = #[trigger] after->Table_0[i];
                e == ("confirmations"@, answers) || before->Table_0.contains(e)
            },
    ensures
        is_fit(after, depth, marks),
{
    reveal_strlit("confirmations");
    reveal_strlit("$__toml_private_datetime");
    assert("confirmations"@.len() != "$__toml_private_datetime"@.len());
    let inner = (depth - 1) as nat;
    assert(is_fit(old_answers, inner, marks)) by {
        if old_answers != or_empty_table(None) {
            let i = choose|i: int|
                0 <= i < before->Table_0.len() && before->Table_0[i] == (
                    "confirmations"@,
                    old_answers,
                );
            assert(is_fit(before->Table_0[i].1, inner, marks));
        }
    }
    assert(is_fit(answers, inner, marks)) by {
        assert forall|i: int| 0 <= i < answers->Table_0.len() implies (marks || !is_date_mark(
            (#[trigger] answers->Table_0[i]).0,
        )) && is_fit(answers->Table_0[i].1, (inner - 1) as nat, marks) by {
            let e = answers->Table_0[i];
            if e != (domain, TreeView::Flag(allowed)) {
                let m = choose|m: int|
                    0 <= m < old_answers->Table_0.len() && old_answers->Table_0[m] == e;
                assert(marks || !is_date_mark(old_answers->Table_0[m].0));
            }
        }
    }
    assert forall|i: int| 0 <= i < after->Table_0.len() implies (marks || !is_date_mark(
        (#[trigger] after->Table_0[i]).0,
    )) && is_fit(after->Table_0[i].1, inner, marks) by {
        let e = after->Table_0[i];
        if e != ("confirmations"@, answers) {
            let m = choose|m: int| 0 <= m < before->Table_0.len() && before->Table_0[m] == e;
            assert(marks || !is_date_mark(before->Table_0[m].0));
        }
    }
}

/// A file of confirmations with one more answer: what is to be written in place
/// of the file that there is. It reads as the document that there was, with the
/// answer under its domain and all else as it was, unless the document nests too
/// deep to be read or TOML's own mark for dates is a key of it or the domain;
/// what the text holds then is left unsaid. Nothing where what there was cannot
/// be written: it nests deeper still, or a text of it repeats a quote too often.
pub fn remembered(text: Option<&str>, domain: &str, allowed: bool) -> (r: Option<String>)
    ensures
        r is None ==> !can_be_written(str_view(text)) && !can_be_kept(str_view(text), domain@),
        r matches Some(s) ==> (can_be_kept(str_view(text), domain@) ==> {
            &&& is_kept(str_view(text), domain@, allowed, s@)
            &&& recorded(Some(s@), domain@) == Some(allowed)
            &&& forall|other: Seq<char>|
                other != domain@ ==> #[trigger] recorded(Some(s@), other) == recorded(
                    str_view(text),
                    other,
                )
        }),
{
    let read = match text {
        Some(s) => match toml_value(s) {
            Ok(v) => Some(v),
            Err(_) => None,
        },
        None => None,
    };
    let document = table_or_empty(read);
    let ghost before = toml_content(document);
    assert(before == kept_document(str_view(text)));
    let found = toml_get(&document, "confirmations");
    let ghost there = field(before, "confirmations"@);
    let held = table_or_empty(found);
    let ghost old_answers = toml_content(held);
    assert(old_answers == or_empty_table(there));
    let flag = toml_flag(allowed);
    let answers = toml_put(held, domain, flag);
    let ghost inner = toml_content(answers);
    let after = toml_put(document, "confirmations", answers);
    let r = document_text(&after);
    proof {
        let u = toml_content(after);
        assert(is_answered(before, domain@, allowed, u));
        if is_readable(before) {
            law_readable_is_writable(before);
        }
        if can_be_written(str_view(text)) {
            lemma_answer_is_fit(
                before,
                old_answers,
                inner,
                u,
                domain@,
                allowed,
                DEEPEST_WRITTEN as nat,
                true,
            );
        }
        if can_be_kept(str_view(text), domain@) && r is Some {
            lemma_answer_is_fit(
                before,
                old_answers,
                inner,
                u,
                domain@,
                allowed,
                DEEPEST_READ as nat,
                false,
            );
            let s = r->0;
            law_recording_keeps_the_rest(before, domain@, allowed, u);
            assert forall|other: Seq<char>| other != domain@ implies #[trigger] recorded(
                Some(s@),
                other,
            ) == recorded(str_view(text), other) by {
                assert(recorded_in(u, other) == recorded_in(before, other));
            }
        }
    }
    r
}

/// What asking about a domain came to: whether it is allowed, and the answer to
/// remember, if any.
#[derive(Debug)]
pub struct Confirmed {
    pub allowed: bool,
    pub remember: Option<bool>,
}

/// What is settled before anybody is asked: an explicit entry decides, then an
/// answer given earlier.
pub open spec fn settled(cfg: PermissionConfigView, answer: Option<bool>, domain: Seq<char>) -> Option<
    bool,
> {
    match deciding_entry(cfg, lowered(domain)) {
        Some(e) => Some(e.state == DomainState::Enabled),
        None => answer,
    }
}

pub open spec fn prompt_for(domain: Seq<char>) -> Seq<char> {
    "archietect: enable the '"@ + lowered(domain)
        + "' domain (unstructured/personal content)?"@
}

/// What is settled before anybody is asked.
pub fn settle(cfg: &PermissionConfig, answer: Option<bool>, domain: &str) -> (r: Option<bool>)
    ensures
        r == settled(cfg.deep_view(), answer, domain@),
{
    let d = lowercase(domain);
    match cfg.deciding(d.as_str()) {
        Some(e) => Some(e.state == DomainState::Enabled),
        None => answer,
    }
}

/// What an answer comes to: only a decision is remembered.
pub fn answered(allowed: bool, is_decision: bool) -> (r: Confirmed)
    ensures
        r.allowed == allowed,
        r.remember == (if is_decision {
            Some(allowed)
        } else {
            None
        }),
{
    Confirmed {
        allowed,
        remember: if is_decision {
            Some(allowed)
        } else {
            None
        },
    }
}

/// The asker was asked about a domain, in the words of its prompt, and gave the
/// answer of an outcome; the answer is to be remembered exactly where it is a
/// decision.
pub open spec fn was_asked<A: ConfirmationAsker>(domain: Seq<char>, asker: &A, r: Confirmed) -> bool {
    &&& exists|p: &str| #[trigger]
        p@ == prompt_for(domain) && call_ensures(A::confirm, (asker, p), r.allowed)
    &&& exists|k: bool| #[trigger]
        call_ensures(A::answers_are_decisions, (asker,), k) && r.remember == (if k {
            Some(r.allowed)
        } else {
            None
        })
}

/// What asking about an unstructured domain may come to: what is settled stays,
/// and nobody is asked about it; about anything else the asker is asked.
pub open spec fn is_outcome<A: ConfirmationAsker>(
    cfg: PermissionConfigView,
    confirmations: Option<Seq<char>>,
    domain: Seq<char>,
    asker: &A,
    r: Confirmed,
) -> bool {
    match settled(cfg, recorded(confirmations, lowered(domain)), domain) {
        Some(allowed) => r == (Confirmed { allowed, remember: None }),
        None => was_asked(domain, asker, r),
    }
}

/// Asking about an unstructured domain: an explicit entry is honoured without
/// asking, an earlier answer likewise; otherwise the asker is asked once, and a
/// decision is to be remembered.
pub fn domain_allowed_with_confirmation<A: ConfirmationAsker>(
    cfg: &PermissionConfig,
    confirmations: Option<&str>,
    domain: &str,
    asker: &A,
) -> (r: Confirmed)
    ensures
        is_outcome(cfg.deep_view(), str_view(confirmations), domain@, asker, r),
{
    let d = lowercase(domain);
    let answer = confirmation_state(confirmations, d.as_str());
    if let Some(allowed) = settle(cfg, answer, domain) {
        return Confirmed { allowed, remember: None };
    }
    let mut prompt = owned("archietect: enable the '");
    prompt.append(d.as_str());
    prompt.append("' domain (unstructured/personal content)?");
    let p = prompt.as_str();
    let allowed = asker.confirm(p);
    assert(p@ == prompt_for(domain@) && call_ensures(A::confirm, (asker, p), allowed));
    let is_decision = asker.answers_are_decisions();
    assert(call_ensures(A::answers_are_decisions, (asker,), is_decision));
    answered(allowed, is_decision)
}

/// What is to be written in place of a file of confirmations after a domain was
/// asked about: nothing where there is nothing to remember, else the file with
/// the answer; an error where that cannot be written.
pub fn answer_to_keep(confirmations: Option<&str>, domain: &str, answer: &Confirmed) -> (r: Result<
    Option<String>,
    String,
>)
    ensures
        match (answer.remember, r) {
            (None, Ok(None)) => true,
            (Some(allowed), Ok(Some(s))) => can_be_kept(
                str_view(confirmations),
                lowered(domain@),
            ) ==> is_kept(str_view(confirmations), lowered(domain@), allowed, s@),
            (Some(_), Err(e)) => e@ == "serializing confirmations"@ && !can_be_written(
                str_view(confirmations),
            ) && !can_be_kept(str_view(confirmations), lowered(domain@)),
            _ => false,
        },
{
    match answer.remember {
        None => Ok(None),
        Some(allowed) => match remembered(confirmations, lowercase(domain).as_str(), allowed) {
            Some(s) => Ok(Some(s)),
            None => Err(owned("serializing confirmations")),
        },
    }
}

// ---------------------------------------------------------------------------
// Denials that no configuration lifts
// ---------------------------------------------------------------------------

pub open spec fn is_forbidden_component(c: Seq<char>) -> bool {
    ||| c == ".ssh"@
    ||| c == ".aws"@
    ||| c == ".gnupg"@
    ||| c == ".mozilla"@
    ||| c == "google-chrome"@
    ||| c == "chromium"@
    ||| c == "brave-browser"@
    ||| c == "bravesoftware"@
}

pub open spec fn is_secret_name(name: Seq<char>) -> bool {
    ||| contains(name, "credential"@)
    ||| contains(name, "secret"@)
    ||| contains(name, ".pem"@)
    ||| contains(name, ".pfx"@)
    ||| contains(name, "id_rsa"@)
    ||| contains(name, "id_ed25519"@)
    ||| contains(name, "id_ecdsa"@)
}

/// A path that is never read: it passes through a directory of keys or a
/// browser's profile, or its name looks like a secret.
pub open spec fn is_denied(path: Seq<char>) -> bool {
    let parts = split(path, '/');
    ||| exists|i: int| 0 <= i < parts.len() && is_forbidden_component(lowered(#[trigger] parts[i]))
    ||| (final_name(parts) matches Some(name) && is_secret_name(lowered(name)))
}

fn forbidden_component(c: &str) -> (r: bool)
    ensures
        r == is_forbidden_component(c@),
{
    same(c, ".ssh") || same(c, ".aws") || same(c, ".gnupg") || same(c, ".mozilla") || same(
        c,
        "google-chrome",
    ) || same(c, "chromium") || same(c, "brave-browser") || same(c, "bravesoftware")
}

fn secret_name(n: &str) -> (r: bool)
    ensures
        r == is_secret_name(n@),
{
    holds(n, "credential") || holds(n, "secret") || holds(n, ".pem") || holds(n, ".pfx") || holds(
        n,
        "id_rsa",
    ) || holds(n, "id_ed25519") || holds(n, "id_ecdsa")
}

fn is_hardcoded_denied(path: &str) -> (r: bool)
    ensures
        r == is_denied(path@),
{
    let parts = split_at_char(path, '/');
    let ghost pv = split(path@, '/');
    let mut i: usize = 0;
    while i < parts.len()
        invariant
            i <= parts.len(),
            pv == parts.deep_view(),
            pv == split(path@, '/'),
            forall|j: int| 0 <= j < i ==> !is_forbidden_component(lowered(#[trigger] pv[j])),
        decreases parts.len() - i,
    {
        assert(pv[i as int] == parts[i as int]@);
        if forbidden_component(lowercase(parts[i].as_str()).as_str()) {
            return true;
        }
        i += 1;
    }
    match final_name_of(&parts) {
        Some(name) => secret_name(lowercase(name.as_str()).as_str()),
        None => false,
    }
}

pub open spec fn is_resource_allowed(
    cfg: PermissionConfigView,
    domain: Seq<char>,
    path: Seq<char>,
) -> bool {
    !is_denied(path) && is_domain_allowed(cfg, domain)
}

/// Whether a path may be read under a domain.
pub fn resource_allowed(cfg: &PermissionConfig, domain: &str, path: &str) -> (r: bool)
    ensures
        r == is_resource_allowed(cfg.deep_view(), domain@, path@),
{
    if is_hardcoded_denied(path) {
        return false;
    }
    domain_allowed(cfg, domain)
}

// ---------------------------------------------------------------------------
// Attributes
// ---------------------------------------------------------------------------

pub open spec fn same_attribute(a: Seq<char>, b: Seq<char>) -> bool {
    ascii_lower(a) == ascii_lower(b)
}

pub open spec fn lists_attribute(l: Seq<Seq<char>>, attribute: Seq<char>) -> bool {
    exists|i: int| 0 <= i < l.len() && same_attribute(#[trigger] l[i], attribute)
}

/// Whether an attribute may be read: any of a structured domain; of another one
/// those that are listed, and without a list the name and the metadata.
pub open spec fn is_attribute_allowed(
    cfg: PermissionConfigView,
    domain: Seq<char>,
    attribute: Seq<char>,
) -> bool {
    let d = lowered(domain);
    let list = match deciding_entry(cfg, d) {
        Some(e) => e.attributes,
        None => None,
    };
    if is_structured(d) {
        true
    } else {
        match list {
            Some(l) => lists_attribute(l, attribute),
            None => same_attribute(attribute, "filename"@) || same_attribute(
                attribute,
                "metadata"@,
            ),
        }
    }
}

/// Whether an attribute of a domain's resources may be read.
pub fn attribute_allowed(cfg: &PermissionConfig, domain: &str, attribute: &str) -> (r: bool)
    ensures
        r == is_attribute_allowed(cfg.deep_view(), domain@, attribute@),
{
    let d = lowercase(domain);
    if structured(d.as_str()) {
        return true;
    }
    if let Some(e) = cfg.deciding(d.as_str()) {
        if let Some(list) = &e.attributes {
            let mut i: usize = 0;
            while i < list.len()
                invariant
                    i <= list.len(),
                    deciding_entry(cfg.deep_view(), lowered(domain@)) == Some(e.deep_view()),
                    e.attributes == Some(*list),
                    forall|j: int|
                        0 <= j < i ==> !same_attribute(
                            #[trigger] list.deep_view()[j],
                            attribute@,
                        ),
                decreases list.len() - i,
            {
                assert(list.deep_view()[i as int] == list[i as int]@);
                if same_ignoring_case(list[i].as_str(), attribute) {
                    return true;
                }
                i += 1;
            }
            return false;
        }
    }
    same_ignoring_case(attribute, "filename") || same_ignoring_case(attribute, "metadata")
}

// ---------------------------------------------------------------------------
// The report
// ---------------------------------------------------------------------------

/// Where the state of a domain comes from.
#[derive(Clone, Copy, Debug, PartialEq, Eq, Structural)]
pub enum StateSource {
    ProjectConfig,
    GlobalConfig,
    DefaultEnabled,
    DefaultDisabled,
}

impl StateSource {
    pub open spec fn label_text(self) -> Seq<char> {
        match self {
            StateSource::ProjectConfig => "project-config"@,
            StateSource::GlobalConfig => "global-config"@,
            StateSource::DefaultEnabled => "default-enabled"@,
            StateSource::DefaultDisabled => "default-disabled"@,
        }
    }

    pub fn label(&self) -> (r: &'static str)
        ensures
            r@ == self.label_text(),
    {
        match self {
            StateSource::ProjectConfig => "project-config",
            StateSource::GlobalConfig => "global-config",
            StateSource::DefaultEnabled => "default-enabled",
            StateSource::DefaultDisabled => "default-disabled",
        }
    }

    /// Whether somebody set the state.
    pub open spec fn is_explicit(self) -> bool {
        self == StateSource::ProjectConfig || self == StateSource::GlobalConfig
    }

    pub fn explicit(&self) -> (r: bool)
        ensures
            r == self.is_explicit(),
    {
        *self == StateSource::ProjectConfig || *self == StateSource::GlobalConfig
    }
}

/// The state of a domain, with its source.
pub open spec fn sourced(cfg: PermissionConfigView, d: Seq<char>) -> (bool, StateSource) {
    match lookup(cfg.project, d) {
        Some(e) => (e.state == DomainState::Enabled, StateSource::ProjectConfig),
        None => match lookup(cfg.global, d) {
            Some(e) => (e.state == DomainState::Enabled, StateSource::GlobalConfig),
            None => if is_enabled_by_default(d) {
                (true, StateSource::DefaultEnabled)
            } else {
                (false, StateSource::DefaultDisabled)
            },
        },
    }
}

pub fn resolve_with_source(cfg: &PermissionConfig, domain: &str) -> (r: (bool, StateSource))
    ensures
        r == sourced(cfg.deep_view(), domain@),
{
    if let Some(e) = cfg.project.get(domain) {
        return (e.state == DomainState::Enabled, StateSource::ProjectConfig);
    }
    if let Some(e) = cfg.global.get(domain) {
        return (e.state == DomainState::Enabled, StateSource::GlobalConfig);
    }
    if enabled_by_default(domain) {
        (true, StateSource::DefaultEnabled)
    } else {
        (false, StateSource::DefaultDisabled)
    }
}

/// One domain's line in the report.
#[derive(Debug)]
pub struct DomainReport {
    pub domain: String,
    pub structured: bool,
    pub allowed: bool,
    pub source: StateSource,
}

pub struct DomainReportView {
    pub domain: Seq<char>,
    pub structured: bool,
    pub allowed: bool,
    pub source: StateSource,
}

impl DeepView for DomainReport {
    type V = DomainReportView;

    open spec fn deep_view(&self) -> DomainReportView {
        DomainReportView {
            domain: self.domain@,
            structured: self.structured,
            allowed: self.allowed,
            source: self.source,
        }
    }
}

pub open spec fn report_line(cfg: PermissionConfigView, d: Seq<char>) -> DomainReportView {
    DomainReportView {
        domain: d,
        structured: is_structured(lowered(d)),
        allowed: sourced(cfg, d).0,
        source: sourced(cfg, d).1,
    }
}

/// Every known domain: the structured ones, then the others.
pub open spec fn known_domains() -> Seq<Seq<char>> {
    seq![
        "code"@,
        "git"@,
        "docker"@,
        "systemd"@,
        "photos"@,
        "messages"@,
        "documents"@,
        "browser"@,
    ]
}

pub open spec fn each_report(cfg: PermissionConfigView) -> spec_fn(Seq<char>) -> DomainReportView {
    |d: Seq<char>| report_line(cfg, d)
}

fn known_domain_list() -> (r: Vec<&'static str>)
    ensures
        r@.len() == known_domains().len(),
        forall|i: int| 0 <= i < r@.len() ==> (#[trigger] r@[i])@ == known_domains()[i],
{
    let mut v: Vec<&'static str> = Vec::new();
    v.push("code");
    v.push("git");
    v.push("docker");
    v.push("systemd");
    v.push("photos");
    v.push("messages");
    v.push("documents");
    v.push("browser");
    v
}

/// The state of every known domain, whether or not anything can look at it yet.
pub fn report(cfg: &PermissionConfig) -> (r: Vec<DomainReport>)
    ensures
        r.deep_view() == known_domains().map_values(each_report(cfg.deep_view())),
{
    let names = known_domain_list();
    let ghost all = known_domains().map_values(each_report(cfg.deep_view()));
    let mut out: Vec<DomainReport> = Vec::new();
    let mut i: usize = 0;
    while i < names.len()
        invariant
            i <= names.len(),
            names.len() == known_domains().len(),
            forall|j: int| 0 <= j < names.len() ==> (#[trigger] names[j])@ == known_domains()[j],
            all == known_domains().map_values(each_report(cfg.deep_view())),
            out.deep_view() =~= all.take(i as int),
        decreases names.len() - i,
    {
        let ghost so_far = out.deep_view();
        let d = names[i];
        let (allowed, source) = resolve_with_source(cfg, d);
        out.push(
            DomainReport { domain: owned(d), structured: is_structured_domain(d), allowed, source },
        );
        assert(out.deep_view() =~= so_far.push(all[i as int]));
        i += 1;
    }
    assert(all.take(i as int) =~= all);
    out
}

// ---------------------------------------------------------------------------
// Laws
// ---------------------------------------------------------------------------

/// The project's own entry decides on a domain, whatever the user's says.
pub proof fn law_project_beats_global(
    cfg: PermissionConfigView,
    other: Seq<(Seq<char>, DomainEntryView)>,
    domain: Seq<char>,
)
    requires
        has_key(cfg.project, lowered(domain)),
    ensures
        is_domain_allowed(cfg, domain) == is_domain_allowed(
            PermissionConfigView { global: other, ..cfg },
            domain,
        ),
        is_domain_allowed(cfg, domain) == (lookup(cfg.project, lowered(domain))->0.state
            == DomainState::Enabled),
{
}

/// With no configuration anywhere exactly the domains `code` and `git` are
/// allowed.
pub proof fn law_default_is_deny(domain: Seq<char>)
    ensures
        is_domain_allowed(PermissionConfigView { global: seq![], project: seq![] }, domain) == (
        lowered(domain) == "code"@ || lowered(domain) == "git"@),
{
}

/// No configuration lifts a denial: what is denied is denied under every
/// configuration and every domain.
pub proof fn law_denials_are_final(cfg: PermissionConfigView, domain: Seq<char>, path: Seq<char>)
    requires
        is_denied(path),
    ensures
        !is_resource_allowed(cfg, domain, path),
{
}

/// An explicit entry is honoured whatever was answered before, and an answer
/// given before settles the matter when there is no entry: nobody is asked
/// twice.
pub proof fn law_nobody_is_asked_twice(
    cfg: PermissionConfigView,
    before: TreeView,
    domain: Seq<char>,
    allowed: bool,
    after: TreeView,
)
    requires
        is_answered(before, domain, allowed, after),
    ensures
        settled(cfg, recorded_in(after, domain), domain) == Some(
            match deciding_entry(cfg, lowered(domain)) {
                Some(e) => e.state == DomainState::Enabled,
                None => allowed,
            },
        ),
{
}

/// A decision is asked for once: where an answer was to be remembered and the
/// confirmations were written with it, the same question gets the same answer,
/// and whoever could be asked then is not.
pub proof fn law_decisions_are_kept<A: ConfirmationAsker, B: ConfirmationAsker>(
    cfg: PermissionConfigView,
    before: Option<Seq<char>>,
    domain: Seq<char>,
    asker: &A,
    first: Confirmed,
    written: Seq<char>,
    other: &B,
    second: Confirmed,
)
    requires
        is_outcome(cfg, before, domain, asker, first),
        first.remember is Some,
        is_kept(before, lowered(domain), first.remember->0, written),
        is_outcome(cfg, Some(written), domain, other, second),
    ensures
        first.remember == Some(first.allowed),
        second == (Confirmed { allowed: first.allowed, remember: None }),
        settled(cfg, recorded(Some(written), lowered(domain)), domain) == Some(first.allowed),
{
}

/// A person who is asked decides: the answer of an asker whose answers are
/// decisions is to be remembered.
pub proof fn law_decisions_are_to_be_remembered<A: ConfirmationAsker>(
    cfg: PermissionConfigView,
    confirmations: Option<Seq<char>>,
    domain: Seq<char>,
    asker: &A,
    r: Confirmed,
)
    requires
        settled(cfg, recorded(confirmations, lowered(domain)), domain) is None,
        forall|k: bool| #[trigger] call_ensures(A::answers_are_decisions, (asker,), k) ==> k,
        is_outcome(cfg, confirmations, domain, asker, r),
    ensures
        r.remember == Some(r.allowed),
{
}

/// An answer that is no decision is not kept, so that the next who can be asked
/// is asked.
pub proof fn law_refusals_of_nobody_are_not_kept<A: ConfirmationAsker, B: ConfirmationAsker>(
    cfg: PermissionConfigView,
    confirmations: Option<Seq<char>>,
    domain: Seq<char>,
    asker: &A,
    first: Confirmed,
    other: &B,
    second: Confirmed,
)
    requires
        settled(cfg, recorded(confirmations, lowered(domain)), domain) is None,
        forall|k: bool| #[trigger] call_ensures(A::answers_are_decisions, (asker,), k) ==> !k,
        is_outcome(cfg, confirmations, domain, asker, first),
        is_outcome(cfg, confirmations, domain, other, second),
    ensures
        first.remember is None,
        was_asked(domain, other, second),
{
}

/// Recording one answer keeps it, every other domain's answer and every other
/// part of the document.
pub proof fn law_recording_keeps_the_rest(
    before: TreeView,
    domain: Seq<char>,
    allowed: bool,
    after: TreeView,
)
    requires
        is_answered(before, domain, allowed, after),
    ensures
        recorded_in(after, domain) == Some(allowed),
        forall|other: Seq<char>|
            other != domain ==> #[trigger] recorded_in(after, other) == recorded_in(before, other),
        forall|k: Seq<char>|
            k != "confirmations"@ ==> #[trigger] field(after, k) == field(before, k),
{
}

/// The report and the permission never disagree.
pub proof fn law_report_agrees_with_gate(cfg: PermissionConfigView, d: Seq<char>)
    requires
        lowered(d) == d,
    ensures
        sourced(cfg, d).0 == is_domain_allowed(cfg, d),
{
}

} // verus!
