//! What a client asks the engine for, whichever way it comes in. A transport
//! reads its own arguments and holds no other logic.
use vstd::prelude::*;
use crate::mcp::{or_empty, tool_from, tool_named, tools, Tool};
use crate::numbers::{unsigned, unsigned_value};
use crate::proposal::Kind;
use crate::rest::{flag_of, number_of, number_param, param, param_of, Endpoint};
use crate::table::{lookup, TextMap};
use crate::text::{owned, same};
use crate::tree::{field, text_field, Tree, TreeView};

verus! {

/// A patch that is handed in as a proposal.
#[derive(Debug)]
pub struct Submission {
    pub kind: Kind,
    pub title: String,
    pub description: String,
    pub language: Option<String>,
    pub preview_repo: Option<String>,
    pub patch: String,
}

pub struct SubmissionView {
    pub kind: Kind,
    pub title: Seq<char>,
    pub description: Seq<char>,
    pub language: Option<Seq<char>>,
    pub preview_repo: Option<Seq<char>>,
    pub patch: Seq<char>,
}

impl DeepView for Submission {
    type V = SubmissionView;

    open spec fn deep_view(&self) -> SubmissionView {
        SubmissionView {
            kind: self.kind,
            title: self.title@,
            description: self.description@,
            language: self.language.deep_view(),
            preview_repo: self.preview_repo.deep_view(),
            patch: self.patch@,
        }
    }
}

/// A claim in the engine's own terms.
#[derive(Debug)]
pub struct StatedClaim {
    pub kind: String,
    pub target: Option<String>,
    pub min: Option<u64>,
    pub within: Option<String>,
}

pub struct StatedClaimView {
    pub kind: Seq<char>,
    pub target: Option<Seq<char>>,
    pub min: Option<nat>,
    pub within: Option<Seq<char>>,
}

impl DeepView for StatedClaim {
    type V = StatedClaimView;

    open spec fn deep_view(&self) -> StatedClaimView {
        StatedClaimView {
            kind: self.kind@,
            target: self.target.deep_view(),
            min: match self.min {
                Some(n) => Some(n as nat),
                None => None,
            },
            within: self.within.deep_view(),
        }
    }
}

/// What is asked for.
#[derive(Debug)]
pub enum Request {
    Page,
    Laws,
    Concept(String),
    Intent(String),
    Impact(String),
    Imports(String),
    Owner(String),
    Guard(String),
    Plan(String),
    Status,
    Doctor,
    Tour,
    Duplicates,
    DuplicateLogic,
    Verdicts,
    /// A file and the content that it is to have.
    VerifyEdit(String, String),
    Claim(String),
    StatedClaim(StatedClaim),
    /// The latest events, of one concept or of all.
    History(Option<String>, u64),
    /// The latest events told in a few sentences.
    Digest(u64),
    Ci(String, bool),
    Submit(Submission),
    ListProposals,
    Inspect(u64),
    Test(u64),
    Accept(u64),
    Reject(u64, bool),
    Permissions,
    /// A path and the domain that it is looked at for.
    CheckPath(String, String),
    /// The register, with what changed since it was last asked for or without.
    Register(bool),
    SystemList,
    SystemQuery(String),
    SystemStatus,
    SystemRegister,
    Documents(String),
    Photos(String),
    Messages,
    Observe,
    /// The request cannot be served, and why.
    Fault(String),
}

pub enum RequestView {
    Page,
    Laws,
    Concept(Seq<char>),
    Intent(Seq<char>),
    Impact(Seq<char>),
    Imports(Seq<char>),
    Owner(Seq<char>),
    Guard(Seq<char>),
    Plan(Seq<char>),
    Status,
    Doctor,
    Tour,
    Duplicates,
    DuplicateLogic,
    Verdicts,
    VerifyEdit(Seq<char>, Seq<char>),
    Claim(Seq<char>),
    StatedClaim(StatedClaimView),
    History(Option<Seq<char>>, nat),
    Digest(nat),
    Ci(Seq<char>, bool),
    Submit(SubmissionView),
    ListProposals,
    Inspect(nat),
    Test(nat),
    Accept(nat),
    Reject(nat, bool),
    Permissions,
    CheckPath(Seq<char>, Seq<char>),
    Register(bool),
    SystemList,
    SystemQuery(Seq<char>),
    SystemStatus,
    SystemRegister,
    Documents(Seq<char>),
    Photos(Seq<char>),
    Messages,
    Observe,
    Fault(Seq<char>),
}

impl DeepView for Request {
    type V = RequestView;

    open spec fn deep_view(&self) -> RequestView {
        match self {
            Request::Page => RequestView::Page,
            Request::Laws => RequestView::Laws,
            Request::Concept(t) => RequestView::Concept(t@),
            Request::Intent(t) => RequestView::Intent(t@),
            Request::Impact(t) => RequestView::Impact(t@),
            Request::Imports(t) => RequestView::Imports(t@),
            Request::Owner(t) => RequestView::Owner(t@),
            Request::Guard(t) => RequestView::Guard(t@),
            Request::Plan(t) => RequestView::Plan(t@),
            Request::Status => RequestView::Status,
            Request::Doctor => RequestView::Doctor,
            Request::Tour => RequestView::Tour,
            Request::Duplicates => RequestView::Duplicates,
            Request::DuplicateLogic => RequestView::DuplicateLogic,
            Request::Verdicts => RequestView::Verdicts,
            Request::VerifyEdit(f, c) => RequestView::VerifyEdit(f@, c@),
            Request::Claim(s) => RequestView::Claim(s@),
            Request::StatedClaim(c) => RequestView::StatedClaim(c.deep_view()),
            Request::History(c, n) => RequestView::History(c.deep_view(), *n as nat),
            Request::Digest(n) => RequestView::Digest(*n as nat),
            Request::Ci(d, s) => RequestView::Ci(d@, *s),
            Request::Submit(s) => RequestView::Submit(s.deep_view()),
            Request::ListProposals => RequestView::ListProposals,
            Request::Inspect(n) => RequestView::Inspect(*n as nat),
            Request::Test(n) => RequestView::Test(*n as nat),
            Request::Accept(n) => RequestView::Accept(*n as nat),
            Request::Reject(n, p) => RequestView::Reject(*n as nat, *p),
            Request::Permissions => RequestView::Permissions,
            Request::CheckPath(p, d) => RequestView::CheckPath(p@, d@),
            Request::Register(s) => RequestView::Register(*s),
            Request::SystemList => RequestView::SystemList,
            Request::SystemQuery(t) => RequestView::SystemQuery(t@),
            Request::SystemStatus => RequestView::SystemStatus,
            Request::SystemRegister => RequestView::SystemRegister,
            Request::Documents(d) => RequestView::Documents(d@),
            Request::Photos(d) => RequestView::Photos(d@),
            Request::Messages => RequestView::Messages,
            Request::Observe => RequestView::Observe,
            Request::Fault(e) => RequestView::Fault(e@),
        }
    }
}

impl RequestView {
    /// A request that writes something.
    pub open spec fn writes(self) -> bool {
        match self {
            RequestView::Submit(_) | RequestView::Test(_) | RequestView::Accept(_)
            | RequestView::Reject(_, _) | RequestView::SystemRegister => true,
            _ => false,
        }
    }
}

// ---------------------------------------------------------------------------
// Kinds of proposals
// ---------------------------------------------------------------------------

pub open spec fn kind_of_name(name: Seq<char>) -> Option<Kind> {
    if name == "extractor"@ {
        Some(Kind::Extractor)
    } else if name == "decision"@ {
        Some(Kind::Decision)
    } else if name == "alias"@ {
        Some(Kind::Alias)
    } else {
        None
    }
}

/// The kind of proposal of a name.
pub fn kind_named(name: &str) -> (r: Option<Kind>)
    ensures
        r == kind_of_name(name@),
{
    if same(name, "extractor") {
        Some(Kind::Extractor)
    } else if same(name, "decision") {
        Some(Kind::Decision)
    } else if same(name, "alias") {
        Some(Kind::Alias)
    } else {
        None
    }
}

pub open spec fn unknown_kind(name: Seq<char>) -> Seq<char> {
    "unknown proposal kind '"@ + name + "' — expected extractor, decision, or alias"@
}

pub open spec fn submission(
    kind: Seq<char>,
    title: Seq<char>,
    description: Seq<char>,
    language: Option<Seq<char>>,
    preview_repo: Option<Seq<char>>,
    patch: Seq<char>,
) -> RequestView {
    match kind_of_name(kind) {
        Some(k) => RequestView::Submit(
            SubmissionView { kind: k, title, description, language, preview_repo, patch },
        ),
        None => RequestView::Fault(unknown_kind(kind)),
    }
}

fn submission_of(
    kind: &str,
    title: String,
    description: String,
    language: Option<String>,
    preview_repo: Option<String>,
    patch: String,
) -> (r: Request)
    ensures
        r.deep_view() == submission(
            kind@,
            title@,
            description@,
            language.deep_view(),
            preview_repo.deep_view(),
            patch@,
        ),
{
    match kind_named(kind) {
        Some(k) => Request::Submit(
            Submission { kind: k, title, description, language, preview_repo, patch },
        ),
        None => {
            let mut e = owned("unknown proposal kind '");
            e.append(kind);
            e.append("' — expected extractor, decision, or alias");
            Request::Fault(e)
        },
    }
}

// ---------------------------------------------------------------------------
// Tools
// ---------------------------------------------------------------------------

pub open spec fn text_arg(args: TreeView, k: Seq<char>) -> Seq<char> {
    or_empty(text_field(args, k))
}

pub open spec fn is_set(args: TreeView, k: Seq<char>) -> bool {
    field(args, k) == Some(TreeView::Flag(true))
}

pub open spec fn number_arg(args: TreeView, k: Seq<char>) -> Option<nat> {
    match field(args, k) {
        Some(TreeView::Number(s)) => unsigned_value(s),
        _ => None,
    }
}

pub open spec fn number_or(n: Option<nat>, default: nat) -> nat {
    match n {
        Some(x) => x,
        None => default,
    }
}

pub open spec fn or_code(d: Option<Seq<char>>) -> Seq<char> {
    match d {
        Some(x) => x,
        None => "code"@,
    }
}

/// What a call of a tool asks for.
pub open spec fn tool_request(t: Tool, args: TreeView) -> RequestView {
    match t {
        Tool::Concept => RequestView::Concept(text_arg(args, "term"@)),
        Tool::Intent => RequestView::Intent(text_arg(args, "text"@)),
        Tool::Impact => RequestView::Impact(text_arg(args, "term"@)),
        Tool::Imports => RequestView::Imports(text_arg(args, "file"@)),
        Tool::Guard => RequestView::Guard(text_arg(args, "sql"@)),
        Tool::Plan => RequestView::Plan(text_arg(args, "text"@)),
        Tool::Owner => RequestView::Owner(text_arg(args, "term"@)),
        Tool::Duplicates => RequestView::Duplicates,
        Tool::DuplicateLogic => RequestView::DuplicateLogic,
        Tool::Verdicts => RequestView::Verdicts,
        Tool::VerifyEdit => RequestView::VerifyEdit(
            text_arg(args, "file"@),
            text_arg(args, "content"@),
        ),
        Tool::Claim => match text_field(args, "type"@) {
            Some(kind) => RequestView::StatedClaim(
                StatedClaimView {
                    kind,
                    target: text_field(args, "target"@),
                    min: number_arg(args, "min"@),
                    within: text_field(args, "within"@),
                },
            ),
            None => RequestView::Claim(text_arg(args, "statement"@)),
        },
        Tool::Status => RequestView::Status,
        Tool::Doctor => RequestView::Doctor,
        Tool::Tour => RequestView::Tour,
        Tool::History => if is_set(args, "digest"@) {
            RequestView::Digest(number_or(number_arg(args, "limit"@), 50))
        } else {
            RequestView::History(
                text_field(args, "concept"@),
                number_or(number_arg(args, "limit"@), 50),
            )
        },
        Tool::Ci => RequestView::Ci(text_arg(args, "diff"@), is_set(args, "strict"@)),
        Tool::ProposalSubmit => submission(
            text_arg(args, "kind"@),
            text_arg(args, "title"@),
            text_arg(args, "description"@),
            text_field(args, "lang"@),
            text_field(args, "preview_repo"@),
            text_arg(args, "patch"@),
        ),
        Tool::ProposalList => RequestView::ListProposals,
        Tool::ProposalInspect => RequestView::Inspect(number_or(number_arg(args, "id"@), 0)),
        Tool::ProposalTest => RequestView::Test(number_or(number_arg(args, "id"@), 0)),
        Tool::ProposalAccept => RequestView::Accept(number_or(number_arg(args, "id"@), 0)),
        Tool::ProposalReject => RequestView::Reject(
            number_or(number_arg(args, "id"@), 0),
            is_set(args, "purge"@),
        ),
        Tool::Register => RequestView::Register(is_set(args, "since_last"@)),
        Tool::Permissions => RequestView::Permissions,
        Tool::PermissionsCheck => RequestView::CheckPath(
            text_arg(args, "path"@),
            or_code(text_field(args, "domain"@)),
        ),
        Tool::SystemList => RequestView::SystemList,
        Tool::SystemQuery => RequestView::SystemQuery(text_arg(args, "term"@)),
        Tool::SystemStatus => RequestView::SystemStatus,
        Tool::SystemRegister => RequestView::SystemRegister,
        Tool::DocumentsScan => if text_arg(args, "dir"@).len() == 0 {
            RequestView::Fault("missing required 'dir' argument"@)
        } else {
            RequestView::Documents(text_arg(args, "dir"@))
        },
        Tool::PhotosScan => if text_arg(args, "dir"@).len() == 0 {
            RequestView::Fault("missing required 'dir' argument"@)
        } else {
            RequestView::Photos(text_arg(args, "dir"@))
        },
        Tool::MessagesScan => RequestView::Messages,
        Tool::DockerObserve => RequestView::Observe,
    }
}

/// What a call by name asks for.
pub open spec fn call_request(name: Seq<char>, args: TreeView) -> RequestView {
    match tool_from(tools(), name, 0) {
        Some(t) => tool_request(t, args),
        None => RequestView::Fault("unknown tool "@ + name),
    }
}

fn text_in(args: &Tree, k: &str) -> (r: String)
    ensures
        r@ == text_arg(args.deep_view(), k@),
{
    match args.text_field(k) {
        Some(s) => s,
        None => owned(""),
    }
}

fn set_in(args: &Tree, k: &str) -> (r: bool)
    ensures
        r == is_set(args.deep_view(), k@),
{
    match args.field(k) {
        Some(Tree::Flag(b)) => *b,
        _ => false,
    }
}

fn number_in(args: &Tree, k: &str) -> (r: Option<u64>)
    ensures
        match r {
            Some(n) => number_arg(args.deep_view(), k@) == Some(n as nat),
            None => number_arg(args.deep_view(), k@) is None,
        },
{
    match args.field(k) {
        Some(Tree::Number(s)) => unsigned(s.as_str()),
        _ => None,
    }
}

fn number_in_or(args: &Tree, k: &str, default: u64) -> (r: u64)
    ensures
        r == number_or(number_arg(args.deep_view(), k@), default as nat),
{
    match number_in(args, k) {
        Some(n) => n,
        None => default,
    }
}

fn folder_in(args: &Tree) -> (r: Result<String, Request>)
    ensures
        match r {
            Ok(dir) => dir@ == text_arg(args.deep_view(), "dir"@) && dir@.len() > 0,
            Err(e) => text_arg(args.deep_view(), "dir"@).len() == 0 && e.deep_view()
                == RequestView::Fault("missing required 'dir' argument"@),
        },
{
    let dir = text_in(args, "dir");
    if dir.as_str().is_empty() {
        Err(Request::Fault(owned("missing required 'dir' argument")))
    } else {
        Ok(dir)
    }
}

/// What a call of a tool asks for.
pub fn of_tool(t: Tool, args: &Tree) -> (r: Request)
    ensures
        r.deep_view() == tool_request(t, args.deep_view()),
{
    match t {
        Tool::Concept => Request::Concept(text_in(args, "term")),
        Tool::Intent => Request::Intent(text_in(args, "text")),
        Tool::Impact => Request::Impact(text_in(args, "term")),
        Tool::Imports => Request::Imports(text_in(args, "file")),
        Tool::Guard => Request::Guard(text_in(args, "sql")),
        Tool::Plan => Request::Plan(text_in(args, "text")),
        Tool::Owner => Request::Owner(text_in(args, "term")),
        Tool::Duplicates => Request::Duplicates,
        Tool::DuplicateLogic => Request::DuplicateLogic,
        Tool::Verdicts => Request::Verdicts,
        Tool::VerifyEdit => Request::VerifyEdit(text_in(args, "file"), text_in(args, "content")),
        Tool::Claim => match args.text_field("type") {
            Some(kind) => Request::StatedClaim(
                StatedClaim {
                    kind,
                    target: args.text_field("target"),
                    min: number_in(args, "min"),
                    within: args.text_field("within"),
                },
            ),
            None => Request::Claim(text_in(args, "statement")),
        },
        Tool::Status => Request::Status,
        Tool::Doctor => Request::Doctor,
        Tool::Tour => Request::Tour,
        Tool::History => {
            let limit: u64 = number_in_or(args, "limit", 50);
            if set_in(args, "digest") {
                Request::Digest(limit)
            } else {
                Request::History(args.text_field("concept"), limit)
            }
        },
        Tool::Ci => Request::Ci(text_in(args, "diff"), set_in(args, "strict")),
        Tool::ProposalSubmit => submission_of(
            text_in(args, "kind").as_str(),
            text_in(args, "title"),
            text_in(args, "description"),
            args.text_field("lang"),
            args.text_field("preview_repo"),
            text_in(args, "patch"),
        ),
        Tool::ProposalList => Request::ListProposals,
        Tool::ProposalInspect => Request::Inspect(number_in_or(args, "id", 0)),
        Tool::ProposalTest => Request::Test(number_in_or(args, "id", 0)),
        Tool::ProposalAccept => Request::Accept(number_in_or(args, "id", 0)),
        Tool::ProposalReject => Request::Reject(
            number_in_or(args, "id", 0),
            set_in(args, "purge"),
        ),
        Tool::Register => Request::Register(set_in(args, "since_last")),
        Tool::Permissions => Request::Permissions,
        Tool::PermissionsCheck => {
            let domain = match args.text_field("domain") {
                Some(d) => d,
                None => owned("code"),
            };
            Request::CheckPath(text_in(args, "path"), domain)
        },
        Tool::SystemList => Request::SystemList,
        Tool::SystemQuery => Request::SystemQuery(text_in(args, "term")),
        Tool::SystemStatus => Request::SystemStatus,
        Tool::SystemRegister => Request::SystemRegister,
        Tool::DocumentsScan => match folder_in(args) {
            Ok(dir) => Request::Documents(dir),
            Err(e) => e,
        },
        Tool::PhotosScan => match folder_in(args) {
            Ok(dir) => Request::Photos(dir),
            Err(e) => e,
        },
        Tool::MessagesScan => Request::Messages,
        Tool::DockerObserve => Request::Observe,
    }
}

/// What a call by name asks for.
pub fn of_call(name: &str, args: &Tree) -> (r: Request)
    ensures
        r.deep_view() == call_request(name@, args.deep_view()),
{
    match tool_named(name) {
        Some(t) => of_tool(t, args),
        None => {
            let mut e = owned("unknown tool ");
            e.append(name);
            Request::Fault(e)
        },
    }
}

// ---------------------------------------------------------------------------
// Endpoints
// ---------------------------------------------------------------------------

/// What a request for an endpoint asks for.
pub open spec fn endpoint_request(e: Endpoint, p: Seq<(Seq<char>, Seq<char>)>) -> RequestView {
    match e {
        Endpoint::Page => RequestView::Page,
        Endpoint::Laws => RequestView::Laws,
        Endpoint::SystemList => RequestView::SystemList,
        Endpoint::SystemQuery => RequestView::SystemQuery(param(p, "q"@)),
        Endpoint::SystemStatus => RequestView::SystemStatus,
        Endpoint::SystemRegister => RequestView::SystemRegister,
        Endpoint::Concept => RequestView::Concept(param(p, "q"@)),
        Endpoint::Intent => RequestView::Intent(param(p, "q"@)),
        Endpoint::Impact => RequestView::Impact(param(p, "q"@)),
        Endpoint::Imports => RequestView::Imports(param(p, "file"@)),
        Endpoint::Owner => RequestView::Owner(param(p, "q"@)),
        Endpoint::Guard => RequestView::Guard(param(p, "sql"@)),
        Endpoint::Plan => RequestView::Plan(param(p, "q"@)),
        Endpoint::Status => RequestView::Status,
        Endpoint::Doctor => RequestView::Doctor,
        Endpoint::Tour => RequestView::Tour,
        Endpoint::Duplicates => RequestView::Duplicates,
        Endpoint::History => RequestView::History(
            lookup(p, "q"@),
            number_param(p, "limit"@, 50),
        ),
        Endpoint::Ci => RequestView::Ci(
            param(p, "diff"@),
            lookup(p, "strict"@) == Some("true"@),
        ),
        Endpoint::ProposalSubmit => submission(
            param(p, "kind"@),
            param(p, "title"@),
            param(p, "description"@),
            lookup(p, "lang"@),
            lookup(p, "preview_repo"@),
            param(p, "patch"@),
        ),
        Endpoint::ProposalList => RequestView::ListProposals,
        Endpoint::ProposalInspect => RequestView::Inspect(number_param(p, "id"@, 0)),
        Endpoint::ProposalTest => RequestView::Test(number_param(p, "id"@, 0)),
        Endpoint::ProposalAccept => RequestView::Accept(number_param(p, "id"@, 0)),
        Endpoint::ProposalReject => RequestView::Reject(
            number_param(p, "id"@, 0),
            lookup(p, "purge"@) == Some("true"@),
        ),
        Endpoint::Permissions => RequestView::Permissions,
        Endpoint::PermissionsCheck => RequestView::CheckPath(
            param(p, "path"@),
            or_code(lookup(p, "domain"@)),
        ),
        Endpoint::Register => RequestView::Register(false),
        Endpoint::DocumentsScan => match lookup(p, "dir"@) {
            Some(dir) => RequestView::Documents(dir),
            None => RequestView::Fault("missing required ?dir=<path> parameter"@),
        },
        Endpoint::PhotosScan => match lookup(p, "dir"@) {
            Some(dir) => RequestView::Photos(dir),
            None => RequestView::Fault("missing required ?dir=<path> parameter"@),
        },
        Endpoint::DockerObserve => RequestView::Observe,
    }
}

fn given(p: &TextMap<String>, k: &str) -> (r: Option<String>)
    ensures
        r.deep_view() == lookup(p.deep_view(), k@),
{
    match p.get(k) {
        Some(v) => Some(owned(v.as_str())),
        None => None,
    }
}

/// What a request for an endpoint asks for.
pub fn of_endpoint(e: Endpoint, p: &TextMap<String>) -> (r: Request)
    ensures
        r.deep_view() == endpoint_request(e, p.deep_view()),
{
    match e {
        Endpoint::Page => Request::Page,
        Endpoint::Laws => Request::Laws,
        Endpoint::SystemList => Request::SystemList,
        Endpoint::SystemQuery => Request::SystemQuery(param_of(p, "q")),
        Endpoint::SystemStatus => Request::SystemStatus,
        Endpoint::SystemRegister => Request::SystemRegister,
        Endpoint::Concept => Request::Concept(param_of(p, "q")),
        Endpoint::Intent => Request::Intent(param_of(p, "q")),
        Endpoint::Impact => Request::Impact(param_of(p, "q")),
        Endpoint::Imports => Request::Imports(param_of(p, "file")),
        Endpoint::Owner => Request::Owner(param_of(p, "q")),
        Endpoint::Guard => Request::Guard(param_of(p, "sql")),
        Endpoint::Plan => Request::Plan(param_of(p, "q")),
        Endpoint::Status => Request::Status,
        Endpoint::Doctor => Request::Doctor,
        Endpoint::Tour => Request::Tour,
        Endpoint::Duplicates => Request::Duplicates,
        Endpoint::History => Request::History(given(p, "q"), number_of(p, "limit", 50)),
        Endpoint::Ci => Request::Ci(param_of(p, "diff"), flag_of(p, "strict")),
        Endpoint::ProposalSubmit => submission_of(
            param_of(p, "kind").as_str(),
            param_of(p, "title"),
            param_of(p, "description"),
            given(p, "lang"),
            given(p, "preview_repo"),
            param_of(p, "patch"),
        ),
        Endpoint::ProposalList => Request::ListProposals,
        Endpoint::ProposalInspect => Request::Inspect(number_of(p, "id", 0)),
        Endpoint::ProposalTest => Request::Test(number_of(p, "id", 0)),
        Endpoint::ProposalAccept => Request::Accept(number_of(p, "id", 0)),
        Endpoint::ProposalReject => Request::Reject(number_of(p, "id", 0), flag_of(p, "purge")),
        Endpoint::Permissions => Request::Permissions,
        Endpoint::PermissionsCheck => {
            let domain = match given(p, "domain") {
                Some(d) => d,
                None => owned("code"),
            };
            Request::CheckPath(param_of(p, "path"), domain)
        },
        Endpoint::Register => Request::Register(false),
        Endpoint::DocumentsScan => match given(p, "dir") {
            Some(dir) => Request::Documents(dir),
            None => Request::Fault(owned("missing required ?dir=<path> parameter")),
        },
        Endpoint::PhotosScan => match given(p, "dir") {
            Some(dir) => Request::Photos(dir),
            None => Request::Fault(owned("missing required ?dir=<path> parameter")),
        },
        Endpoint::DockerObserve => Request::Observe,
    }
}

// ---------------------------------------------------------------------------
// Laws
// ---------------------------------------------------------------------------

/// A question is the same whichever way it comes in.
pub proof fn law_every_way_in_asks_the_same(
    p: Seq<(Seq<char>, Seq<char>)>,
    args: TreeView,
    text: Seq<char>,
)
    requires
        lookup(p, "q"@) == Some(text),
        text_field(args, "term"@) == Some(text),
        text_field(args, "text"@) == Some(text),
    ensures
        endpoint_request(Endpoint::Concept, p) == tool_request(Tool::Concept, args),
        endpoint_request(Endpoint::Impact, p) == tool_request(Tool::Impact, args),
        endpoint_request(Endpoint::Owner, p) == tool_request(Tool::Owner, args),
        endpoint_request(Endpoint::SystemQuery, p) == tool_request(Tool::SystemQuery, args),
        endpoint_request(Endpoint::Intent, p) == tool_request(Tool::Intent, args),
        endpoint_request(Endpoint::Plan, p) == tool_request(Tool::Plan, args),
{
}

/// Over the network only an endpoint that asks for the token can write.
pub proof fn law_writing_goes_through_the_token(e: Endpoint, p: Seq<(Seq<char>, Seq<char>)>)
    requires
        endpoint_request(e, p).writes(),
    ensures
        e.writes(),
{
}

/// Looking at documents or photos always names the folder over the tools.
pub proof fn law_tools_look_only_where_told(t: Tool, args: TreeView)
    ensures
        tool_request(t, args) matches RequestView::Documents(dir) ==> dir.len() > 0,
        tool_request(t, args) matches RequestView::Photos(dir) ==> dir.len() > 0,
{
}

} // verus!
