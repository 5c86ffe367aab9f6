//! The HTTP interface: what a request asks for, and whether it may.
use vstd::prelude::*;
use vstd::utf8::{decode_utf8, encode_utf8, valid_utf8};
use crate::numbers::{unsigned, unsigned_value};
use crate::shape::{keys_in, parse_only};
use crate::table::{lookup, put, TextMap};
use crate::text::{replace_char, split, split_once};
use crate::text::{owned, parted, same, split_at_char, with_replaced};

verus! {

// ---------------------------------------------------------------------------
// Query strings
// ---------------------------------------------------------------------------

/// Bytes as text, with whatever is no text replaced.
pub uninterp spec fn lossy_text(bytes: Seq<u8>) -> Seq<char>;

/// `String::from_utf8_lossy`: bytes as text. Bytes that are valid UTF-8 give the
/// text they encode; what is put for others depends on the bytes alone, and is
/// left unsaid.
#[verifier::external_body]
fn text_of_bytes(bytes: &Vec<u8>) -> (r: String)
    ensures
        r@ == lossy_text(bytes@),
        valid_utf8(bytes@) ==> r@ == decode_utf8(bytes@),
{
    String::from_utf8_lossy(bytes).into_owned()
}

pub open spec fn hex_value(b: u8) -> Option<u8> {
    if 48 <= b <= 57 {
        Some((b - 48) as u8)
    } else if 97 <= b <= 102 {
        Some((b - 87) as u8)
    } else if 65 <= b <= 70 {
        Some((b - 55) as u8)
    } else {
        None
    }
}

/// The byte that a percent sign at a place and two hex digits behind it write.
pub open spec fn escape_at(b: Seq<u8>, i: int) -> Option<u8> {
    if b[i] == 37 && i + 2 < b.len() {
        match (hex_value(b[i + 1]), hex_value(b[i + 2])) {
            (Some(h), Some(l)) => Some((h * 16 + l) as u8),
            _ => None,
        }
    } else {
        None
    }
}

/// Bytes from `i` on with their escapes resolved.
pub open spec fn unescaped(b: Seq<u8>, i: int) -> Seq<u8>
    decreases b.len() - i,
{
    if i < 0 || i >= b.len() {
        seq![]
    } else {
        match escape_at(b, i) {
            Some(x) => seq![x] + unescaped(b, i + 3),
            None => seq![b[i]] + unescaped(b, i + 1),
        }
    }
}

/// The bytes that a query value stands for.
pub open spec fn value_bytes(s: Seq<char>) -> Seq<u8> {
    unescaped(encode_utf8(replace_char(s, '+', " "@)), 0)
}

fn hex(b: u8) -> (r: Option<u8>)
    ensures
        r == hex_value(b),
{
    if 48 <= b && b <= 57 {
        Some(b - 48)
    } else if 97 <= b && b <= 102 {
        Some(b - 87)
    } else if 65 <= b && b <= 70 {
        Some(b - 55)
    } else {
        None
    }
}

fn escape(b: &[u8], i: usize) -> (r: Option<u8>)
    requires
        i < b@.len(),
    ensures
        r == escape_at(b@, i as int),
{
    if b[i] != 37 || b.len() - i <= 2 {
        return None;
    }
    match (hex(b[i + 1]), hex(b[i + 2])) {
        (Some(h), Some(l)) => Some(h * 16 + l),
        _ => None,
    }
}

fn resolve(s: &str) -> (r: Vec<u8>)
    ensures
        r@ == value_bytes(s@),
{
    let spaced = with_replaced(s, '+', " ");
    let b = spaced.as_str().as_bytes();
    let ghost bv = b@;
    let ghost whole = unescaped(bv, 0);
    let mut out: Vec<u8> = Vec::new();
    let mut i: usize = 0;
    while i < b.len()
        invariant
            i <= b.len(),
            bv == b@,
            whole == unescaped(bv, 0),
            whole =~= out@ + unescaped(bv, i as int),
        decreases b.len() - i,
    {
        match escape(b, i) {
            Some(x) => {
                out.push(x);
                i += 3;
            },
            None => {
                out.push(b[i]);
                i += 1;
            },
        }
    }
    out
}

/// What a query value stands for: a plus is a blank, a percent sign with two hex
/// digits a byte.
pub fn decode(s: &str) -> (r: String)
    ensures
        r@ == lossy_text(value_bytes(s@)),
        valid_utf8(value_bytes(s@)) ==> r@ == decode_utf8(value_bytes(s@)),
{
    text_of_bytes(&resolve(s))
}

/// The path of a URL, and its query string.
pub open spec fn url_parts(url: Seq<char>) -> (Seq<char>, Seq<char>) {
    match split_once(url, "?"@) {
        Some(p) => p,
        None => (url, ""@),
    }
}

pub open spec fn pair_parts(pair: Seq<char>) -> (Seq<char>, Seq<char>) {
    match split_once(pair, "="@) {
        Some(p) => p,
        None => (pair, ""@),
    }
}

/// The parameters of a query string; of two with one name the later counts.
pub open spec fn query_params(pairs: Seq<Seq<char>>) -> Seq<(Seq<char>, Seq<char>)>
    decreases pairs.len(),
{
    if pairs.len() == 0 {
        seq![]
    } else {
        let m = query_params(pairs.drop_last());
        let p = pairs.last();
        if p.len() == 0 {
            m
        } else {
            put(m, pair_parts(p).0, lossy_text(value_bytes(pair_parts(p).1)))
        }
    }
}

/// The path of a URL and the parameters of its query string.
pub fn params(url: &str) -> (r: (String, TextMap<String>))
    ensures
        r.0@ == url_parts(url@).0,
        r.1.deep_view() == query_params(split(url_parts(url@).1, '&')),
{
    let (path, qs) = match parted(url, "?") {
        Some(p) => p,
        None => (owned(url), owned("")),
    };
    let pairs = split_at_char(qs.as_str(), '&');
    let ghost pv = pairs.deep_view();
    let mut m: TextMap<String> = TextMap::new();
    let mut i: usize = 0;
    while i < pairs.len()
        invariant
            i <= pairs.len(),
            pv == pairs.deep_view(),
            m.deep_view() == query_params(pv.take(i as int)),
        decreases pairs.len() - i,
    {
        let p = pairs[i].as_str();
        proof {
            let step = pv.take(i + 1);
            assert(step.drop_last() =~= pv.take(i as int));
            assert(step.last() == p@);
        }
        if !p.is_empty() {
            let (k, v) = match parted(p, "=") {
                Some(kv) => kv,
                None => (owned(p), owned("")),
            };
            let value = decode(v.as_str());
            m = m.with(k, value);
        }
        i += 1;
    }
    assert(pv.take(i as int) =~= pv);
    (path, m)
}

// ---------------------------------------------------------------------------
// Endpoints
// ---------------------------------------------------------------------------

#[derive(Clone, Copy, Debug, PartialEq, Eq, Structural)]
pub enum Endpoint {
    Page,
    Laws,
    SystemList,
    SystemQuery,
    SystemStatus,
    SystemRegister,
    Concept,
    Intent,
    Impact,
    Imports,
    Owner,
    Guard,
    Plan,
    Status,
    Doctor,
    Tour,
    Duplicates,
    History,
    Ci,
    ProposalSubmit,
    ProposalList,
    ProposalInspect,
    ProposalTest,
    ProposalAccept,
    ProposalReject,
    Permissions,
    PermissionsCheck,
    Register,
    DocumentsScan,
    PhotosScan,
    DockerObserve,
}

impl Endpoint {
    pub open spec fn path_text(self) -> Seq<char> {
        match self {
            Endpoint::Page => "/"@,
            Endpoint::Laws => "/laws"@,
            Endpoint::SystemList => "/system/list"@,
            Endpoint::SystemQuery => "/system/query"@,
            Endpoint::SystemStatus => "/system/status"@,
            Endpoint::SystemRegister => "/system/register"@,
            Endpoint::Concept => "/concept"@,
            Endpoint::Intent => "/intent"@,
            Endpoint::Impact => "/impact"@,
            Endpoint::Imports => "/imports"@,
            Endpoint::Owner => "/owner"@,
            Endpoint::Guard => "/guard"@,
            Endpoint::Plan => "/plan"@,
            Endpoint::Status => "/status"@,
            Endpoint::Doctor => "/doctor"@,
            Endpoint::Tour => "/tour"@,
            Endpoint::Duplicates => "/duplicates"@,
            Endpoint::History => "/history"@,
            Endpoint::Ci => "/ci"@,
            Endpoint::ProposalSubmit => "/proposal/submit"@,
            Endpoint::ProposalList => "/proposal/list"@,
            Endpoint::ProposalInspect => "/proposal/inspect"@,
            Endpoint::ProposalTest => "/proposal/test"@,
            Endpoint::ProposalAccept => "/proposal/accept"@,
            Endpoint::ProposalReject => "/proposal/reject"@,
            Endpoint::Permissions => "/permissions"@,
            Endpoint::PermissionsCheck => "/permissions/check"@,
            Endpoint::Register => "/register"@,
            Endpoint::DocumentsScan => "/documents/scan"@,
            Endpoint::PhotosScan => "/photos/scan"@,
            Endpoint::DockerObserve => "/docker/observe"@,
        }
    }

    pub fn path(&self) -> (r: &'static str)
        ensures
            r@ == self.path_text(),
    {
        match self {
            Endpoint::Page => "/",
            Endpoint::Laws => "/laws",
            Endpoint::SystemList => "/system/list",
            Endpoint::SystemQuery => "/system/query",
            Endpoint::SystemStatus => "/system/status",
            Endpoint::SystemRegister => "/system/register",
            Endpoint::Concept => "/concept",
            Endpoint::Intent => "/intent",
            Endpoint::Impact => "/impact",
            Endpoint::Imports => "/imports",
            Endpoint::Owner => "/owner",
            Endpoint::Guard => "/guard",
            Endpoint::Plan => "/plan",
            Endpoint::Status => "/status",
            Endpoint::Doctor => "/doctor",
            Endpoint::Tour => "/tour",
            Endpoint::Duplicates => "/duplicates",
            Endpoint::History => "/history",
            Endpoint::Ci => "/ci",
            Endpoint::ProposalSubmit => "/proposal/submit",
            Endpoint::ProposalList => "/proposal/list",
            Endpoint::ProposalInspect => "/proposal/inspect",
            Endpoint::ProposalTest => "/proposal/test",
            Endpoint::ProposalAccept => "/proposal/accept",
            Endpoint::ProposalReject => "/proposal/reject",
            Endpoint::Permissions => "/permissions",
            Endpoint::PermissionsCheck => "/permissions/check",
            Endpoint::Register => "/register",
            Endpoint::DocumentsScan => "/documents/scan",
            Endpoint::PhotosScan => "/photos/scan",
            Endpoint::DockerObserve => "/docker/observe",
        }
    }

    /// An endpoint that writes something.
    pub open spec fn writes(self) -> bool {
        self == Endpoint::ProposalSubmit || self == Endpoint::ProposalTest || self
            == Endpoint::ProposalAccept || self == Endpoint::ProposalReject || self
            == Endpoint::SystemRegister
    }

    /// An endpoint that answers for the machine and not for a repository.
    pub open spec fn is_rootless(self) -> bool {
        self == Endpoint::Laws || self == Endpoint::SystemList || self == Endpoint::SystemQuery
            || self == Endpoint::SystemStatus
    }
}

/// All endpoints.
pub open spec fn endpoints() -> Seq<Endpoint> {
    seq![
        Endpoint::Page,
        Endpoint::Laws,
        Endpoint::SystemList,
        Endpoint::SystemQuery,
        Endpoint::SystemStatus,
        Endpoint::SystemRegister,
        Endpoint::Concept,
        Endpoint::Intent,
        Endpoint::Impact,
        Endpoint::Imports,
        Endpoint::Owner,
        Endpoint::Guard,
        Endpoint::Plan,
        Endpoint::Status,
        Endpoint::Doctor,
        Endpoint::Tour,
        Endpoint::Duplicates,
        Endpoint::History,
        Endpoint::Ci,
        Endpoint::ProposalSubmit,
        Endpoint::ProposalList,
        Endpoint::ProposalInspect,
        Endpoint::ProposalTest,
        Endpoint::ProposalAccept,
        Endpoint::ProposalReject,
        Endpoint::Permissions,
        Endpoint::PermissionsCheck,
        Endpoint::Register,
        Endpoint::DocumentsScan,
        Endpoint::PhotosScan,
        Endpoint::DockerObserve,
    ]
}

/// The first endpoint from `i` on with a path.
pub open spec fn endpoint_from(list: Seq<Endpoint>, path: Seq<char>, i: int) -> Option<Endpoint>
    decreases list.len() - i,
{
    if i < 0 || i >= list.len() {
        None
    } else if list[i].path_text() == path {
        Some(list[i])
    } else {
        endpoint_from(list, path, i + 1)
    }
}

pub open spec fn endpoint_at(path: Seq<char>) -> Option<Endpoint> {
    endpoint_from(endpoints(), path, 0)
}

/// All endpoints.
pub fn endpoint_list() -> (r: Vec<Endpoint>)
    ensures
        r@ == endpoints(),
{
    let r = vec![
        Endpoint::Page,
        Endpoint::Laws,
        Endpoint::SystemList,
        Endpoint::SystemQuery,
        Endpoint::SystemStatus,
        Endpoint::SystemRegister,
        Endpoint::Concept,
        Endpoint::Intent,
        Endpoint::Impact,
        Endpoint::Imports,
        Endpoint::Owner,
        Endpoint::Guard,
        Endpoint::Plan,
        Endpoint::Status,
        Endpoint::Doctor,
        Endpoint::Tour,
        Endpoint::Duplicates,
        Endpoint::History,
        Endpoint::Ci,
        Endpoint::ProposalSubmit,
        Endpoint::ProposalList,
        Endpoint::ProposalInspect,
        Endpoint::ProposalTest,
        Endpoint::ProposalAccept,
        Endpoint::ProposalReject,
        Endpoint::Permissions,
        Endpoint::PermissionsCheck,
        Endpoint::Register,
        Endpoint::DocumentsScan,
        Endpoint::PhotosScan,
        Endpoint::DockerObserve,
    ];
    assert(r@ =~= endpoints());
    r
}

/// The endpoint at a path.
pub fn endpoint(path: &str) -> (r: Option<Endpoint>)
    ensures
        r == endpoint_at(path@),
{
    let list = endpoint_list();
    let mut i: usize = 0;
    while i < list.len()
        invariant
            i <= list.len(),
            list@ == endpoints(),
            endpoint_at(path@) == endpoint_from(list@, path@, i as int),
        decreases list.len() - i,
    {
        let e = list[i];
        if same(e.path(), path) {
            return Some(e);
        }
        i += 1;
    }
    None
}

// ---------------------------------------------------------------------------
// Requests
// ---------------------------------------------------------------------------

/// What to do with a request.
#[derive(Debug)]
pub enum Action {
    /// The token is missing or wrong.
    Refuse,
    /// No repository to answer for.
    NoRoot,
    /// The repository is not there.
    MissingRoot(String),
    /// Nothing answers at this path.
    UnknownEndpoint(String),
    Serve(Endpoint),
}

pub enum ActionView {
    Refuse,
    NoRoot,
    MissingRoot(Seq<char>),
    UnknownEndpoint(Seq<char>),
    Serve(Endpoint),
}

impl DeepView for Action {
    type V = ActionView;

    open spec fn deep_view(&self) -> ActionView {
        match self {
            Action::Refuse => ActionView::Refuse,
            Action::NoRoot => ActionView::NoRoot,
            Action::MissingRoot(r) => ActionView::MissingRoot(r@),
            Action::UnknownEndpoint(p) => ActionView::UnknownEndpoint(p@),
            Action::Serve(e) => ActionView::Serve(*e),
        }
    }
}

/// What to do with a request for a path: it needs the token where it writes, and
/// a repository that exists unless it asks for the page or for the machine.
pub open spec fn action_for(
    path: Seq<char>,
    given: Option<Seq<char>>,
    token: Seq<char>,
    root: Option<(Seq<char>, bool)>,
) -> ActionView {
    let e = endpoint_at(path);
    if (e matches Some(x) && x.writes()) && given != Some(token) {
        ActionView::Refuse
    } else if e matches Some(x) && (x == Endpoint::Page || x.is_rootless()) {
        ActionView::Serve(e->Some_0)
    } else {
        match root {
            None => ActionView::NoRoot,
            Some(r) => if !r.1 {
                ActionView::MissingRoot(r.0)
            } else {
                match e {
                    Some(x) => ActionView::Serve(x),
                    None => ActionView::UnknownEndpoint(path),
                }
            },
        }
    }
}

/// What to do with a request. `token` is the one that was given out, `root` the
/// repository that the request is about and whether it exists.
pub fn decide(path: &str, given: Option<&str>, token: &str, root: Option<(&str, bool)>) -> (r: Action)
    ensures
        r.deep_view() == action_for(
            path@,
            match given {
                Some(g) => Some(g@),
                None => None,
            },
            token@,
            match root {
                Some(x) => Some((x.0@, x.1)),
                None => None,
            },
        ),
{
    let e = endpoint(path);
    if let Some(x) = e {
        let writes = match x {
            Endpoint::ProposalSubmit | Endpoint::ProposalTest | Endpoint::ProposalAccept
            | Endpoint::ProposalReject | Endpoint::SystemRegister => true,
            _ => false,
        };
        if writes {
            let admitted = match given {
                Some(g) => same(g, token),
                None => false,
            };
            if !admitted {
                return Action::Refuse;
            }
        }
        let anywhere = match x {
            Endpoint::Page | Endpoint::Laws | Endpoint::SystemList | Endpoint::SystemQuery
            | Endpoint::SystemStatus => true,
            _ => false,
        };
        if anywhere {
            return Action::Serve(x);
        }
    }
    match root {
        None => Action::NoRoot,
        Some((dir, exists)) => if !exists {
            Action::MissingRoot(owned(dir))
        } else {
            match e {
                Some(x) => Action::Serve(x),
                None => Action::UnknownEndpoint(owned(path)),
            }
        },
    }
}

/// What a request that is not served is told.
pub open spec fn complaint(a: ActionView) -> Option<Seq<char>> {
    match a {
        ActionView::Refuse => Some(
            "missing or incorrect token — pass &token=<value printed when `archietect serve` started>"@,
        ),
        ActionView::NoRoot => Some(
            "no repository root: pass ?root=/path or start with --root"@,
        ),
        ActionView::MissingRoot(dir) => Some("root does not exist: "@ + dir),
        ActionView::UnknownEndpoint(path) => Some("unknown endpoint "@ + path),
        ActionView::Serve(_) => None,
    }
}

impl Action {
    /// The status code of the answer: only a missing token is refused outright.
    pub fn status(&self) -> (r: u16)
        ensures
            r == (if self.deep_view() == ActionView::Refuse {
                401u16
            } else {
                200u16
            }),
    {
        match self {
            Action::Refuse => 401,
            _ => 200,
        }
    }

    /// What a request that is not served is told.
    pub fn error(&self) -> (r: Option<String>)
        ensures
            r.deep_view() == complaint(self.deep_view()),
    {
        match self {
            Action::Refuse => Some(
                owned(
                    "missing or incorrect token — pass &token=<value printed when `archietect serve` started>",
                ),
            ),
            Action::NoRoot => Some(
                owned("no repository root: pass ?root=/path or start with --root"),
            ),
            Action::MissingRoot(dir) => {
                let mut e = owned("root does not exist: ");
                e.append(dir.as_str());
                Some(e)
            },
            Action::UnknownEndpoint(path) => {
                let mut e = owned("unknown endpoint ");
                e.append(path.as_str());
                Some(e)
            },
            Action::Serve(_) => None,
        }
    }
}

pub open spec fn param(p: Seq<(Seq<char>, Seq<char>)>, k: Seq<char>) -> Seq<char> {
    match lookup(p, k) {
        Some(v) => v,
        None => ""@,
    }
}

/// A parameter, empty where it is missing.
pub fn param_of(p: &TextMap<String>, k: &str) -> (r: String)
    ensures
        r@ == param(p.deep_view(), k@),
{
    match p.get(k) {
        Some(v) => owned(v.as_str()),
        None => owned(""),
    }
}

pub open spec fn number_param(p: Seq<(Seq<char>, Seq<char>)>, k: Seq<char>, default: nat) -> nat {
    match lookup(p, k) {
        Some(v) => match unsigned_value(v) {
            Some(n) => n,
            None => default,
        },
        None => default,
    }
}

/// A numeric parameter.
pub fn number_of(p: &TextMap<String>, k: &str, default: u64) -> (r: u64)
    ensures
        r == number_param(p.deep_view(), k@, default as nat),
{
    match p.get(k) {
        Some(v) => match unsigned(v.as_str()) {
            Some(n) => n,
            None => default,
        },
        None => default,
    }
}

/// A parameter that is set to `true`.
pub fn flag_of(p: &TextMap<String>, k: &str) -> (r: bool)
    ensures
        r == (lookup(p.deep_view(), k@) == Some("true"@)),
{
    match p.get(k) {
        Some(v) => same(v.as_str(), "true"),
        None => false,
    }
}

/// How the answer is to be shaped: which keys, and whether without prose.
pub fn shaping(p: &TextMap<String>) -> (r: (Option<Vec<String>>, bool))
    ensures
        r.0.deep_view() == (match lookup(p.deep_view(), "only"@) {
            Some(v) => keys_in(v),
            None => None,
        }),
        r.1 == (lookup(p.deep_view(), "compact"@) == Some("true"@) || lookup(
            p.deep_view(),
            "compact"@,
        ) == Some("1"@)),
{
    let only = match p.get("only") {
        Some(v) => parse_only(Some(v.as_str())),
        None => None,
    };
    let compact = match p.get("compact") {
        Some(v) => same(v.as_str(), "true") || same(v.as_str(), "1"),
        None => false,
    };
    (only, compact)
}

// ---------------------------------------------------------------------------
// Laws
// ---------------------------------------------------------------------------

/// Nothing is written without the token, whatever else a request says.
pub proof fn law_no_write_without_the_token(
    path: Seq<char>,
    given: Option<Seq<char>>,
    token: Seq<char>,
    root: Option<(Seq<char>, bool)>,
)
    requires
        given != Some(token),
    ensures
        action_for(path, given, token, root) matches ActionView::Serve(e) ==> !e.writes(),
{
}

/// Reading needs no token: a request that writes nothing is answered alike with
/// any token and with none.
pub proof fn law_reading_needs_no_token(
    path: Seq<char>,
    given: Option<Seq<char>>,
    other: Option<Seq<char>>,
    token: Seq<char>,
    root: Option<(Seq<char>, bool)>,
)
    requires
        endpoint_at(path) matches Some(e) ==> !e.writes(),
    ensures
        action_for(path, given, token, root) == action_for(path, other, token, root),
{
}

} // verus!
