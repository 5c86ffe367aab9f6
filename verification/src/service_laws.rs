//! What the two ways in accept, ask for and refuse, and what is told of a session.
use vstd::prelude::*;
use crate::mcp::{
    asked, described, flushed, is_due, noted, notice, pending_at, refusal, shortened_text, subject,
    tool_from, tools, ActivityView, IncomingView, Tool,
};
use crate::numbers::{signed_value, unsigned_value};
use crate::proposal::Kind;
use crate::request::{call_request, endpoint_request, kind_of_name, tool_request, RequestView};
use crate::rest::{
    action_for, endpoint_at, endpoint_from, endpoints, escape_at, lossy_text, pair_parts,
    query_params, unescaped, url_parts, value_bytes, ActionView, Endpoint,
};
use crate::table::{lemma_put, lookup, ordered};
use crate::text::{decimal_int, lemma_find_from, occurs_at, split_once};
use crate::tree::{field, text_field, TreeView};

verus! {

// ---------------------------------------------------------------------------
// The network
// ---------------------------------------------------------------------------

proof fn lemma_endpoint(list: Seq<Endpoint>, path: Seq<char>, i: int)
    requires
        0 <= i,
    ensures
        match endpoint_from(list, path, i) {
            Some(e) => list.contains(e) && e.path_text() == path,
            None => forall|k: int|
                i <= k < list.len() ==> (#[trigger] list[k]).path_text() != path,
        },
    decreases list.len() - i,
{
    if i < list.len() && list[i].path_text() != path {
        lemma_endpoint(list, path, i + 1);
    }
}

proof fn lemma_every_endpoint(e: Endpoint)
    ensures
        endpoints().contains(e),
{
    let all = endpoints();
    assert(all[0] == Endpoint::Page && all[1] == Endpoint::Laws && all[2] == Endpoint::SystemList
        && all[3] == Endpoint::SystemQuery && all[4] == Endpoint::SystemStatus && all[5]
        == Endpoint::SystemRegister && all[6] == Endpoint::Concept && all[7] == Endpoint::Intent);
    assert(all[8] == Endpoint::Impact && all[9] == Endpoint::Imports && all[10] == Endpoint::Owner
        && all[11] == Endpoint::Guard && all[12] == Endpoint::Plan && all[13] == Endpoint::Status
        && all[14] == Endpoint::Doctor && all[15] == Endpoint::Tour);
    assert(all[16] == Endpoint::Duplicates && all[17] == Endpoint::History && all[18]
        == Endpoint::Ci && all[19] == Endpoint::ProposalSubmit && all[20]
        == Endpoint::ProposalList && all[21] == Endpoint::ProposalInspect && all[22]
        == Endpoint::ProposalTest && all[23] == Endpoint::ProposalAccept);
    assert(all[24] == Endpoint::ProposalReject && all[25] == Endpoint::Permissions && all[26]
        == Endpoint::PermissionsCheck && all[27] == Endpoint::Register && all[28]
        == Endpoint::DocumentsScan && all[29] == Endpoint::PhotosScan && all[30]
        == Endpoint::DockerObserve);
}

/// Something answers at every endpoint's path, and nothing at any other.
pub proof fn law_every_endpoint_answers(path: Seq<char>, e: Endpoint)
    ensures
        endpoint_at(e.path_text()) is Some,
        endpoint_at(path) matches Some(x) ==> x.path_text() == path,
        endpoint_at(path) is None ==> e.path_text() != path,
{
    lemma_every_endpoint(e);
    lemma_endpoint(endpoints(), path, 0);
    lemma_endpoint(endpoints(), e.path_text(), 0);
    let k = choose|k: int| 0 <= k < endpoints().len() && endpoints()[k] == e;
    assert(endpoints()[k].path_text() == e.path_text());
}

/// What changes something needs the token; everything else is served without it.
/// What answers for the machine or is the page itself needs no repository, and
/// everything else one that exists.
pub proof fn law_who_is_served(
    path: Seq<char>,
    given: Option<Seq<char>>,
    token: Seq<char>,
    root: Option<(Seq<char>, bool)>,
)
    ensures
        ({
            let a = action_for(path, given, token, root);
            let e = endpoint_at(path);
            let writing = e matches Some(x) && (x == Endpoint::ProposalSubmit || x
                == Endpoint::ProposalTest || x == Endpoint::ProposalAccept || x
                == Endpoint::ProposalReject || x == Endpoint::SystemRegister);
            let rootless = e matches Some(x) && (x == Endpoint::Page || x == Endpoint::Laws || x
                == Endpoint::SystemList || x == Endpoint::SystemQuery || x
                == Endpoint::SystemStatus);
            &&& a is Refuse <==> writing && given != Some(token)
            &&& a is Serve <==> e is Some && (writing ==> given == Some(token)) && (rootless || (
            root matches Some(r) && r.1))
            &&& a matches ActionView::Serve(x) ==> e == Some(x)
            &&& a is NoRoot <==> !(a is Refuse) && !rootless && root is None
            &&& a matches ActionView::MissingRoot(d) ==> root == Some((d, false))
            &&& a is UnknownEndpoint <==> e is None && (root matches Some(r) && r.1)
        }),
{
}

/// A hexadecimal escape stands for the byte that its two digits write; anything
/// else stands for itself.
pub proof fn law_escapes_stand_for_bytes(b: Seq<u8>, i: int, h: int, l: int)
    requires
        0 <= i < b.len(),
    ensures
        b[i] == 37 && i + 2 < b.len() && 0 <= h <= 9 && 0 <= l <= 9 && b[i + 1] == 48 + h && b[i + 2]
            == 48 + l ==> escape_at(b, i) == Some((16 * h + l) as u8),
        b[i] == 37 && i + 2 < b.len() && 10 <= h <= 15 && 10 <= l <= 15 && b[i + 1] == 87 + h && b[i
            + 2] == 87 + l ==> escape_at(b, i) == Some((16 * h + l) as u8),
        b[i] == 37 && i + 2 < b.len() && 10 <= h <= 15 && 10 <= l <= 15 && b[i + 1] == 55 + h && b[i
            + 2] == 55 + l ==> escape_at(b, i) == Some((16 * h + l) as u8),
        b[i] != 37 ==> escape_at(b, i) is None,
        i + 2 >= b.len() ==> escape_at(b, i) is None,
        escape_at(b, i) is None ==> unescaped(b, i) == seq![b[i]] + unescaped(b, i + 1),
        escape_at(b, i) matches Some(x) ==> unescaped(b, i) == seq![x] + unescaped(b, i + 3),
        unescaped(b, b.len() as int).len() == 0,
{
}

proof fn lemma_query(pairs: Seq<Seq<char>>)
    ensures
        ordered(query_params(pairs)),
    decreases pairs.len(),
{
    if pairs.len() > 0 {
        lemma_query(pairs.drop_last());
        let p = pairs.last();
        lemma_put(
            query_params(pairs.drop_last()),
            pair_parts(p).0,
            lossy_text(value_bytes(pair_parts(p).1)),
        );
    }
}

proof fn lemma_parted(a: Seq<char>, sep: char, b: Seq<char>)
    requires
        !a.contains(sep),
    ensures
        split_once(a + seq![sep] + b, seq![sep]) == Some((a, b)),
{
    let s = a + seq![sep] + b;
    let p = seq![sep];
    lemma_find_from(s, p, 0);
    assert(s.subrange(a.len() as int, a.len() as int + 1) =~= p);
    assert(occurs_at(s, p, a.len() as int));
    let j = crate::text::find_from(s, p, 0)->0;
    if j < a.len() {
        assert(s.subrange(j, j + 1)[0] == a[j]);
        assert(p[0] == sep);
        assert(a.contains(sep));
    }
    if j > a.len() {
        assert(!occurs_at(s, p, a.len() as int));
    }
    assert(s.take(j) =~= a);
    assert(s.skip(j + 1) =~= b);
}

/// A parameter is what stands before the first equals sign and its value what
/// stands behind it; of two with one name the later counts, and an empty pair says
/// nothing.
pub proof fn law_parameters_are_named(front: Seq<Seq<char>>, k: Seq<char>, v: Seq<char>, o: Seq<char>)
    requires
        !k.contains('='),
    ensures
        lookup(query_params(front.push(k + seq!['='] + v)), k) == Some(lossy_text(value_bytes(v))),
        o != k ==> lookup(query_params(front.push(k + seq!['='] + v)), o) == lookup(
            query_params(front),
            o,
        ),
        query_params(front.push(seq![])) == query_params(front),
{
    reveal_strlit("=");
    assert("="@ =~= seq!['=']);
    let pair = k + seq!['='] + v;
    lemma_parted(k, '=', v);
    assert(front.push(pair).drop_last() =~= front);
    let none: Seq<char> = seq![];
    assert(front.push(none).drop_last() =~= front);
    lemma_query(front);
    lemma_put(query_params(front), k, lossy_text(value_bytes(v)));
}

/// A path ends at the first question mark, and its parameters start behind it.
pub proof fn law_paths_end_at_the_question_mark(path: Seq<char>, query: Seq<char>)
    requires
        !path.contains('?'),
    ensures
        url_parts(path + seq!['?'] + query) == (path, query),
        url_parts(path) == (path, ""@),
{
    reveal_strlit("?");
    assert("?"@ =~= seq!['?']);
    lemma_parted(path, '?', query);
    lemma_find_from(path, "?"@, 0);
    if let Some(j) = crate::text::find_from(path, "?"@, 0) {
        assert(path.subrange(j, j + 1)[0] == path[j]);
        assert("?"@[0] == '?');
        assert(path.contains('?'));
    }
}

// ---------------------------------------------------------------------------
// The same question over both ways
// ---------------------------------------------------------------------------

/// A request over the network and a call of the tool of that name ask for the
/// same, where they say the same.
pub proof fn law_requests_and_calls_agree(
    p: Seq<(Seq<char>, Seq<char>)>,
    args: TreeView,
    a: Seq<char>,
    b: Seq<char>,
)
    ensures
        lookup(p, "file"@) == Some(a) && field(args, "file"@) == Some(TreeView::Text(a)) ==> endpoint_request(
            Endpoint::Imports,
            p,
        ) == tool_request(Tool::Imports, args),
        lookup(p, "sql"@) == Some(a) && field(args, "sql"@) == Some(TreeView::Text(a))
            ==> endpoint_request(Endpoint::Guard, p) == tool_request(Tool::Guard, args),
        lookup(p, "id"@) == Some(a) && field(args, "id"@) == Some(TreeView::Number(a)) ==> {
            &&& endpoint_request(Endpoint::ProposalInspect, p) == tool_request(
                Tool::ProposalInspect,
                args,
            )
            &&& endpoint_request(Endpoint::ProposalTest, p) == tool_request(Tool::ProposalTest, args)
            &&& endpoint_request(Endpoint::ProposalAccept, p) == tool_request(
                Tool::ProposalAccept,
                args,
            )
            &&& (lookup(p, "purge"@) == Some("true"@) <==> field(args, "purge"@) == Some(
                TreeView::Flag(true),
            )) ==> endpoint_request(Endpoint::ProposalReject, p) == tool_request(
                Tool::ProposalReject,
                args,
            )
        },
        lookup(p, "diff"@) == Some(a) && field(args, "diff"@) == Some(TreeView::Text(a)) && (lookup(
            p,
            "strict"@,
        ) == Some("true"@) <==> field(args, "strict"@) == Some(TreeView::Flag(true)))
            ==> endpoint_request(Endpoint::Ci, p) == tool_request(Tool::Ci, args),
        lookup(p, "q"@) == Some(a) && field(args, "concept"@) == Some(TreeView::Text(a)) && lookup(
            p,
            "limit"@,
        ) == Some(b) && field(args, "limit"@) == Some(TreeView::Number(b)) && field(args, "digest"@)
            is None ==> endpoint_request(Endpoint::History, p) == tool_request(Tool::History, args),
        lookup(p, "path"@) == Some(a) && field(args, "path"@) == Some(TreeView::Text(a)) && lookup(
            p,
            "domain"@,
        ) == Some(b) && field(args, "domain"@) == Some(TreeView::Text(b)) ==> endpoint_request(
            Endpoint::PermissionsCheck,
            p,
        ) == tool_request(Tool::PermissionsCheck, args),
        lookup(p, "dir"@) == Some(a) && field(args, "dir"@) == Some(TreeView::Text(a)) && a.len() > 0
            ==> endpoint_request(Endpoint::DocumentsScan, p) == tool_request(
            Tool::DocumentsScan,
            args,
        ) && endpoint_request(Endpoint::PhotosScan, p) == tool_request(Tool::PhotosScan, args),
        endpoint_request(Endpoint::Status, p) == tool_request(Tool::Status, args),
        endpoint_request(Endpoint::Doctor, p) == tool_request(Tool::Doctor, args),
        endpoint_request(Endpoint::Tour, p) == tool_request(Tool::Tour, args),
        endpoint_request(Endpoint::Duplicates, p) == tool_request(Tool::Duplicates, args),
        endpoint_request(Endpoint::ProposalList, p) == tool_request(Tool::ProposalList, args),
        endpoint_request(Endpoint::Permissions, p) == tool_request(Tool::Permissions, args),
        endpoint_request(Endpoint::SystemList, p) == tool_request(Tool::SystemList, args),
        endpoint_request(Endpoint::SystemStatus, p) == tool_request(Tool::SystemStatus, args),
        endpoint_request(Endpoint::SystemRegister, p) == tool_request(Tool::SystemRegister, args),
        endpoint_request(Endpoint::DockerObserve, p) == tool_request(Tool::DockerObserve, args),
{
}

/// What a request leaves out: fifty events, no proposal's number, the code.
pub proof fn law_what_is_left_out(p: Seq<(Seq<char>, Seq<char>)>, args: TreeView)
    ensures
        lookup(p, "limit"@) is None ==> (endpoint_request(Endpoint::History, p) matches RequestView::History(
            _,
            n,
        ) && n == 50),
        field(args, "limit"@) is None && !(field(args, "digest"@) == Some(TreeView::Flag(true))) ==> (
        tool_request(Tool::History, args) matches RequestView::History(_, n) && n == 50),
        field(args, "limit"@) is None && field(args, "digest"@) == Some(TreeView::Flag(true)) ==> (
        tool_request(Tool::History, args) matches RequestView::Digest(n) && n == 50),
        lookup(p, "id"@) is None ==> endpoint_request(Endpoint::ProposalAccept, p)
            == RequestView::Accept(0),
        field(args, "id"@) is None ==> tool_request(Tool::ProposalAccept, args)
            == RequestView::Accept(0),
        lookup(p, "domain"@) is None ==> (endpoint_request(
            Endpoint::PermissionsCheck,
            p,
        ) matches RequestView::CheckPath(_, d) && d == "code"@),
        field(args, "domain"@) is None ==> (tool_request(
            Tool::PermissionsCheck,
            args,
        ) matches RequestView::CheckPath(_, d) && d == "code"@),
        lookup(p, "dir"@) is None ==> endpoint_request(Endpoint::DocumentsScan, p) is Fault
            && endpoint_request(Endpoint::PhotosScan, p) is Fault,
        field(args, "dir"@) is None ==> tool_request(Tool::DocumentsScan, args) is Fault
            && tool_request(Tool::PhotosScan, args) is Fault,
{
    reveal_strlit("");
}

/// A claim is stated by its type where it has one, and by its words otherwise.
pub proof fn law_typed_claims_come_first(args: TreeView, kind: Seq<char>, s: Seq<char>)
    ensures
        field(args, "type"@) == Some(TreeView::Text(kind)) ==> (tool_request(
            Tool::Claim,
            args,
        ) matches RequestView::StatedClaim(c) && c.kind == kind && c.target == text_field(
            args,
            "target"@,
        ) && c.within == text_field(args, "within"@)),
        field(args, "type"@) == Some(TreeView::Text(kind)) && field(args, "min"@) == Some(
            TreeView::Number(s),
        ) ==> (tool_request(Tool::Claim, args) matches RequestView::StatedClaim(c) && c.min
            == unsigned_value(s)),
        field(args, "type"@) is None && field(args, "statement"@) == Some(TreeView::Text(s))
            ==> tool_request(Tool::Claim, args) == RequestView::Claim(s),
{
}

/// A proposal is of one of three kinds, and of a kind that is none of them there
/// is no proposal.
pub proof fn law_kinds_of_a_proposal(name: Seq<char>)
    ensures
        name == "extractor"@ <==> kind_of_name(name) == Some(Kind::Extractor),
        name == "decision"@ <==> kind_of_name(name) == Some(Kind::Decision),
        name == "alias"@ <==> kind_of_name(name) == Some(Kind::Alias),
{
    reveal_strlit("extractor");
    reveal_strlit("decision");
    reveal_strlit("alias");
    assert("extractor"@.len() == 9 && "decision"@.len() == 8 && "alias"@.len() == 5);
}

proof fn lemma_tool(list: Seq<Tool>, name: Seq<char>, i: int)
    requires
        0 <= i,
    ensures
        match tool_from(list, name, i) {
            Some(t) => list.contains(t) && t.name_text() == name,
            None => forall|k: int|
                i <= k < list.len() ==> (#[trigger] list[k]).name_text() != name,
        },
    decreases list.len() - i,
{
    if i < list.len() && list[i].name_text() != name {
        lemma_tool(list, name, i + 1);
    }
}

proof fn lemma_every_tool(t: Tool)
    ensures
        tools().contains(t),
{
    let all = tools();
    assert(all[0] == Tool::Concept && all[1] == Tool::Intent && all[2] == Tool::Impact && all[3]
        == Tool::Imports && all[4] == Tool::Guard && all[5] == Tool::Plan && all[6] == Tool::Owner
        && all[7] == Tool::Duplicates && all[8] == Tool::DuplicateLogic && all[9]
        == Tool::Verdicts);
    assert(all[10] == Tool::VerifyEdit && all[11] == Tool::Claim && all[12] == Tool::Status
        && all[13] == Tool::Doctor && all[14] == Tool::Tour && all[15] == Tool::History && all[16]
        == Tool::Ci && all[17] == Tool::ProposalSubmit && all[18] == Tool::ProposalList);
    assert(all[19] == Tool::ProposalInspect && all[20] == Tool::ProposalTest && all[21]
        == Tool::ProposalAccept && all[22] == Tool::ProposalReject && all[23] == Tool::Register
        && all[24] == Tool::Permissions && all[25] == Tool::PermissionsCheck);
    assert(all[26] == Tool::SystemList && all[27] == Tool::SystemQuery && all[28]
        == Tool::SystemStatus && all[29] == Tool::SystemRegister && all[30]
        == Tool::DocumentsScan && all[31] == Tool::PhotosScan && all[32] == Tool::MessagesScan
        && all[33] == Tool::DockerObserve);
}

/// Every tool is offered and can be called by a name; a name that no tool bears
/// is told so.
pub proof fn law_every_tool_can_be_called(t: Tool, name: Seq<char>, args: TreeView)
    ensures
        tools().contains(t),
        exists|u: Tool| #[trigger]
            u.name_text() == t.name_text() && call_request(t.name_text(), args) == tool_request(
                u,
                args,
            ),
        (forall|u: Tool| #[trigger] u.name_text() != name) ==> call_request(name, args) is Fault,
{
    lemma_every_tool(t);
    lemma_tool(tools(), t.name_text(), 0);
    let k = choose|k: int| 0 <= k < tools().len() && tools()[k] == t;
    assert(tools()[k].name_text() == t.name_text());
    let u = tool_from(tools(), t.name_text(), 0)->0;
    assert(u.name_text() == t.name_text());
    lemma_tool(tools(), name, 0);
}

/// A tool never requires an argument that it does not offer.
pub proof fn law_required_arguments_are_offered(t: Tool, i: int)
    requires
        0 <= i < t.required_names().len(),
    ensures
        exists|a: int|
            0 <= a < t.all_args().len() && (#[trigger] t.all_args()[a]).name == t.required_names()[i],
{
    let all = t.all_args();
    let own = t.own_args();
    assert forall|a: int| 0 <= a < own.len() implies #[trigger] all[a] == own[a] by {}
    if t == Tool::ProposalSubmit {
        let k: int = if i == 0 {
            0
        } else if i == 1 {
            1
        } else {
            5
        };
        assert(own[k].name == t.required_names()[i]);
        assert(all[k].name == t.required_names()[i]);
    } else {
        assert(own[i].name == t.required_names()[i]);
        assert(all[i].name == t.required_names()[i]);
    }
}

// ---------------------------------------------------------------------------
// Messages
// ---------------------------------------------------------------------------

/// A message without an id asks for nothing; another asks for what its method
/// names, and a call names its tool and hands on its arguments.
pub proof fn law_what_a_message_asks_for(msg: TreeView, method: Seq<char>, id: TreeView)
    ensures
        field(msg, "id"@) is None ==> asked(msg) is Silent,
        field(msg, "id"@) == Some(id) && field(msg, "method"@) == Some(TreeView::Text(method)) ==> {
            &&& method == "initialize"@ ==> (asked(msg) matches IncomingView::Initialize(x, _) && x
                == id)
            &&& method == "ping"@ ==> asked(msg) == IncomingView::Ping(id)
            &&& method == "tools/list"@ ==> asked(msg) == IncomingView::ListTools(id)
            &&& method == "tools/call"@ ==> (asked(msg) matches IncomingView::Call(x, _, _) && x
                == id)
            &&& method != "initialize"@ && method != "ping"@ && method != "tools/list"@ && method
                != "tools/call"@ ==> asked(msg) == IncomingView::Unknown(id, method)
        },
        field(msg, "id"@) == Some(id) && field(msg, "method"@) == Some(
            TreeView::Text("tools/call"@),
        ) ==> (field(msg, "params"@) matches Some(params) ==> {
            &&& field(params, "name"@) == Some(TreeView::Text(method)) ==> (asked(
                msg,
            ) matches IncomingView::Call(_, name, _) && name == method)
            &&& field(params, "arguments"@) matches Some(a) ==> (asked(msg) matches IncomingView::Call(
                _,
                _,
                args,
            ) && args == a)
        }),
{
    reveal_strlit("initialize");
    reveal_strlit("ping");
    reveal_strlit("tools/list");
    reveal_strlit("tools/call");
    assert("initialize"@.len() == 10 && "initialize"@[0] == 'i' && "ping"@.len() == 4);
    assert("tools/list"@.len() == 10 && "tools/list"@[6] == 'l' && "tools/list"@[0] == 't');
    assert("tools/call"@.len() == 10 && "tools/call"@[6] == 'c' && "tools/call"@[0] == 't');
}

/// A call is refused without a repository that exists, a method that nobody
/// knows always, and nothing else ever.
pub proof fn law_what_is_refused(msg: IncomingView, root: Option<(Seq<char>, bool)>)
    ensures
        refusal(msg, root) is Some <==> msg is Unknown || (msg is Call && !(
        root matches Some(r) && r.1)),
        msg is Unknown ==> (refusal(msg, root) matches Some(e) && e.0 == -32601),
        msg is Call ==> (refusal(msg, root) matches Some(e) ==> e.0 == -32602),
{
}

/// Who begins a session is who says so; without a name the client is unknown.
pub proof fn law_who_begins_a_session(params: TreeView, c: TreeView, n: Seq<char>, v: Seq<char>)
    requires
        field(params, "clientInfo"@) == Some(c),
    ensures
        field(c, "name"@) == Some(TreeView::Text(n)) ==> (crate::mcp::client_in(params) matches Some(x)
            && x.0 == n),
        field(c, "name"@) is None ==> (crate::mcp::client_in(params) matches Some(x) && x.0
            == "unknown"@),
        field(c, "version"@) == Some(TreeView::Text(v)) ==> (crate::mcp::client_in(
            params,
        ) matches Some(x) && x.1 == v),
{
}

/// A text that is shown short is whole where it fits, and ends in a mark where it
/// was cut.
pub proof fn law_long_texts_are_cut(s: Seq<char>, max: int)
    requires
        max >= 0,
    ensures
        s.len() <= max ==> shortened_text(s, max) == s,
        s.len() > max ==> shortened_text(s, max).len() == max + "…"@.len() && shortened_text(
            s,
            max,
        ).take(max) == s.take(max) && "…"@.is_suffix_of(shortened_text(s, max)),
{
    if s.len() > max {
        let t = shortened_text(s, max);
        assert(t.take(max) =~= s.take(max));
        assert(t.subrange(t.len() - "…"@.len(), t.len() as int) =~= "…"@);
    }
}

/// A call is told of by its tool and by what it is about, where it says so.
pub proof fn law_calls_are_told_by_their_subject(args: TreeView, a: Seq<char>, name: Seq<char>)
    ensures
        subject(name, args) matches Some(x) ==> described(name, args) == name + "("@ + x + ")"@,
        subject(name, args) is None ==> described(name, args) == name,
        (name == "concept"@ || name == "impact"@ || name == "owner"@ || name == "system_query"@)
            && field(args, "term"@) == Some(TreeView::Text(a)) && a.len() > 0 ==> subject(name, args)
            == Some(a),
        (name == "intent"@ || name == "plan"@) && field(args, "text"@) == Some(TreeView::Text(a))
            && a.len() > 0 ==> subject(name, args) == Some(a),
        name == "imports"@ && field(args, "file"@) == Some(TreeView::Text(a)) && a.len() > 0
            ==> subject(name, args) == Some(a),
        name == "guard"@ && field(args, "sql"@) == Some(TreeView::Text(a)) && 0 < a.len() <= 60
            ==> subject(name, args) == Some(a),
        name == "guard"@ && field(args, "sql"@) == Some(TreeView::Text(a)) && a.len() > 60
            ==> subject(name, args) == Some(a.take(60) + "…"@),
        name == "claim"@ && field(args, "statement"@) == Some(TreeView::Text(a)) && 0 < a.len() <= 80
            ==> subject(name, args) == Some(a),
        name == "claim"@ && field(args, "statement"@) == Some(TreeView::Text(a)) && a.len() > 80
            ==> subject(name, args) == Some(a.take(80) + "…"@),
        name == "ci"@ && field(args, "diff"@) == Some(TreeView::Text(a)) && 0 < a.len() <= 60
            ==> subject(name, args) == Some(a),
        name == "ci"@ && field(args, "diff"@) == Some(TreeView::Text(a)) && a.len() > 60 ==> subject(
            name,
            args,
        ) == Some(a.take(60) + "…"@),
        name == "history"@ && field(args, "concept"@) == Some(TreeView::Text(a)) && a.len() > 0
            ==> subject(name, args) == Some(a),
        name == "permissions_check"@ && field(args, "path"@) == Some(TreeView::Text(a)) && a.len() > 0
            ==> subject(name, args) == Some(a),
        (name == "documents_scan"@ || name == "photos_scan"@) && field(args, "dir"@) == Some(
            TreeView::Text(a),
        ) && a.len() > 0 ==> subject(name, args) == Some(a),
{
    reveal_strlit("concept");
    reveal_strlit("impact");
    reveal_strlit("owner");
    reveal_strlit("system_query");
    reveal_strlit("intent");
    reveal_strlit("plan");
    reveal_strlit("imports");
    reveal_strlit("guard");
    reveal_strlit("claim");
    reveal_strlit("ci");
    reveal_strlit("history");
    reveal_strlit("proposal_submit");
    reveal_strlit("proposal_inspect");
    reveal_strlit("proposal_test");
    reveal_strlit("proposal_accept");
    reveal_strlit("proposal_reject");
    reveal_strlit("permissions_check");
    reveal_strlit("documents_scan");
    reveal_strlit("photos_scan");
    assert("concept"@.len() == 7 && "concept"@[0] == 'c' && "impact"@.len() == 6 && "impact"@[1]
        == 'm' && "owner"@.len() == 5 && "owner"@[0] == 'o' && "system_query"@.len() == 12);
    assert("intent"@.len() == 6 && "intent"@[1] == 'n' && "plan"@.len() == 4 && "imports"@.len() == 7
        && "imports"@[0] == 'i' && "guard"@.len() == 5 && "guard"@[0] == 'g');
    assert("claim"@.len() == 5 && "claim"@[0] == 'c' && "ci"@.len() == 2 && "history"@.len() == 7
        && "history"@[0] == 'h' && "proposal_submit"@.len() == 15);
    assert("proposal_inspect"@.len() == 16 && "proposal_test"@.len() == 13
        && "proposal_accept"@.len() == 15 && "proposal_reject"@.len() == 15);
    assert("permissions_check"@.len() == 17 && "documents_scan"@.len() == 14 && "photos_scan"@.len()
        == 11);
}

/// Something is told of a repository exactly where the caller is known, calls are
/// waiting, and three seconds have passed since the last time.
pub proof fn law_when_something_is_told(a: ActivityView, root: Seq<char>, now: int)
    ensures
        is_due(a, root, now) <==> {
            &&& a.client is Some
            &&& lookup(a.pending, root) matches Some(t) && t.len() > 0
            &&& lookup(a.told, root) is None || now - lookup(a.told, root)->0 >= 3000
        },
{
}

/// What is told is who called and everything that is waiting; the first time it
/// says so.
pub proof fn law_what_is_told(a: ActivityView, root: Seq<char>)
    requires
        a.client is Some,
    ensures
        ({
            let n = notice(a, root);
            &&& n.first <==> !a.connected.contains(root)
            &&& Some((n.client, n.version)) == a.client
            &&& lookup(a.pending, root) matches Some(t) ==> n.tools == t
        }),
{
}

/// Once it was told nothing is waiting, the repository is known, and the other
/// repositories are as they were.
pub proof fn law_telling_empties_what_waits(
    a: ActivityView,
    root: Seq<char>,
    other: Seq<char>,
    now: int,
)
    requires
        ordered(a.pending),
        ordered(a.told),
    ensures
        ({
            let f = flushed(a, root, now);
            &&& pending_at(f, root).len() == 0
            &&& lookup(f.told, root) == Some(now)
            &&& f.connected.contains(root)
            &&& f.client == a.client
            &&& other != root ==> pending_at(f, other) == pending_at(a, other) && lookup(f.told, other)
                == lookup(a.told, other)
            &&& a.connected.contains(other) ==> f.connected.contains(other)
        }),
{
    lemma_put(a.pending, root, Seq::<Seq<char>>::empty());
    lemma_put(a.told, root, now);
    let none: Seq<Seq<char>> = seq![];
    assert(none =~= Seq::empty());
    let f = flushed(a, root, now);
    if !a.connected.contains(root) {
        assert(f.connected[f.connected.len() - 1] == root);
    }
    if a.connected.contains(other) {
        let i = choose|i: int| 0 <= i < a.connected.len() && a.connected[i] == other;
        assert(f.connected[i] == other);
    }
}

/// A call is noted once for its repository, where the caller is known.
pub proof fn law_calls_are_noted(
    a: ActivityView,
    root: Seq<char>,
    other: Seq<char>,
    name: Seq<char>,
    args: TreeView,
)
    requires
        ordered(a.pending),
    ensures
        a.client is None || name.len() == 0 ==> noted(a, root, name, args) == a,
        a.client is Some && name.len() > 0 ==> pending_at(noted(a, root, name, args), root).to_set()
            == pending_at(a, root).to_set().insert(described(name, args)),
        other != root ==> pending_at(noted(a, root, name, args), other) == pending_at(a, other),
        noted(a, root, name, args).told == a.told,
        noted(a, root, name, args).connected == a.connected,
{
    let calls = crate::table::insert_text(pending_at(a, root), described(name, args));
    lemma_put(a.pending, root, calls);
    lemma_inserted_set(pending_at(a, root), described(name, args));
}

proof fn lemma_inserted_set(s: Seq<Seq<char>>, x: Seq<char>)
    ensures
        crate::table::insert_text(s, x).to_set() =~= s.to_set().insert(x),
    decreases s.len(),
{
    let r = crate::table::insert_text(s, x);
    if s.len() == 0 {
        assert(r[0] == x);
        assert forall|y: Seq<char>| r.contains(y) <==> y == x by {
            if y == x {
                assert(r[0] == y);
            }
        }
    } else if s[0] == x {
        assert(s.contains(x));
    } else if crate::text::before(x, s[0]) {
        assert forall|y: Seq<char>| r.contains(y) <==> (y == x || s.contains(y)) by {
            if y == x {
                assert(r[0] == y);
            }
            if s.contains(y) {
                let i = choose|i: int| 0 <= i < s.len() && s[i] == y;
                assert(r[i + 1] == y);
            }
            if r.contains(y) {
                let i = choose|i: int| 0 <= i < r.len() && r[i] == y;
                if i > 0 {
                    assert(s[i - 1] == y);
                }
            }
        }
    } else {
        let rest = s.skip(1);
        let t = crate::table::insert_text(rest, x);
        lemma_inserted_set(rest, x);
        assert forall|y: Seq<char>| r.contains(y) <==> (y == x || s.contains(y)) by {
            assert(t.contains(y) <==> t.to_set().contains(y));
            assert(rest.contains(y) <==> rest.to_set().contains(y));
            if r.contains(y) {
                let i = choose|i: int| 0 <= i < r.len() && r[i] == y;
                if i == 0 {
                    assert(s[0] == y);
                } else {
                    assert(t[i - 1] == y);
                    if rest.contains(y) {
                        let k = choose|k: int| 0 <= k < rest.len() && rest[k] == y;
                        assert(s[k + 1] == y);
                    }
                }
            }
            if s.contains(y) {
                let i = choose|i: int| 0 <= i < s.len() && s[i] == y;
                if i == 0 {
                    assert(r[0] == y);
                } else {
                    assert(rest[i - 1] == y);
                    assert(t.contains(y));
                    let k = choose|k: int| 0 <= k < t.len() && t[k] == y;
                    assert(r[k + 1] == y);
                }
            }
            if y == x {
                assert(t.contains(y));
                let k = choose|k: int| 0 <= k < t.len() && t[k] == y;
                assert(r[k + 1] == y);
            }
        }
    }
}

/// An endpoint's path is the name of its tool: behind a slash, and with a slash
/// for the mark between the group and what is asked of it.
pub proof fn law_paths_are_the_names_of_tools()
    ensures
        Endpoint::Concept.path_text() == "/"@ + Tool::Concept.name_text(),
        Endpoint::Intent.path_text() == "/"@ + Tool::Intent.name_text(),
        Endpoint::Impact.path_text() == "/"@ + Tool::Impact.name_text(),
        Endpoint::Imports.path_text() == "/"@ + Tool::Imports.name_text(),
        Endpoint::Owner.path_text() == "/"@ + Tool::Owner.name_text(),
        Endpoint::Guard.path_text() == "/"@ + Tool::Guard.name_text(),
        Endpoint::Plan.path_text() == "/"@ + Tool::Plan.name_text(),
        Endpoint::Status.path_text() == "/"@ + Tool::Status.name_text(),
        Endpoint::Doctor.path_text() == "/"@ + Tool::Doctor.name_text(),
        Endpoint::Tour.path_text() == "/"@ + Tool::Tour.name_text(),
        Endpoint::Duplicates.path_text() == "/"@ + Tool::Duplicates.name_text(),
        Endpoint::History.path_text() == "/"@ + Tool::History.name_text(),
        Endpoint::Ci.path_text() == "/"@ + Tool::Ci.name_text(),
        Endpoint::Permissions.path_text() == "/"@ + Tool::Permissions.name_text(),
        Endpoint::Register.path_text() == "/"@ + Tool::Register.name_text(),
        exists|part: Seq<char>| #[trigger]
            ("/proposal/"@ + part) == Endpoint::ProposalSubmit.path_text() && "proposal_"@ + part
                == Tool::ProposalSubmit.name_text(),
        exists|part: Seq<char>| #[trigger]
            ("/proposal/"@ + part) == Endpoint::ProposalList.path_text() && "proposal_"@ + part
                == Tool::ProposalList.name_text(),
        exists|part: Seq<char>| #[trigger]
            ("/proposal/"@ + part) == Endpoint::ProposalInspect.path_text() && "proposal_"@ + part
                == Tool::ProposalInspect.name_text(),
        exists|part: Seq<char>| #[trigger]
            ("/proposal/"@ + part) == Endpoint::ProposalTest.path_text() && "proposal_"@ + part
                == Tool::ProposalTest.name_text(),
        exists|part: Seq<char>| #[trigger]
            ("/proposal/"@ + part) == Endpoint::ProposalAccept.path_text() && "proposal_"@ + part
                == Tool::ProposalAccept.name_text(),
        exists|part: Seq<char>| #[trigger]
            ("/proposal/"@ + part) == Endpoint::ProposalReject.path_text() && "proposal_"@ + part
                == Tool::ProposalReject.name_text(),
        exists|part: Seq<char>| #[trigger]
            ("/system/"@ + part) == Endpoint::SystemList.path_text() && "system_"@ + part
                == Tool::SystemList.name_text(),
        exists|part: Seq<char>| #[trigger]
            ("/system/"@ + part) == Endpoint::SystemQuery.path_text() && "system_"@ + part
                == Tool::SystemQuery.name_text(),
        exists|part: Seq<char>| #[trigger]
            ("/system/"@ + part) == Endpoint::SystemStatus.path_text() && "system_"@ + part
                == Tool::SystemStatus.name_text(),
        exists|part: Seq<char>| #[trigger]
            ("/system/"@ + part) == Endpoint::SystemRegister.path_text() && "system_"@ + part
                == Tool::SystemRegister.name_text(),
        exists|part: Seq<char>| #[trigger]
            ("/documents/"@ + part) == Endpoint::DocumentsScan.path_text() && "documents_"@ + part
                == Tool::DocumentsScan.name_text(),
        exists|part: Seq<char>| #[trigger]
            ("/photos/"@ + part) == Endpoint::PhotosScan.path_text() && "photos_"@ + part
                == Tool::PhotosScan.name_text(),
        exists|part: Seq<char>| #[trigger]
            ("/docker/"@ + part) == Endpoint::DockerObserve.path_text() && "docker_"@ + part
                == Tool::DockerObserve.name_text(),
        exists|part: Seq<char>| #[trigger]
            ("/permissions/"@ + part) == Endpoint::PermissionsCheck.path_text() && "permissions_"@ + part
                == Tool::PermissionsCheck.name_text(),
{
    reveal_strlit("/");
    reveal_strlit("/ci");
    reveal_strlit("/concept");
    reveal_strlit("/docker/");
    reveal_strlit("/docker/observe");
    reveal_strlit("/doctor");
    reveal_strlit("/documents/");
    reveal_strlit("/documents/scan");
    reveal_strlit("/duplicates");
    reveal_strlit("/guard");
    reveal_strlit("/history");
    reveal_strlit("/impact");
    reveal_strlit("/imports");
    reveal_strlit("/intent");
    reveal_strlit("/owner");
    reveal_strlit("/permissions");
    reveal_strlit("/permissions/");
    reveal_strlit("/permissions/check");
    reveal_strlit("/photos/");
    reveal_strlit("/photos/scan");
    reveal_strlit("/plan");
    reveal_strlit("/proposal/");
    reveal_strlit("/proposal/accept");
    reveal_strlit("/proposal/inspect");
    reveal_strlit("/proposal/list");
    reveal_strlit("/proposal/reject");
    reveal_strlit("/proposal/submit");
    reveal_strlit("/proposal/test");
    reveal_strlit("/register");
    reveal_strlit("/status");
    reveal_strlit("/system/");
    reveal_strlit("/system/list");
    reveal_strlit("/system/query");
    reveal_strlit("/system/register");
    reveal_strlit("/system/status");
    reveal_strlit("/tour");
    reveal_strlit("accept");
    reveal_strlit("check");
    reveal_strlit("ci");
    reveal_strlit("concept");
    reveal_strlit("docker_");
    reveal_strlit("docker_observe");
    reveal_strlit("doctor");
    reveal_strlit("documents_");
    reveal_strlit("documents_scan");
    reveal_strlit("duplicates");
    reveal_strlit("guard");
    reveal_strlit("history");
    reveal_strlit("impact");
    reveal_strlit("imports");
    reveal_strlit("inspect");
    reveal_strlit("intent");
    reveal_strlit("list");
    reveal_strlit("observe");
    reveal_strlit("owner");
    reveal_strlit("permissions");
    reveal_strlit("permissions_");
    reveal_strlit("permissions_check");
    reveal_strlit("photos_");
    reveal_strlit("photos_scan");
    reveal_strlit("plan");
    reveal_strlit("proposal_");
    reveal_strlit("proposal_accept");
    reveal_strlit("proposal_inspect");
    reveal_strlit("proposal_list");
    reveal_strlit("proposal_reject");
    reveal_strlit("proposal_submit");
    reveal_strlit("proposal_test");
    reveal_strlit("query");
    reveal_strlit("register");
    reveal_strlit("reject");
    reveal_strlit("scan");
    reveal_strlit("status");
    reveal_strlit("submit");
    reveal_strlit("system_");
    reveal_strlit("system_list");
    reveal_strlit("system_query");
    reveal_strlit("system_register");
    reveal_strlit("system_status");
    reveal_strlit("test");
    reveal_strlit("tour");
    assert("/concept"@ =~= "/"@ + "concept"@);
    assert("/intent"@ =~= "/"@ + "intent"@);
    assert("/impact"@ =~= "/"@ + "impact"@);
    assert("/imports"@ =~= "/"@ + "imports"@);
    assert("/owner"@ =~= "/"@ + "owner"@);
    assert("/guard"@ =~= "/"@ + "guard"@);
    assert("/plan"@ =~= "/"@ + "plan"@);
    assert("/status"@ =~= "/"@ + "status"@);
    assert("/doctor"@ =~= "/"@ + "doctor"@);
    assert("/tour"@ =~= "/"@ + "tour"@);
    assert("/duplicates"@ =~= "/"@ + "duplicates"@);
    assert("/history"@ =~= "/"@ + "history"@);
    assert("/ci"@ =~= "/"@ + "ci"@);
    assert("/permissions"@ =~= "/"@ + "permissions"@);
    assert("/register"@ =~= "/"@ + "register"@);
    assert("/proposal/"@ + "submit"@ =~= "/proposal/submit"@);
    assert("proposal_"@ + "submit"@ =~= "proposal_submit"@);
    assert("/proposal/"@ + "list"@ =~= "/proposal/list"@);
    assert("proposal_"@ + "list"@ =~= "proposal_list"@);
    assert("/proposal/"@ + "inspect"@ =~= "/proposal/inspect"@);
    assert("proposal_"@ + "inspect"@ =~= "proposal_inspect"@);
    assert("/proposal/"@ + "test"@ =~= "/proposal/test"@);
    assert("proposal_"@ + "test"@ =~= "proposal_test"@);
    assert("/proposal/"@ + "accept"@ =~= "/proposal/accept"@);
    assert("proposal_"@ + "accept"@ =~= "proposal_accept"@);
    assert("/proposal/"@ + "reject"@ =~= "/proposal/reject"@);
    assert("proposal_"@ + "reject"@ =~= "proposal_reject"@);
    assert("/system/"@ + "list"@ =~= "/system/list"@);
    assert("system_"@ + "list"@ =~= "system_list"@);
    assert("/system/"@ + "query"@ =~= "/system/query"@);
    assert("system_"@ + "query"@ =~= "system_query"@);
    assert("/system/"@ + "status"@ =~= "/system/status"@);
    assert("system_"@ + "status"@ =~= "system_status"@);
    assert("/system/"@ + "register"@ =~= "/system/register"@);
    assert("system_"@ + "register"@ =~= "system_register"@);
    assert("/documents/"@ + "scan"@ =~= "/documents/scan"@);
    assert("documents_"@ + "scan"@ =~= "documents_scan"@);
    assert("/photos/"@ + "scan"@ =~= "/photos/scan"@);
    assert("photos_"@ + "scan"@ =~= "photos_scan"@);
    assert("/docker/"@ + "observe"@ =~= "/docker/observe"@);
    assert("docker_"@ + "observe"@ =~= "docker_observe"@);
    assert("/permissions/"@ + "check"@ =~= "/permissions/check"@);
    assert("permissions_"@ + "check"@ =~= "permissions_check"@);
}

/// A byte that is no hexadecimal digit makes no escape.
pub proof fn law_only_hexadecimal_digits_escape(b: Seq<u8>, i: int)
    requires
        0 <= i,
        i + 2 < b.len(),
    ensures
        escape_at(b, i) is Some ==> (48 <= b[i + 1] <= 57 || 65 <= b[i + 1] <= 70 || 97 <= b[i + 1]
            <= 102) && (48 <= b[i + 2] <= 57 || 65 <= b[i + 2] <= 70 || 97 <= b[i + 2] <= 102),
{
}

/// A call on a proposal is told of by the proposal's number.
pub proof fn law_proposals_are_told_of_by_number(args: TreeView, s: Seq<char>, n: int, name: Seq<char>)
    requires
        name == "proposal_inspect"@ || name == "proposal_test"@ || name == "proposal_accept"@ || name
            == "proposal_reject"@,
    ensures
        field(args, "id"@) == Some(TreeView::Number(s)) && signed_value(s) == Some(n) ==> subject(
            name,
            args,
        ) == Some(decimal_int(n)),
        field(args, "id"@) is None ==> subject(name, args) is None,
{
    reveal_strlit("concept");
    reveal_strlit("impact");
    reveal_strlit("owner");
    reveal_strlit("system_query");
    reveal_strlit("intent");
    reveal_strlit("plan");
    reveal_strlit("imports");
    reveal_strlit("guard");
    reveal_strlit("claim");
    reveal_strlit("ci");
    reveal_strlit("history");
    reveal_strlit("proposal_submit");
    reveal_strlit("proposal_inspect");
    reveal_strlit("proposal_test");
    reveal_strlit("proposal_accept");
    reveal_strlit("proposal_reject");
    assert(name[0] == 'p' && name.len() >= 13);
    assert("proposal_submit"@[9] == 's' && "proposal_accept"@[9] == 'a' && "proposal_reject"@[9]
        == 'r');
    assert("system_query"@.len() == 12 && "concept"@.len() == 7 && "history"@.len() == 7);
    assert("impact"@.len() == 6 && "owner"@.len() == 5 && "intent"@.len() == 6 && "plan"@.len() == 4
        && "imports"@.len() == 7 && "guard"@.len() == 5 && "claim"@.len() == 5 && "ci"@.len() == 2);
    assert("proposal_submit"@.len() == 15 && "proposal_inspect"@.len() == 16
        && "proposal_test"@.len() == 13);
}

} // verus!
