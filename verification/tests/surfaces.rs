//! The two ways in: the network interface and the tool protocol.

use archietect::mcp::{
    ask, compact_of, describe_call, flush_if_due, note_call, only_of, read_message, refusal_of,
    tool_defs, tool_named, Activity, Incoming, Tool, HEARTBEAT_INTERVAL_MS,
};
use archietect::request::{kind_named, of_call, of_endpoint, Request};
use archietect::rest::{
    decide, decode, endpoint, endpoint_list, flag_of, number_of, param_of, params, shaping, Action,
    Endpoint,
};
use archietect::tree::Tree;

const HERE: Option<(&str, bool)> = Some(("/p", true));

// --- the network interface ---

#[test]
fn system_register_requires_token_then_actually_registers() {
    assert!(matches!(decide("/system/register", None, "SECRET", HERE), Action::Refuse));
    assert!(matches!(decide("/system/register", Some("other"), "SECRET", HERE), Action::Refuse));
    assert!(matches!(
        decide("/system/register", Some("SECRET"), "SECRET", HERE),
        Action::Serve(Endpoint::SystemRegister)
    ));
}

#[test]
fn system_list_and_query_need_no_token() {
    assert!(matches!(decide("/system/list", None, "SECRET", None), Action::Serve(Endpoint::SystemList)));
    assert!(matches!(decide("/system/query", None, "SECRET", None), Action::Serve(Endpoint::SystemQuery)));
}

#[test]
fn system_status_needs_no_token_and_reports_real_project_counts() {
    assert!(matches!(decide("/system/status", None, "SECRET", None), Action::Serve(Endpoint::SystemStatus)));
}

#[test]
fn existing_proposal_endpoints_still_token_gated_as_before() {
    for path in ["/proposal/submit", "/proposal/test", "/proposal/accept", "/proposal/reject"] {
        assert!(matches!(decide(path, None, "SECRET", HERE), Action::Refuse), "{path}");
    }
    assert!(matches!(decide("/proposal/list", None, "SECRET", HERE), Action::Serve(Endpoint::ProposalList)));
}

#[test]
fn a_request_needs_a_root_that_exists() {
    assert!(matches!(decide("/status", None, "t", None), Action::NoRoot));
    match decide("/status", None, "t", Some(("/gone", false))) {
        Action::MissingRoot(dir) => assert_eq!(dir, "/gone"),
        other => panic!("{other:?}"),
    }
    match decide("/nothing", None, "t", HERE) {
        Action::UnknownEndpoint(path) => assert_eq!(path, "/nothing"),
        other => panic!("{other:?}"),
    }
}

#[test]
fn every_endpoint_is_found_by_its_path() {
    for e in endpoint_list() {
        assert_eq!(endpoint(e.path()), Some(e));
    }
    assert_eq!(endpoint("/nothing"), None);
}

#[test]
fn values_are_decoded() {
    assert_eq!(decode("a+b%20c"), "a b c");
    assert_eq!(decode("%C3%A9"), "é");
    assert_eq!(decode("100%"), "100%");
    assert_eq!(decode("%zz"), "%zz");
    assert_eq!(decode("%FF"), "\u{FFFD}");
}

#[test]
fn parameters_of_a_request() {
    let (path, p) = params("/concept?q=user+name&root=%2Ftmp&flag");
    assert_eq!(path, "/concept");
    assert_eq!(param_of(&p, "q"), "user name");
    assert_eq!(param_of(&p, "root"), "/tmp");
    assert_eq!(param_of(&p, "absent"), "");
    let (_, p) = params("/history?limit=7&strict=true&only=a,b&compact=1");
    assert_eq!(number_of(&p, "limit", 50), 7);
    assert_eq!(number_of(&p, "other", 50), 50);
    assert!(flag_of(&p, "strict"));
    let (only, compact) = shaping(&p);
    assert_eq!(only, Some(vec!["a".to_string(), "b".to_string()]));
    assert!(compact);
    assert_eq!(params("/plain").0, "/plain");
}

// --- the tool protocol ---

fn text(s: &str) -> Tree {
    Tree::Text(s.to_string())
}

fn table(entries: Vec<(&str, Tree)>) -> Tree {
    Tree::Table(entries.into_iter().map(|(k, v)| (k.to_string(), v)).collect())
}

#[test]
fn new_tools_are_registered_and_return_real_data() {
    let found: Vec<&str> = tool_defs().iter().map(|t| t.name()).collect();
    for expected in [
        "permissions",
        "register",
        "system_list",
        "system_query",
        "system_status",
        "system_register",
        "documents_scan",
    ] {
        assert!(found.contains(&expected), "expected tool '{expected}' in tools/list, got: {found:?}");
    }
}

#[test]
fn every_tool_is_found_by_its_name_and_can_be_shaped() {
    for t in tool_defs() {
        assert_eq!(tool_named(t.name()), Some(t));
        assert!(!t.about().is_empty());
        let args = t.args();
        for wanted in ["only", "compact"] {
            assert!(args.iter().any(|a| a.name == wanted), "{}: {wanted}", t.name());
        }
        for r in t.required() {
            assert!(args.iter().any(|a| a.name == r), "{}: {r}", t.name());
        }
    }
    assert_eq!(tool_named("nothing"), None);
    assert_eq!(Tool::Concept.required(), ["term"]);
}

#[test]
fn messages_are_told_apart() {
    match read_message("{\"id\":1,\"method\":\"initialize\",\"params\":{\"clientInfo\":{\"name\":\"c\",\"version\":\"2\"}}}") {
        Incoming::Initialize(id, client) => {
            assert_eq!(id, Tree::Number("1".to_string()));
            assert_eq!(client, Some(("c".to_string(), "2".to_string())));
        }
        other => panic!("{other:?}"),
    }
    match read_message("{\"id\":\"x\",\"method\":\"tools/call\",\"params\":{\"name\":\"doctor\",\"arguments\":{\"compact\":true}}}") {
        Incoming::Call(id, name, args) => {
            assert_eq!(id, text("x"));
            assert_eq!(name, "doctor");
            assert!(compact_of(&args));
        }
        other => panic!("{other:?}"),
    }
    assert!(matches!(read_message("{\"id\":1,\"method\":\"ping\"}"), Incoming::Ping(_)));
    assert!(matches!(read_message("{\"id\":1,\"method\":\"tools/list\"}"), Incoming::ListTools(_)));
    assert!(matches!(read_message("{\"id\":1,\"method\":\"other\"}"), Incoming::Unknown(_, _)));
    assert!(matches!(read_message("{\"method\":\"notifications/initialized\"}"), Incoming::Silent));
    assert!(matches!(read_message("not json"), Incoming::Silent));
    assert!(matches!(ask(&Tree::Nothing), Incoming::Silent));
}

#[test]
fn arguments_that_shape() {
    let args = table(vec![("only", Tree::List(vec![text("a"), text("b")]))]);
    assert_eq!(only_of(&args), Some(vec!["a".to_string(), "b".to_string()]));
    assert_eq!(only_of(&Tree::Nothing), None);
    assert!(!compact_of(&args));
}

#[test]
fn calls_are_described_by_their_subject() {
    assert_eq!(describe_call("doctor", &Tree::Nothing), "doctor");
    assert_eq!(describe_call("impact", &table(vec![("term", text("User"))])), "impact(User)");
    let long = "x".repeat(70);
    assert_eq!(
        describe_call("guard", &table(vec![("sql", text(&long))])),
        format!("guard({}…)", "x".repeat(60))
    );
    assert_eq!(
        describe_call("proposal_test", &table(vec![("id", Tree::Number("3".to_string()))])),
        "proposal_test(3)"
    );
}

fn session() -> Activity {
    let mut a = Activity::default();
    a.client = Some(("lone-call-test".to_string(), "9.9.9".to_string()));
    a
}

#[test]
fn last_call_in_a_session_flushes_even_with_no_call_after_it() {
    let a = note_call(session(), "/p", "doctor", &Tree::Nothing);
    let (a, n) = flush_if_due(a, "/p", 4_500);
    let n = n.expect("the lone call is told");
    assert_eq!(n.kind(), "mcp_client_connected");
    assert_eq!(n.client, "lone-call-test");
    assert!(n.tools.iter().any(|t| t == "doctor"));
    // Told once, and only once.
    let (_, n) = flush_if_due(a, "/p", 100_000);
    assert!(n.is_none());
}

#[test]
fn notices_are_spaced() {
    let a = note_call(session(), "/p", "doctor", &Tree::Nothing);
    let (a, first) = flush_if_due(a, "/p", 1_000);
    assert!(first.is_some());
    let a = note_call(a, "/p", "tour", &Tree::Nothing);
    let (a, early) = flush_if_due(a, "/p", 1_000 + HEARTBEAT_INTERVAL_MS - 1);
    assert!(early.is_none());
    let (_, later) = flush_if_due(a, "/p", 1_000 + HEARTBEAT_INTERVAL_MS);
    let later = later.expect("due again");
    assert!(!later.first);
    assert_eq!(later.tools, ["tour"]);
}

#[test]
fn documents_scan_tool_never_hangs_and_reports_disabled_without_config() {
    let cfg = archietect::permissions::PermissionConfig::default();
    let (answer, found) = archietect::documents_domain::scan_if_allowed(
        &cfg,
        None,
        "/docs",
        &vec![],
        &archietect::permissions::NonInteractiveAsker,
    );
    assert!(!answer.allowed);
    assert!(found.is_empty());
}

// --- requests ---

#[test]
fn a_question_is_the_same_over_either_way_in() {
    let (_, p) = params("/impact?q=User");
    let args = table(vec![("term", text("User"))]);
    for r in [of_endpoint(Endpoint::Impact, &p), of_call("impact", &args)] {
        match r {
            Request::Impact(t) => assert_eq!(t, "User"),
            other => panic!("{other:?}"),
        }
    }
}

#[test]
fn arguments_that_are_left_out_have_their_defaults() {
    match of_call("history", &Tree::Nothing) {
        Request::History(None, 50) => {}
        other => panic!("{other:?}"),
    }
    let args = table(vec![("digest", Tree::Flag(true)), ("limit", Tree::Number("9".to_string()))]);
    assert!(matches!(of_call("history", &args), Request::Digest(9)));
    match of_call("permissions_check", &table(vec![("path", text("a"))])) {
        Request::CheckPath(path, domain) => {
            assert_eq!(path, "a");
            assert_eq!(domain, "code");
        }
        other => panic!("{other:?}"),
    }
    let (_, p) = params("/history?limit=x");
    assert!(matches!(of_endpoint(Endpoint::History, &p), Request::History(None, 50)));
}

#[test]
fn what_cannot_be_served_is_told() {
    for (name, wanted) in [
        ("documents_scan", "missing required 'dir' argument"),
        ("nothing", "unknown tool nothing"),
        ("proposal_submit", "unknown proposal kind '' — expected extractor, decision, or alias"),
    ] {
        match of_call(name, &Tree::Nothing) {
            Request::Fault(e) => assert_eq!(e, wanted),
            other => panic!("{other:?}"),
        }
    }
    let (_, p) = params("/photos/scan");
    match of_endpoint(Endpoint::PhotosScan, &p) {
        Request::Fault(e) => assert_eq!(e, "missing required ?dir=<path> parameter"),
        other => panic!("{other:?}"),
    }
}

#[test]
fn a_proposal_comes_in_whole() {
    let args = table(vec![
        ("kind", text("alias")),
        ("title", text("t")),
        ("patch", text("diff")),
    ]);
    match of_call("proposal_submit", &args) {
        Request::Submit(s) => {
            assert_eq!(s.kind, archietect::proposal::Kind::Alias);
            assert_eq!(s.title, "t");
            assert_eq!(s.patch, "diff");
            assert_eq!(s.language, None);
        }
        other => panic!("{other:?}"),
    }
    assert_eq!(kind_named("extractor"), Some(archietect::proposal::Kind::Extractor));
    assert_eq!(kind_named("Extractor"), None);
}

#[test]
fn refusals_have_a_code_and_words() {
    assert_eq!(decide("/system/register", None, "t", HERE).status(), 401);
    assert_eq!(decide("/status", None, "t", None).status(), 200);
    assert_eq!(
        decide("/status", None, "t", Some(("/gone", false))).error().as_deref(),
        Some("root does not exist: /gone")
    );
    assert_eq!(decide("/status", None, "t", HERE).error(), None);
    let call = read_message("{\"id\":1,\"method\":\"tools/call\",\"params\":{\"name\":\"doctor\"}}");
    assert_eq!(refusal_of(&call, HERE), None);
    assert_eq!(refusal_of(&call, None).unwrap().0, -32602);
    let odd = read_message("{\"id\":1,\"method\":\"odd\"}");
    assert_eq!(refusal_of(&odd, HERE), Some((-32601, "method not found: odd".to_string())));
}
