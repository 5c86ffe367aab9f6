//! Which decisions authorise a change.

use archietect::model::DecisionStatus;
use archietect::mutation_policy::{applicable_decisions, canonical, same_list};
use archietect::outside::parse_toml;
use archietect::table::TextMap;

fn record(links: &str) -> String {
    format!(
        "[[decision]]\nid = 'tenant'\ndecision = 'Scope tenant data'\nbecause = 'Prevent cross-tenant reads'\nlinks = {links}\n"
    )
}

fn names(list: &[&str]) -> Vec<String> {
    list.iter().map(|s| s.to_string()).collect()
}

fn aliases(pairs: &[(&str, &str)]) -> TextMap<String> {
    let mut out = TextMap::new();
    for (k, v) in pairs {
        out = out.with(k.to_string(), v.to_string());
    }
    out
}

fn evaluate(before: &str, after: &str, targets: &[&str]) -> Result<TextMap<Vec<String>>, String> {
    applicable_decisions(before, after, &names(targets), &TextMap::new())
}

fn of(result: &TextMap<Vec<String>>, target: &str) -> Vec<String> {
    result.get(target).unwrap().clone()
}

#[test]
fn multiline_links_authorize_each_exact_target() {
    let result = evaluate(
        "",
        &record("[\n 'Member',\n 'Contribution',\n]"),
        &["Member", "Contribution", "Tenant"],
    )
    .unwrap();
    assert_eq!(of(&result, "Member"), ["tenant"]);
    assert_eq!(of(&result, "Contribution"), ["tenant"]);
    assert!(of(&result, "Tenant").is_empty());
}

#[test]
fn substrings_and_comment_markers_do_not_authorize() {
    let result = evaluate("", &record("['ContributionModel']"), &["Contribution"]).unwrap();
    assert!(of(&result, "Contribution").is_empty());
    let result =
        evaluate("", "# [[decision]]\nmessage = '[[decision]]'", &["Contribution"]).unwrap();
    assert!(of(&result, "Contribution").is_empty());
}

#[test]
fn existing_decision_requires_a_substantive_update() {
    let old = record("['Member', 'Contribution']");
    assert!(of(&evaluate(&old, &old, &["Member"]).unwrap(), "Member").is_empty());
    let reordered = record("['Contribution', 'Member']");
    assert!(of(&evaluate(&old, &reordered, &["Member"]).unwrap(), "Member").is_empty());
    let updated = old.replace("Prevent cross-tenant reads", "Enforce scope on background jobs too");
    assert_eq!(of(&evaluate(&old, &updated, &["Member"]).unwrap(), "Member"), ["tenant"]);
}

#[test]
fn aliases_resolve_transitively_and_cycles_fail() {
    let given = aliases(&[("ContributionModel", "Payment"), ("Payment", "Contribution")]);
    let result = applicable_decisions(
        "",
        &record("['ContributionModel']"),
        &names(&["Contribution"]),
        &given,
    )
    .unwrap();
    assert_eq!(of(&result, "Contribution"), ["tenant"]);
    let cycle = aliases(&[("A", "B"), ("B", "A")]);
    assert!(applicable_decisions("", "", &names(&[]), &cycle).is_err());
}

#[test]
fn qualified_symbols_require_unambiguous_links() {
    let targets = ["src/a.rs::Member", "src/b.rs::Member"];
    assert!(evaluate("", &record("['Member']"), &targets).unwrap_err().contains("ambiguous"));
    let result = evaluate("", &record("['src/a.rs::Member']"), &targets).unwrap();
    assert_eq!(of(&result, targets[0]), ["tenant"]);
    assert!(of(&result, targets[1]).is_empty());
    let result = evaluate("", &record("['Member']"), &targets[..1]).unwrap();
    assert_eq!(of(&result, targets[0]), ["tenant"]);
}

#[test]
fn alias_cannot_hide_ambiguous_symbol_identity() {
    let given = aliases(&[("TenantMember", "Member")]);
    let result = applicable_decisions(
        "",
        &record("['TenantMember']"),
        &names(&["a.py::Member", "b.py::Member"]),
        &given,
    );
    assert!(result.unwrap_err().contains("ambiguous"));
}

#[test]
fn malformed_and_duplicate_decisions_fail_closed() {
    for invalid in [
        "[[decision]]\nid = 'dummy'".to_owned(),
        record("['Member']") + &record("['Member']"),
        record("['Member']").replace("Scope tenant data", " "),
        "[[decision".into(),
    ] {
        assert!(evaluate("", &invalid, &["Member"]).is_err(), "{invalid}");
    }
}

#[test]
fn legacy_decisions_default_to_active_and_authorize() {
    let result = evaluate("", &record("['Member']"), &["Member"]).unwrap();
    assert_eq!(of(&result, "Member"), ["tenant"]);
}

#[test]
fn only_active_decisions_authorize_a_mutation() {
    let superseded = record("['Member']")
        .replace("id = 'tenant'", "id = 'old'\nstatus = 'superseded'\nsuperseded_by = 'current'");
    let current = record("['Member']")
        .replace("id = 'tenant'", "id = 'current'")
        .replace("Scope tenant data", "Current tenant policy");
    let result = evaluate("", &(superseded + &current), &["Member"]).unwrap();
    assert_eq!(of(&result, "Member"), ["current"]);
}

#[test]
fn supersession_requires_active_existing_successor() {
    let missing = record("['Member']")
        .replace("id = 'tenant'", "id = 'old'\nstatus = 'superseded'\nsuperseded_by = 'missing'");
    assert!(applicable_decisions(&missing, &missing, &names(&[]), &TextMap::new())
        .unwrap_err()
        .contains("does not exist"));

    let inactive_successor = missing.replace("missing", "current")
        + &record("['Member']").replace("id = 'tenant'", "id = 'current'\nstatus = 'retired'");
    assert!(applicable_decisions("", &inactive_successor, &names(&["Member"]), &TextMap::new())
        .unwrap_err()
        .contains("not active"));
}

#[test]
fn lifecycle_rejects_invalid_status_and_bad_superseded_by_shape() {
    let invalid = record("['Member']").replace("id = 'tenant'", "id = 'x'\nstatus = 'paused'");
    assert!(evaluate("", &invalid, &["Member"]).is_err());
    let active_with_target =
        record("['Member']").replace("id = 'tenant'", "id = 'x'\nsuperseded_by = 'y'");
    assert!(evaluate("", &active_with_target, &["Member"]).is_err());
}

#[test]
fn a_status_may_stand_as_the_one_key_of_a_table() {
    let with = |status: &str| {
        record("['Member']").replace("id = 'tenant'", &format!("id = 'x'\nstatus = {status}"))
    };
    for active in ["'active'", "{ active = {} }", "{ active = [] }"] {
        assert_eq!(of(&evaluate("", &with(active), &["Member"]).unwrap(), "Member"), ["x"], "{active}");
    }
    for retired in ["'retired'", "{ retired = {} }"] {
        assert!(of(&evaluate("", &with(retired), &["Member"]).unwrap(), "Member").is_empty(), "{retired}");
    }
    for wrong in ["{}", "{ paused = {} }", "{ active = 1 }", "{ active = { a = 1 } }", "{ active = {}, retired = {} }", "[]"] {
        assert!(evaluate("", &with(wrong), &["Member"]).is_err(), "{wrong}");
    }
}

#[test]
fn a_chain_of_aliases_is_followed_to_its_end() {
    let given = aliases(&[("A", "B"), ("B", "C"), ("C", "D")]);
    assert_eq!(canonical("A", &given).unwrap(), "D");
    assert_eq!(canonical("D", &given).unwrap(), "D");
    assert_eq!(canonical("Elsewhere", &given).unwrap(), "Elsewhere");
    let ring = aliases(&[("A", "B"), ("B", "A")]);
    assert!(canonical("A", &ring).unwrap_err().contains("cycle"));
}

#[test]
fn records_are_read_with_their_status() {
    let tree = parse_toml(
        "[[decision]]\nid = 'a'\ndecision = 'd'\nbecause = 'b'\nlinks = ['X']\nstatus = 'superseded'\nsuperseded_by = 'z'\n[[decision]]\nid = 'z'\ndecision = 'd'\nbecause = 'b'\nlinks = ['X']\n",
    )
    .unwrap();
    let found = archietect::mutation_policy::records(&tree).unwrap();
    assert_eq!(found.len(), 2);
    assert_eq!(found.get("a").unwrap().status, DecisionStatus::Superseded);
    assert_eq!(found.get("a").unwrap().superseded_by.as_deref(), Some("z"));
    assert_eq!(found.get("z").unwrap().status, DecisionStatus::Active);
}

#[test]
fn lists_are_the_same_in_the_same_order() {
    assert!(same_list(&names(&["a", "b"]), &names(&["a", "b"])));
    assert!(!same_list(&names(&["a", "b"]), &names(&["b", "a"])));
    assert!(!same_list(&names(&["a"]), &names(&["a", "b"])));
}

#[test]
fn a_record_may_be_written_as_a_list() {
    let after = "decision = [['tenant', 'Scope tenant data', 'Prevent reads', [], ['Member']]]\n";
    let result = evaluate("", after, &["Member", "Tenant"]).unwrap();
    assert_eq!(of(&result, "Member"), ["tenant"]);
    assert!(of(&result, "Tenant").is_empty());
    assert!(evaluate("", "decision = [['tenant', 'Scope tenant data']]\n", &["Member"]).is_err());
}

#[test]
fn names_resolve_to_the_end_of_their_chain() {
    let chain = aliases(&[("a", "b"), ("b", "c")]);
    assert_eq!(canonical("a", &chain), Ok("c".to_string()));
    assert_eq!(canonical("c", &chain), Ok("c".to_string()));
    assert_eq!(canonical("z", &chain), Ok("z".to_string()));
    let circle = aliases(&[("a", "b"), ("b", "a"), ("x", "a")]);
    assert_eq!(canonical("x", &circle), Err("alias cycle while resolving \"x\"".to_string()));
    let blank = aliases(&[("a", "b"), ("b", "  ")]);
    assert_eq!(canonical("a", &blank), Err("empty alias target for \"b\"".to_string()));
}
