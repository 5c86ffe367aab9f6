//! What may be looked at.

use archietect::model::{Concept, Tier};
use archietect::outside::parse_toml;
use archietect::permissions::{
    answer_to_keep, answered, attribute_allowed, config_of, confirmation_state, domain_allowed, domain_allowed_with_confirmation,
    confirmation_in, load, remembered, report, resource_allowed, says_yes, settle, ConfirmationAsker,
    NonInteractiveAsker, PermissionConfig,
};
use archietect::structural::{Symbol, SymbolKind};
use archietect::tree::Tree;

struct AlwaysYes;
impl ConfirmationAsker for AlwaysYes {
    fn confirm(&self, _prompt: &str) -> bool {
        true
    }
}
struct AlwaysNo;
impl ConfirmationAsker for AlwaysNo {
    fn confirm(&self, _prompt: &str) -> bool {
        false
    }
}

#[test]
fn defaults_enable_only_code_and_git_with_zero_config() {
    let empty = PermissionConfig::default();
    assert!(domain_allowed(&empty, "code"));
    assert!(domain_allowed(&empty, "git"));
    assert!(!domain_allowed(&empty, "docker"));
    assert!(!domain_allowed(&empty, "photos"));
}

#[test]
fn project_override_beats_global() {
    let cfg = load(
        Some("[domains]\ndocker = \"enabled\"\n"),
        Some("[domains]\ndocker = \"disabled\"\n"),
    );
    assert!(!domain_allowed(&cfg, "docker"), "project-level disable must beat global enable");
}

#[test]
fn parsed_documents_are_read_like_their_texts() {
    let said = |domain: &str, word: &str| {
        Tree::Table(vec![(
            "domains".to_string(),
            Tree::Table(vec![(domain.to_string(), Tree::Text(word.to_string()))]),
        )])
    };
    let cfg = config_of(&said("docker", "enabled"), &said("git", "disabled"));
    assert!(domain_allowed(&cfg, "docker"));
    assert!(!domain_allowed(&cfg, "git"));
    let same = load(Some("[domains]\ndocker = \"enabled\"\n"), Some("[domains]\ngit = \"disabled\"\n"));
    assert!(domain_allowed(&same, "docker"));
    assert!(!domain_allowed(&same, "git"));
    assert!(!domain_allowed(&config_of(&Tree::Nothing, &Tree::Nothing), "docker"));
}

#[test]
fn hardcoded_denial_wins_even_if_config_tries_to_enable_it() {
    let cfg = load(Some("[domains]\nfilesystem = \"enabled\"\n"), None);
    assert!(domain_allowed(&cfg, "filesystem"), "sanity: the domain itself is enabled");
    assert!(
        !resource_allowed(&cfg, "filesystem", "/home/someone/.ssh/id_rsa"),
        "a .ssh path must never be allowed, config or no"
    );
    assert!(resource_allowed(&cfg, "filesystem", "/home/someone/notes.txt"));
}

#[test]
fn unstructured_domain_confirmation_blocks_by_default_and_persists_a_yes() {
    let empty = PermissionConfig::default();
    let first = domain_allowed_with_confirmation(&empty, None, "photos", &AlwaysNo);
    assert!(!first.allowed);
    assert_eq!(first.remember, Some(false));

    let kept = "[confirmations]\nphotos = false\n";
    let second = domain_allowed_with_confirmation(&empty, Some(kept), "photos", &AlwaysYes);
    assert!(!second.allowed, "a prior persisted 'no' must not be re-asked and overturned silently");
    assert_eq!(second.remember, None);
}

#[test]
fn unstructured_domain_confirmation_persists_a_yes_and_is_not_reasked() {
    let empty = PermissionConfig::default();
    let first = domain_allowed_with_confirmation(&empty, None, "messages", &AlwaysYes);
    assert!(first.allowed);
    assert_eq!(first.remember, Some(true));

    let kept = "[confirmations]\nmessages = true\n";
    let second = domain_allowed_with_confirmation(&empty, Some(kept), "messages", &AlwaysNo);
    assert!(second.allowed, "a prior persisted 'yes' must not be re-asked and overturned silently");
}

#[test]
fn non_interactive_asker_fails_closed() {
    let empty = PermissionConfig::default();
    let answer = domain_allowed_with_confirmation(&empty, None, "browser", &NonInteractiveAsker);
    assert!(!answer.allowed, "a non-interactive context must never assume consent");
    assert_eq!(answer.remember, None);
}

#[test]
fn explicit_config_entry_for_unstructured_domain_skips_the_prompt_entirely() {
    let cfg = load(Some("[domains]\nphotos = \"enabled\"\n"), None);
    let answer = domain_allowed_with_confirmation(&cfg, None, "photos", &AlwaysNo);
    assert!(answer.allowed, "an explicit config entry must be honored without prompting");
    assert_eq!(answer.remember, None);
}

#[test]
fn attribute_allowed_defaults_to_filename_and_metadata_only_for_unstructured() {
    let empty = PermissionConfig::default();
    assert!(attribute_allowed(&empty, "photos", "filename"));
    assert!(attribute_allowed(&empty, "photos", "metadata"));
    assert!(!attribute_allowed(&empty, "photos", "content"), "silence must never mean 'and also content'");
    // structured domains: no restriction.
    assert!(attribute_allowed(&empty, "code", "content"));
}

#[test]
fn attribute_allowed_honors_explicit_list() {
    let cfg = load(Some("[domains.photos]\nstate = \"enabled\"\nattributes = [\"filename\"]\n"), None);
    assert!(attribute_allowed(&cfg, "photos", "filename"));
    assert!(!attribute_allowed(&cfg, "photos", "metadata"), "an explicit list must exclude anything not named");
    assert!(!attribute_allowed(&cfg, "photos", "content"));
}

#[test]
fn permissions_endpoint_reports_real_domain_state() {
    let domains = report(&PermissionConfig::default());
    let code = domains.iter().find(|d| d.domain == "code").unwrap();
    assert_eq!(code.allowed, true);
    assert_eq!(code.source.label(), "default-enabled");
    let docker = domains.iter().find(|d| d.domain == "docker").unwrap();
    assert_eq!(docker.allowed, false);
}

#[test]
fn an_unreadable_configuration_says_nothing() {
    let cfg = load(Some("[domains"), Some("git = ["));
    assert!(domain_allowed(&cfg, "git"));
    assert!(!domain_allowed(&cfg, "docker"));
}

#[test]
fn names_of_domains_are_read_in_lower_case() {
    let cfg = load(None, Some("[domains]\ndocker = \"enabled\"\n"));
    assert!(domain_allowed(&cfg, "DOCKER"));
}

#[test]
fn an_answer_at_the_prompt() {
    assert!(says_yes(" Y\n"));
    assert!(says_yes("YES"));
    assert!(!says_yes(""));
    assert!(!says_yes("yep"));
}

#[test]
fn an_answer_kept_is_an_answer_found() {
    let before = Tree::Table(vec![(
        "confirmations".to_string(),
        Tree::Table(vec![("photos".to_string(), Tree::Flag(false))]),
    )]);
    assert_eq!(confirmation_in(&before, "documents"), None);
    assert_eq!(confirmation_in(&before, "photos"), Some(false));
    assert_eq!(confirmation_state(Some("[confirmations]\nphotos = true\n"), "photos"), Some(true));
    assert_eq!(confirmation_state(Some("[confirmations"), "photos"), None);
    assert_eq!(confirmation_state(None, "photos"), None);
}

#[test]
fn what_is_settled_before_asking() {
    let cfg = load(Some("[domains]\nphotos = \"disabled\"\n"), None);
    assert_eq!(settle(&cfg, Some(true), "photos"), Some(false));
    assert_eq!(settle(&cfg, Some(true), "messages"), Some(true));
    assert_eq!(settle(&cfg, None, "messages"), None);
    assert_eq!(answered(true, false).remember, None);
    assert_eq!(answered(true, true).remember, Some(true));
}

#[test]
fn concept_to_resource_is_domain_code() {
    let c = Concept {
        name: "Widget".into(),
        declared_in: vec![("schema.prisma".into(), "prisma".into())],
        usage: vec![("src/orders.ts".into(), "prisma.widget.*".into())],
        table: Some("widgets".into()),
        ..Default::default()
    };
    let r = c.to_resource("Widget");
    assert_eq!(r.domain, "code");
    assert_eq!(r.id.0, "Widget");
    assert_eq!(r.location.file, "schema.prisma");
    assert!(r.evidence.iter().any(|e| e.tier == Tier::Declared));
    assert!(r.evidence.iter().any(|e| e.tier == Tier::Used));
}

#[test]
fn symbol_to_resource_is_domain_code() {
    let s = Symbol {
        name: "doctor".into(),
        kind: SymbolKind::Function,
        file: "src/query.rs".into(),
        linked_concept: None,
        line: 677,
    };
    let r = s.to_resource();
    assert_eq!(r.domain, "code");
    assert_eq!(r.id.0, "doctor");
    assert_eq!(r.location.file, "src/query.rs");
    assert_eq!(r.location.line, Some(677));
    assert_eq!(r.evidence.len(), 1);
    assert_eq!(r.evidence[0].tier, Tier::Declared);
    assert_eq!(r.evidence[0].what, "Function declared in src/query.rs:677");
}

#[test]
fn an_answer_survives_the_file_it_is_kept_in() {
    let empty = PermissionConfig::default();
    let first = domain_allowed_with_confirmation(&empty, None, "photos", &AlwaysNo);
    let kept = remembered(None, "photos", first.remember.unwrap()).unwrap();
    assert_eq!(confirmation_state(Some(&kept), "photos"), Some(false));
    let second = domain_allowed_with_confirmation(&empty, Some(&kept), "photos", &AlwaysYes);
    assert!(!second.allowed);

    let both = remembered(Some(&kept), "documents", true).unwrap();
    assert_eq!(confirmation_state(Some(&both), "documents"), Some(true));
    assert_eq!(confirmation_state(Some(&both), "photos"), Some(false));
    assert_eq!(both, "[confirmations]\ndocuments = true\nphotos = false\n");
}

#[test]
fn only_decisions_are_kept() {
    let empty = PermissionConfig::default();
    // A person answers, and is not asked again.
    let first = domain_allowed_with_confirmation(&empty, None, "Photos", &AlwaysYes);
    let kept = answer_to_keep(None, "Photos", &first).unwrap().unwrap();
    let second = domain_allowed_with_confirmation(&empty, Some(&kept), "photos", &AlwaysNo);
    assert!(second.allowed);
    assert_eq!(second.remember, None);
    assert_eq!(answer_to_keep(Some(&kept), "photos", &second), Ok(None));
    // Nobody answers, and the next who can is asked.
    let first = domain_allowed_with_confirmation(&empty, None, "photos", &NonInteractiveAsker);
    assert!(!first.allowed);
    assert_eq!(answer_to_keep(None, "photos", &first), Ok(None));
    let second = domain_allowed_with_confirmation(&empty, None, "photos", &AlwaysYes);
    assert!(second.allowed);
    assert_eq!(second.remember, Some(true));
}

#[test]
fn whatever_a_file_of_answers_holds_can_be_kept() {
    let before = "far = inf\nodd = nan\nsay = \"\"\"a\n'b' \\\"c\\\"\"\"\"\n\"a key\" = [[1], [{ x = 2 }]]\n[[many]]\nn = 1\n[[many]]\n[confirmations]\nphotos = true\n";
    let after = remembered(Some(before), "documents", false).unwrap();
    assert_eq!(confirmation_state(Some(&after), "documents"), Some(false));
    assert_eq!(confirmation_state(Some(&after), "photos"), Some(true));
    let (old, new) = (parse_toml(before).unwrap(), parse_toml(&after).unwrap());
    for k in ["far", "odd", "say", "a key", "many"] {
        assert!(old.field(k).is_some());
        assert_eq!(old.field(k), new.field(k));
    }
    // A file that is no TOML is replaced.
    let after = remembered(Some("confirmations = ["), "photos", true).unwrap();
    assert_eq!(after, "[confirmations]\nphotos = true\n");
    let after = remembered(Some("confirmations = 5\n"), "photos", true).unwrap();
    assert_eq!(after, "[confirmations]\nphotos = true\n");
}

#[test]
fn what_cannot_be_written_is_not_kept() {
    let quotes = format!("owner = \"{}\"\n", "'".repeat(256));
    assert_eq!(remembered(Some(&quotes), "photos", true), None);
    let asked = answered(true, true);
    let e = answer_to_keep(Some(&quotes), "photos", &asked).unwrap_err();
    assert_eq!(e, "serializing confirmations");
    let fewer = format!("owner = \"{}\"\n", "'".repeat(255));
    assert!(remembered(Some(&fewer), "photos", true).is_some());
}

#[test]
fn an_answer_is_kept_in_a_deep_file() {
    for deep in [1, 64, 65, 79] {
        let before = format!("deep = {}1{}\n[confirmations]\nphotos = false\n", "[".repeat(deep), "]".repeat(deep));
        assert_eq!(confirmation_state(Some(&before), "photos"), Some(false), "{deep}");
        let after = remembered(Some(&before), "messages", true).unwrap();
        assert_eq!(confirmation_state(Some(&after), "messages"), Some(true), "{deep}");
        assert_eq!(confirmation_state(Some(&after), "photos"), Some(false), "{deep}");
        let parts: Vec<String> = (0..deep).map(|i| format!("p{i}")).collect();
        let before = format!("[{}]\nx = 1\n", parts.join("."));
        let after = remembered(Some(&before), "messages", true).unwrap();
        assert_eq!(confirmation_state(Some(&after), "messages"), Some(true), "{deep}");
    }
}

#[test]
fn an_answer_under_the_mark_of_dates_is_written_and_does_not_read() {
    let after = remembered(None, "$__toml_private_datetime", true).unwrap();
    assert!(after.contains("$__toml_private_datetime"), "{after}");
    assert_eq!(confirmation_state(Some(&after), "$__toml_private_datetime"), None);
}

#[test]
fn the_rest_of_a_file_of_answers_stays() {
    let before = "owner = \"me\"\nwhen = 2024-05-27\nlist = [1, 2]\n[confirmations]\nphotos = true\n";
    let after = remembered(Some(before), "photos", false).unwrap();
    assert_eq!(confirmation_state(Some(&after), "photos"), Some(false));
    assert!(after.contains("owner = \"me\""), "{after}");
    assert!(after.contains("when = 2024-05-27"), "{after}");
}
