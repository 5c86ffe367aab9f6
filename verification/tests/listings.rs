//! The unstructured domains: documents, photos and message stores.

use archietect::documents_domain;
use archietect::listing::ListedFile;
use archietect::messages_domain;
use archietect::messages_domain::StoreMeta;
use archietect::model::Tier;
use archietect::permissions::{load, ConfirmationAsker, NonInteractiveAsker, PermissionConfig};
use archietect::photos_domain;
use archietect::resource::Resource;
use archietect::table::TextMap;

struct AlwaysYes;
impl ConfirmationAsker for AlwaysYes {
    fn answers_are_decisions(&self) -> bool {
        true
    }
    fn confirm(&self, _prompt: &str) -> bool {
        true
    }
}
struct AlwaysNo;
impl ConfirmationAsker for AlwaysNo {
    fn answers_are_decisions(&self) -> bool {
        true
    }
    fn confirm(&self, _prompt: &str) -> bool {
        false
    }
}

fn file(name: &str, size: u64) -> ListedFile {
    ListedFile { name: name.to_string(), size, modified_ms: Some(1_700_000_000_000) }
}

fn attribute<'a>(r: &'a Resource, name: &str) -> Option<&'a str> {
    r.attributes.get(name).map(String::as_str)
}

fn with_attribute<'a>(list: &'a Vec<Resource>, name: &str, value: &str) -> &'a Resource {
    list.iter().find(|r| attribute(r, name) == Some(value)).expect("such a resource")
}

// --- documents ---

#[test]
fn documents_domain_scan_finds_real_files_with_real_metadata() {
    let files = vec![file("notes.md", 7), file("report.pdf", 13), file("ignored.exe", 14)];
    let resources = documents_domain::scan("/docs", &files);
    assert_eq!(resources.len(), 2, "expected exactly the .md and .pdf files");

    let md = with_attribute(&resources, "extension", "md");
    assert_eq!(md.domain, "documents");
    assert_eq!(md.kind, "document");
    assert_eq!(attribute(md, "filename"), Some("notes.md"));
    assert_eq!(attribute(md, "size_bytes"), Some("7"));
    assert!(md.attributes.has("modified_unix_ms"));
    assert_eq!(md.evidence[0].tier, Tier::Derived);
    assert!(md.evidence[0].what.contains("content never read"));

    let pdf = with_attribute(&resources, "extension", "pdf");
    assert_eq!(attribute(pdf, "filename"), Some("report.pdf"));
}

#[test]
fn documents_domain_scan_on_empty_or_missing_directory_returns_empty() {
    assert!(documents_domain::scan("/docs", &vec![]).is_empty());
}

#[test]
fn documents_domain_scan_never_reads_content_even_for_invalid_utf8_or_large_files() {
    let files = vec![file("binary.txt", 6), file("big.txt", 50 * 1024 * 1024)];
    let resources = documents_domain::scan("/docs", &files);
    assert_eq!(resources.len(), 2);
    let big = with_attribute(&resources, "filename", "big.txt");
    assert_eq!(attribute(big, "size_bytes"), Some((50 * 1024 * 1024).to_string()).as_deref());
}

#[test]
fn documents_domain_scan_does_not_recurse_into_subdirectories() {
    let resources = documents_domain::scan("/docs", &vec![file("top.md", 9)]);
    assert_eq!(resources.len(), 1, "expected only the top-level file");
    assert_eq!(attribute(&resources[0], "filename"), Some("top.md"));
}

#[test]
fn documents_domain_scan_if_allowed_blocks_when_confirmation_says_no() {
    let cfg = PermissionConfig::default();
    let (answer, resources) =
        documents_domain::scan_if_allowed(&cfg, None, "/docs", &vec![file("a.md", 1)], &AlwaysNo);
    assert!(!answer.allowed);
    assert_eq!(answer.remember, Some(false));
    assert!(resources.is_empty());
}

#[test]
fn documents_domain_scan_if_allowed_permits_and_persists_when_confirmation_says_yes() {
    let cfg = PermissionConfig::default();
    let files = vec![file("a.md", 1)];
    let (answer, resources) = documents_domain::scan_if_allowed(&cfg, None, "/docs", &files, &AlwaysYes);
    assert!(answer.allowed);
    assert_eq!(answer.remember, Some(true));
    assert_eq!(resources.len(), 1);

    let kept = "[confirmations]\ndocuments = true\n";
    let (again, _) = documents_domain::scan_if_allowed(&cfg, Some(kept), "/docs", &files, &AlwaysNo);
    assert!(again.allowed, "a prior persisted 'yes' must not be re-asked and overturned silently");
}

#[test]
fn documents_domain_scan_if_allowed_respects_explicit_attribute_restriction() {
    let cfg = load(Some("[domains.documents]\nstate = \"enabled\"\nattributes = [\"filename\"]\n"), None);
    let (answer, resources) =
        documents_domain::scan_if_allowed(&cfg, None, "/docs", &vec![file("a.md", 1)], &AlwaysNo);
    assert!(answer.allowed);
    assert_eq!(resources.len(), 1);
    assert!(resources[0].attributes.has("filename"));
    assert!(
        !resources[0].attributes.has("size_bytes"),
        "an explicit attributes=[\"filename\"] list must exclude metadata fields"
    );
}

#[test]
fn documents_scan_never_hangs_and_reports_disabled_without_config() {
    let cfg = PermissionConfig::default();
    let (answer, resources) = documents_domain::scan_if_allowed(
        &cfg,
        None,
        "/docs",
        &vec![file("note.md", 20)],
        &NonInteractiveAsker,
    );
    assert!(!answer.allowed, "no explicit config, so the domain is reported disabled");
    assert_eq!(resources.len(), 0);
}

// --- photos ---

#[test]
fn photos_domain_scan_finds_real_files_with_real_metadata() {
    let files = vec![file("photo.jpg", 15), file("image.png", 14), file("readme.txt", 11)];
    let resources = photos_domain::scan("/pics", &files);
    assert_eq!(resources.len(), 2, "expected exactly the .jpg and .png files");

    let jpg = with_attribute(&resources, "extension", "jpg");
    assert_eq!(jpg.domain, "photos");
    assert_eq!(jpg.kind, "photo");
    assert_eq!(attribute(jpg, "filename"), Some("photo.jpg"));
    assert_eq!(attribute(jpg, "size_bytes"), Some("15"));
    assert!(jpg.attributes.has("modified_unix_ms"));
    assert_eq!(jpg.evidence[0].tier, Tier::Derived);
    assert!(jpg.evidence[0].what.contains("content never read"));

    let png = with_attribute(&resources, "extension", "png");
    assert_eq!(attribute(png, "filename"), Some("image.png"));
}

#[test]
fn photos_domain_scan_on_empty_or_missing_directory_returns_empty() {
    assert!(photos_domain::scan("/pics", &vec![]).is_empty());
}

#[test]
fn photos_domain_scan_never_reads_content_even_for_invalid_utf8_or_large_files() {
    let files = vec![file("binary.jpg", 6), file("big.png", 50 * 1024 * 1024)];
    let resources = photos_domain::scan("/pics", &files);
    assert_eq!(resources.len(), 2);
    let big = with_attribute(&resources, "filename", "big.png");
    assert_eq!(attribute(big, "size_bytes"), Some((50 * 1024 * 1024).to_string()).as_deref());
}

#[test]
fn photos_domain_scan_does_not_recurse_into_subdirectories() {
    let resources = photos_domain::scan("/pics", &vec![file("top.jpg", 9)]);
    assert_eq!(resources.len(), 1, "expected only the top-level file");
    assert_eq!(attribute(&resources[0], "filename"), Some("top.jpg"));
}

#[test]
fn photos_domain_scan_if_allowed_blocks_when_confirmation_says_no() {
    let cfg = PermissionConfig::default();
    let (answer, resources) =
        photos_domain::scan_if_allowed(&cfg, None, "/pics", &vec![file("a.jpg", 1)], &AlwaysNo);
    assert!(!answer.allowed);
    assert!(resources.is_empty());
}

#[test]
fn photos_domain_scan_if_allowed_permits_and_persists_when_confirmation_says_yes() {
    let cfg = PermissionConfig::default();
    let files = vec![file("a.jpg", 1)];
    let (answer, resources) = photos_domain::scan_if_allowed(&cfg, None, "/pics", &files, &AlwaysYes);
    assert!(answer.allowed);
    assert_eq!(answer.remember, Some(true));
    assert_eq!(resources.len(), 1);

    let kept = "[confirmations]\nphotos = true\n";
    let (again, _) = photos_domain::scan_if_allowed(&cfg, Some(kept), "/pics", &files, &AlwaysNo);
    assert!(again.allowed, "a prior persisted 'yes' must not be re-asked and overturned silently");
}

#[test]
fn non_interactive_decline_is_not_persisted_so_a_later_interactive_run_still_asks() {
    let cfg = PermissionConfig::default();
    let files = vec![file("a.jpg", 1)];
    let (answer, resources) =
        photos_domain::scan_if_allowed(&cfg, None, "/pics", &files, &NonInteractiveAsker);
    assert!(!answer.allowed, "fail closed with no real TTY");
    assert_eq!(answer.remember, None);
    assert!(resources.is_empty());

    let (again, found) = photos_domain::scan_if_allowed(&cfg, None, "/pics", &files, &AlwaysYes);
    assert!(
        again.allowed,
        "the interactive run must be asked, not blocked by a prior non-interactive decline"
    );
    assert_eq!(found.len(), 1);
}

#[test]
fn photos_domain_scan_if_allowed_respects_explicit_attribute_restriction() {
    let cfg = load(Some("[domains.photos]\nstate = \"enabled\"\nattributes = [\"filename\"]\n"), None);
    let (answer, resources) =
        photos_domain::scan_if_allowed(&cfg, None, "/pics", &vec![file("a.jpg", 1)], &AlwaysNo);
    assert!(answer.allowed);
    assert_eq!(resources.len(), 1);
    assert!(resources[0].attributes.has("filename"));
    assert!(
        !resources[0].attributes.has("size_bytes"),
        "an explicit attributes=[\"filename\"] list must exclude metadata fields"
    );
}

// --- messages ---

fn store(path: &str, size: u64) -> TextMap<StoreMeta> {
    TextMap::new().with(path.to_string(), StoreMeta { size, modified_ms: Some(1_700_000_000_000) })
}

#[test]
fn finds_a_real_file_based_store_with_size_and_mtime() {
    let resources = messages_domain::scan("/home/someone", &store("Library/Messages/chat.db", 19));
    let r = with_attribute(&resources, "app", "iMessage/SMS");
    assert_eq!(r.domain, "messages");
    assert_eq!(r.kind, "message_store");
    assert_eq!(attribute(r, "size_bytes"), Some("19"));
    assert!(r.attributes.has("modified_unix_ms"));
    assert_eq!(r.evidence[0].tier, Tier::Derived);
    assert!(r.evidence[0].what.contains("never opened or queried"));
}

#[test]
fn finds_a_directory_based_store_without_reporting_its_contents() {
    let resources = messages_domain::scan("/home/someone", &store(".config/Signal", 4096));
    let r = resources
        .iter()
        .find(|r| attribute(r, "app") == Some("Signal") && r.location.file.contains(".config"))
        .expect("expected the Linux Signal store to be found");
    assert_eq!(r.kind, "message_store");
    assert!(
        !r.attributes.has("size_bytes"),
        "a directory-shaped store must never report a size, that would imply content was measured"
    );
    assert!(r.evidence[0].what.contains("contents never listed"));
    for i in 0..r.attributes.len() {
        assert!(!r.attributes.value(i).contains("real-conversation-data"));
    }
}

#[test]
fn no_stores_present_returns_empty_not_a_guess() {
    assert!(messages_domain::scan("/home/someone", &TextMap::new()).is_empty());
}

#[test]
fn messages_domain_scan_if_allowed_blocks_when_confirmation_says_no() {
    let cfg = PermissionConfig::default();
    let (answer, resources) = messages_domain::scan_if_allowed(
        &cfg,
        None,
        "/home/someone",
        &store(".config/Slack", 4096),
        &AlwaysNo,
    );
    assert!(!answer.allowed);
    assert!(resources.is_empty());
}

#[test]
fn messages_domain_scan_if_allowed_permits_and_persists_when_confirmation_says_yes() {
    let cfg = PermissionConfig::default();
    let metas = store(".config/Slack", 4096);
    let (answer, resources) =
        messages_domain::scan_if_allowed(&cfg, None, "/home/someone", &metas, &AlwaysYes);
    assert!(answer.allowed);
    assert_eq!(answer.remember, Some(true));
    assert_eq!(resources.len(), 1);

    let kept = "[confirmations]\nmessages = true\n";
    let (again, _) =
        messages_domain::scan_if_allowed(&cfg, Some(kept), "/home/someone", &metas, &AlwaysNo);
    assert!(again.allowed, "a prior persisted 'yes' must not be re-asked and overturned silently");
}

#[test]
fn messages_domain_scan_if_allowed_respects_explicit_attribute_restriction() {
    let cfg = load(Some("[domains.messages]\nstate = \"enabled\"\nattributes = [\"filename\"]\n"), None);
    let (answer, resources) = messages_domain::scan_if_allowed(
        &cfg,
        None,
        "/home/someone",
        &store("Library/Messages/chat.db", 1),
        &AlwaysNo,
    );
    assert!(answer.allowed);
    assert_eq!(resources.len(), 1);
    assert!(resources[0].attributes.has("app"));
    assert!(
        !resources[0].attributes.has("size_bytes"),
        "an explicit attributes=[\"filename\"] list must exclude metadata fields"
    );
}
