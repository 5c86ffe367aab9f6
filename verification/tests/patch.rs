//! Patches reconstructed from the blobs they start from.

use archietect::patch::{confirm, materialize, path, valid_oid, wanted_blobs, Blob, FileChange};
use archietect::table::TextMap;

const OLD: &str = "1111111111111111111111111111111111111111";
const NEW: &str = "2222222222222222222222222222222222222222";

fn holding(text: &str) -> TextMap<Blob> {
    TextMap::new().with(OLD.to_string(), Blob::Content(text.to_string()))
}

/// Every reconstructed file hashes to `hash`.
fn changes(diff: &str, blobs: &TextMap<Blob>, hash: &str) -> Result<Vec<FileChange>, String> {
    let m = materialize(diff, blobs);
    let hashes: Vec<Blob> = m.files.iter().map(|_| Blob::Content(format!("{hash}\n"))).collect();
    confirm(&m, &hashes)
}

fn replaced() -> String {
    format!(
        "diff --git a/model.py b/model.py\nindex {OLD}..{NEW} 100644\n--- a/model.py\n+++ b/model.py\n@@ -1,2 +1,2 @@\n-class Before:\n+class After:\n     pass\n"
    )
}

#[test]
fn staged_snapshot_ignores_unstaged_content() {
    let blobs = holding("class Before:\n    pass\n");
    let diff = replaced();
    assert_eq!(wanted_blobs(&diff), vec![OLD.to_string()]);
    let files = changes(&diff, &blobs, NEW).unwrap();
    assert_eq!(files[0].before, "class Before:\n    pass\n");
    assert_eq!(files[0].after, "class After:\n    pass\n");
    assert!(changes(&diff.replace("-class Before:", "-class Wrong:"), &blobs, NEW).is_err());
}

#[test]
fn new_file_and_missing_final_newline_need_no_repository() {
    let diff = "diff --git a/a.sql b/a.sql\nnew file mode 100644\nindex 0000000..1234567\n--- /dev/null\n+++ b/a.sql\n@@ -0,0 +1 @@\n+CREATE TABLE example(id int);\n\\ No newline at end of file\n";
    let none = TextMap::new();
    assert!(wanted_blobs(diff).is_empty());
    let files = changes(diff, &none, "").unwrap();
    assert_eq!(files[0].before_path, None);
    assert_eq!(files[0].after, "CREATE TABLE example(id int);");
    assert!(changes(&diff.replace("+1 @@", "+1,2 @@"), &none, "").is_err());
    assert!(changes(&diff.replace("a.sql", "../escape"), &none, "").is_err());
}

#[test]
fn removal_and_newline_transition_use_blob_evidence() {
    let blobs = holding("fn old() {}");
    let diff = format!(
        "diff --git a/file.rs b/file.rs\nindex {OLD}..{NEW} 100644\n--- a/file.rs\n+++ b/file.rs\n@@ -1 +1 @@\n-fn old() {{}}\n\\ No newline at end of file\n+fn new() {{}}\n"
    );
    let files = changes(&diff, &blobs, NEW).unwrap();
    assert_eq!(files[0].before, "fn old() {}");
    assert_eq!(files[0].after, "fn new() {}\n");

    let gone = format!(
        "diff --git a/file.rs b/file.rs\ndeleted file mode 100644\nindex {OLD}..0000000000000000000000000000000000000000\n--- a/file.rs\n+++ /dev/null\n@@ -1 +0,0 @@\n-fn old() {{}}\n\\ No newline at end of file\n"
    );
    let files = changes(&gone, &blobs, NEW).unwrap();
    assert_eq!(files[0].after_path, None);
    assert!(files[0].after.is_empty());
}

#[test]
fn staged_new_file_is_independent_of_worktree() {
    let diff = format!(
        "diff --git a/new.py b/new.py\nnew file mode 100644\nindex 0000000000000000000000000000000000000000..{NEW}\n--- /dev/null\n+++ b/new.py\n@@ -0,0 +1,2 @@\n+class Account:\n+    pass\n"
    );
    let files = changes(&diff, &TextMap::new(), NEW).unwrap();
    assert_eq!(files[0].after, "class Account:\n    pass\n");
}

#[test]
fn omitted_complete_hunk_is_rejected_by_postimage_identity() {
    let before: String = (0..20).map(|i| format!("value_{i} = {i}\n")).collect();
    let blobs = holding(&before);
    let first = format!(
        "diff --git a/file.py b/file.py\nindex {OLD}..{NEW} 100644\n--- a/file.py\n+++ b/file.py\n@@ -1,2 +1,2 @@\n-value_0 = 0\n+value_0 = 5\n value_1 = 1\n"
    );
    let whole = format!("{first}@@ -19,2 +19,2 @@\n value_18 = 18\n-value_19 = 19\n+value_19 = 25\n");
    let files = changes(&whole, &blobs, NEW).unwrap();
    assert_eq!(
        files[0].after,
        before.replace("value_0 = 0", "value_0 = 5").replace("value_19 = 19", "value_19 = 25")
    );
    // Without its second hunk the content hashes to something else.
    let other = "3333333333333333333333333333333333333333";
    assert_eq!(
        changes(&first, &blobs, other).unwrap_err(),
        "reconstructed content does not match patch postimage identity"
    );
}

#[test]
fn an_empty_patch_changes_nothing() {
    assert!(changes(" \n", &TextMap::new(), "").unwrap().is_empty());
    assert!(wanted_blobs("").is_empty());
}

#[test]
fn every_fault_of_a_patch_is_named() {
    let blobs = holding("class Before:\n    pass\n");
    let good = replaced();
    let cases = [
        ("class X {}\n".to_string(), "expected Git unified diff with blob identities"),
        (good.replace(&format!("index {OLD}..{NEW} 100644\n"), ""), "existing file patch lacks base blob identity"),
        (good.replace("100644", "120000"), "symlink or submodule patch is unsupported"),
        (good.replace("+++ b/model.py", "+++ b/other.py"), "patch path headers disagree"),
        (good.replace("+++ b/model.py\n", ""), "hunks lack old/new path headers"),
        (good.replace("@@ -1,2 +1,2 @@", "@@ what @@"), "malformed or unsupported hunk header"),
        (good.replace("@@ -1,2 +1,2 @@", "@@ -9,2 +1,2 @@"), "overlapping or out-of-range hunk"),
        (good.replace("@@ -1,2 +1,2 @@", "@@ -1,2 +2,2 @@"), "new hunk position does not match reconstructed content"),
        (good.replace("@@ -1,2 +1,2 @@", "@@ -1,3 +1,3 @@"), "truncated hunk"),
        (good.replace("-class Before:", "-class Wrong:"), "hunk context/removal does not match base blob"),
        (good.replace("index ", "old mode 100644\nindex "), "file mode change requires separate observation"),
        (good.replace("--- a/model.py", "--- model.py"), "unsupported patch path prefix"),
    ];
    for (diff, fault) in cases {
        assert_eq!(changes(&diff, &blobs, NEW).unwrap_err(), fault, "{diff}");
    }
    let lost = TextMap::new().with(
        OLD.to_string(),
        Blob::Failed(format!("patch base blob {OLD} is unavailable or ambiguous")),
    );
    assert!(changes(&good, &lost, NEW).unwrap_err().contains("unavailable"));
}

#[test]
fn paths_of_a_patch_stay_inside() {
    assert_eq!(path("a/src/x.rs", "a/"), Ok(Some("src/x.rs".to_string())));
    assert_eq!(path("/dev/null", "a/"), Ok(None));
    for bad in ["a/../x", "a//x", "a/", "a/x y", "a/./x", "a/\\x"] {
        assert!(path(bad, "a/").is_err(), "{bad}");
    }
}

#[test]
fn identities_of_blobs() {
    assert!(valid_oid("1234"));
    assert!(valid_oid(OLD));
    assert!(!valid_oid("123"));
    assert!(!valid_oid("123g"));
}
