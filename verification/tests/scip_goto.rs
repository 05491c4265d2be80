use diff_lsp::detection::FileKind;
use diff_lsp::goto_definition::{definition_path_at, find_project_root, goto_definition, goto_definition_checked, root_probes};
use diff_lsp::patch::parse_patch;
use diff_lsp::position::Position;
use diff_lsp::scip::{
    build_document, build_document_checked, document_kind, escape_descriptor, file_symbol, patch_reference_targets,
    path_to_uri, relative_path, strip_ab_prefix,
};

#[test]
fn test_escape_descriptor() {
    assert_eq!(escape_descriptor("src/foo.rs"), "`src/foo.rs`");
    assert_eq!(escape_descriptor("foo-bar_1"), "foo-bar_1");
    assert_eq!(escape_descriptor("a`b"), "`a``b`");
}

#[test]
fn test_patch_index_references_modified_file() {
    let text = "--- a/src/foo.rs\n+++ b/src/foo.rs\n@@ -1 +1 @@\n-old\n+new\n";
    let patch = parse_patch(text);
    let targets = patch_reference_targets(&patch, "/root");
    assert_eq!(targets, vec!["/root/src/foo.rs".to_string(), "/root/src/foo.rs".to_string()]);
    let doc = build_document("/root/patches/fix.patch", text, "/root", FileKind::Patch, &vec![true, true]);
    assert_eq!(doc.language, "Diff");
    assert_eq!(doc.relative_path, "patches/fix.patch");
    assert_eq!(doc.occurrences.len(), 2);
    let expected_symbol = "scip-diff . . . src/`foo.rs`/";
    assert_eq!(doc.occurrences[0].symbol, expected_symbol);
    assert_eq!(doc.occurrences[1].symbol, expected_symbol);
    assert_eq!(doc.symbols.len(), 1);
    assert_eq!(doc.symbols[0].symbol, expected_symbol);
    assert_eq!(doc.symbols[0].display_name, "src/foo.rs");
}

#[test]
fn test_patch_index_skips_missing_and_dev_null() {
    let text = "--- /dev/null\n+++ b/missing.txt\n@@ -0,0 +1 @@\n+line\n";
    let patch = parse_patch(text);
    assert_eq!(patch_reference_targets(&patch, "/root"), vec!["/root/missing.txt".to_string()]);
    let doc = build_document("/root/patches/new.patch", text, "/root", FileKind::Patch, &vec![false]);
    assert!(doc.occurrences.is_empty());
    assert!(doc.symbols.is_empty());
}

#[test]
fn test_patch_occurrence_range() {
    let text = "--- a/file.txt\n+++ b/file.txt\n@@ -1 +1 @@\n-old\n+new\n";
    let doc = build_document("/root/patches/fix.patch", text, "/root", FileKind::Patch, &vec![true, true]);
    assert_eq!(doc.occurrences[0].range, vec![0, 4, 14]);
}

#[test]
fn test_series_index_references_patches() {
    let text = "0001-fix.patch\n# c\n";
    let doc = build_document("/root/debian/patches/series", text, "/root", FileKind::Series, &Vec::new());
    assert_eq!(doc.relative_path, "debian/patches/series");
    assert_eq!(doc.occurrences.len(), 1);
    assert_eq!(doc.occurrences[0].symbol, "scip-diff . . . debian/patches/`0001-fix.patch`/");
    assert_eq!(doc.symbols[0].display_name, "0001-fix.patch");
}

#[test]
fn checked_document_refuses_wrong_answers() {
    let text = "--- a/file.txt\n+++ b/file.txt\n";
    assert!(build_document_checked("/r/x.patch", text, "/r", FileKind::Patch, &vec![true]).is_none());
    assert!(build_document_checked("/r/x.patch", text, "/r", FileKind::Patch, &vec![true, false]).is_some());
}

#[test]
fn document_kinds_of_paths() {
    assert_eq!(document_kind("/root/debian/patches/series"), FileKind::Series);
    assert_eq!(document_kind("/root/patches/fix.patch"), FileKind::Patch);
    assert_eq!(path_to_uri("/root dir/x"), "file:///root%20dir/x");
}

#[test]
fn symbols_and_paths() {
    assert_eq!(file_symbol("/root", "/root/src/main.rs"), "scip-diff . . . src/`main.rs`/");
    assert_eq!(relative_path("/root", "/elsewhere/x"), "/elsewhere/x");
    assert_eq!(relative_path("/root", "/root/a/b"), "a/b");
    assert_eq!(strip_ab_prefix("a/x"), "x");
    assert_eq!(strip_ab_prefix("b/x"), "x");
    assert_eq!(strip_ab_prefix("c/x"), "c/x");
}

const PATCH_URI: &str = "file:///proj/patches/test.patch";

fn goto(text: &str, line: u32, col: u32, quilt: Vec<bool>, git: Vec<bool>, is_file: bool) -> Option<String> {
    let patch = parse_patch(text);
    goto_definition(&patch, text, Position::new(line, col), PATCH_URI, &quilt, &git, is_file)
}

#[test]
fn test_goto_definition_on_new_file_path() {
    let text = "--- a/src/foo.rs\n+++ b/src/foo.rs\n@@ -1 +1 @@\n-old\n+new\n";
    let probes = root_probes(PATCH_URI).unwrap();
    let dirs: Vec<&str> = probes.iter().map(|p| p.dir.as_str()).collect();
    assert_eq!(dirs, vec!["/proj/patches", "/proj", "/"]);
    assert_eq!(probes[0].quilt_parent, Some("/proj".to_string()));
    let result = goto(text, 1, 6, vec![false, false, false], vec![false, true, false], true);
    assert_eq!(result, Some("file:///proj/src/foo.rs".to_string()));
}

#[test]
fn test_goto_definition_on_old_file_path() {
    let text = "--- a/file.txt\n+++ b/file.txt\n@@ -1 +1 @@\n-old\n+new\n";
    let result = goto(text, 0, 6, vec![false, false, false], vec![false, true, false], true);
    assert_eq!(result, Some("file:///proj/file.txt".to_string()));
}

#[test]
fn test_goto_definition_dev_null() {
    let text = "--- /dev/null\n+++ b/new.txt\n@@ -0,0 +1 @@\n+x\n";
    assert_eq!(goto(text, 0, 6, vec![false; 3], vec![false, true, false], true), None);
}

#[test]
fn test_goto_definition_file_not_found() {
    let text = "--- a/file.txt\n+++ b/file.txt\n";
    assert_eq!(goto(text, 0, 6, vec![false; 3], vec![false, true, false], false), None);
}

#[test]
fn test_goto_definition_not_on_path() {
    let text = "--- a/file.txt\n+++ b/file.txt\n@@ -1 +1 @@\n-old\n+new\n";
    assert_eq!(goto(text, 3, 1, vec![false; 3], vec![false, true, false], true), None);
}

#[test]
fn test_goto_definition_quilt_project() {
    let text = "--- a/file.txt\n+++ b/file.txt\n";
    let result = goto(text, 1, 6, vec![true, false, false], vec![false, false, false], true);
    assert_eq!(result, Some("file:///proj/file.txt".to_string()));
}

#[test]
fn test_goto_definition_no_prefix() {
    let text = "--- file.txt\n+++ file.txt\n";
    let patch = parse_patch(text);
    assert_eq!(definition_path_at(&patch, text, Position::new(1, 5)), Some("file.txt".to_string()));
}

#[test]
fn test_find_project_root_git() {
    assert_eq!(find_project_root(PATCH_URI, &vec![false; 3], &vec![false, true, false]), Some("/proj".to_string()));
    assert_eq!(find_project_root(PATCH_URI, &vec![false; 3], &vec![false; 3]), Some("/proj".to_string()));
}

#[test]
fn test_find_project_root_quilt() {
    let uri = "file:///home/u/proj/patches/x.patch";
    let probes = root_probes(uri).unwrap();
    let n = probes.len();
    let mut quilt = vec![false; n];
    quilt[0] = true;
    assert_eq!(find_project_root(uri, &quilt, &vec![false; n]), Some("/home/u/proj".to_string()));
}

#[test]
fn checked_goto_refuses_wrong_answers() {
    let text = "--- a/file.txt\n+++ b/file.txt\n";
    let patch = parse_patch(text);
    let pos = Position::new(1, 6);
    assert_eq!(goto_definition_checked(&patch, text, pos, PATCH_URI, &vec![false], &vec![true], true), None);
    assert_eq!(
        goto_definition_checked(&patch, text, pos, PATCH_URI, &vec![false; 3], &vec![false, true, false], true),
        Some("file:///proj/file.txt".to_string())
    );
}

#[test]
fn relative_path_keeps_the_rest_of_the_text() {
    assert_eq!(relative_path("/r", "/r/a//b"), "a//b");
    assert_eq!(relative_path("/r", "/r/patches/fix.patch"), "patches/fix.patch");
    assert_eq!(relative_path("/r", "/r/./x/"), "x");
    assert_eq!(relative_path("/r", "/r"), "");
    assert_eq!(relative_path("a", "./a/b"), "./a/b");
    assert_eq!(relative_path("/r/", "/r//a"), "a");
}
