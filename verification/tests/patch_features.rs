use diff_lsp::code_actions::get_code_actions;
use diff_lsp::diagnostics::get_diagnostics;
use diff_lsp::code_lenses::get_code_lenses;
use diff_lsp::detection::{detect_file_kind, detect_from_uri_path, FileKind};
use diff_lsp::highlights::get_highlights;
use diff_lsp::hunk_header::reverse_hunk_header;
use diff_lsp::inlay_hints::get_inlay_hints;
use diff_lsp::lsp::{ActionKind, CodeAction, CodeLens, DocumentHighlight, HighlightKind, InlayHint};
use diff_lsp::patch::parse_patch;
use diff_lsp::position::{offset_to_position, try_position_to_offset, Position, Range};

fn parse_and_actions(text: &str, line: u32) -> Vec<CodeAction> {
    let patch = parse_patch(text);
    let range = Range::new(Position::new(line, 0), Position::new(line, 0));
    get_code_actions(&patch, text, range)
}

#[test]
fn test_remove_hunk_action() {
    let text = "--- a/file.txt\n+++ b/file.txt\n@@ -1 +1 @@\n-old\n+new\n";
    let actions = parse_and_actions(text, 2);
    let titles: Vec<&str> = actions.iter().map(|a| a.title.as_str()).collect();
    assert!(titles.contains(&"Remove hunk"));
}

#[test]
fn test_reverse_hunk_action() {
    let text = "--- a/file.txt\n+++ b/file.txt\n@@ -1 +1 @@\n-old\n+new\n";
    let actions = parse_and_actions(text, 3);
    let titles: Vec<&str> = actions.iter().map(|a| a.title.as_str()).collect();
    assert!(titles.contains(&"Reverse hunk"));
    let reverse = actions.iter().find(|a| a.title == "Reverse hunk").unwrap();
    assert_eq!(reverse.edits[0].new_text, "@@ -1 +1 @@\n+old\n-new\n");
}

#[test]
fn test_reverse_hunk_header_swap() {
    assert_eq!(reverse_hunk_header("@@ -1,3 +4,5 @@"), "@@ -4,5 +1,3 @@");
    assert_eq!(reverse_hunk_header("@@ -1 +1 @@ context"), "@@ -1 +1 @@ context");
}

#[test]
fn test_no_actions_outside_hunk() {
    let text = "--- a/file.txt\n+++ b/file.txt\n@@ -1 +1 @@\n-old\n+new\n";
    let actions = parse_and_actions(text, 0);
    assert!(actions.is_empty());
}

#[test]
fn test_actions_with_multiple_hunks() {
    let text = "--- a/file.txt\n+++ b/file.txt\n@@ -1 +1 @@\n-a\n+b\n@@ -10 +10 @@\n-c\n+d\n";
    let actions = parse_and_actions(text, 3);
    assert_eq!(actions.len(), 2);
    let actions = parse_and_actions(text, 6);
    assert_eq!(actions.len(), 2);
}

#[test]
fn test_fix_hunk_counts_action() {
    let text = "--- a/file.txt\n+++ b/file.txt\n@@ -1,99 +1,99 @@\n-old\n+new\n";
    let actions = parse_and_actions(text, 3);
    let titles: Vec<&str> = actions.iter().map(|a| a.title.as_str()).collect();
    assert!(titles.contains(&"Fix hunk line counts"), "got: {titles:?}");
    let fix = actions.iter().find(|a| a.title == "Fix hunk line counts").unwrap();
    assert_eq!(fix.kind, ActionKind::QuickFix);
    assert!(fix.is_preferred);
    assert_eq!(fix.edits[0].new_text, "@@ -1,1 +1,1 @@\n");
}

#[test]
fn test_no_fix_action_when_counts_correct() {
    let text = "--- a/file.txt\n+++ b/file.txt\n@@ -1,2 +1,2 @@\n ctx\n-old\n+new\n";
    let actions = parse_and_actions(text, 3);
    let titles: Vec<&str> = actions.iter().map(|a| a.title.as_str()).collect();
    assert!(!titles.contains(&"Fix hunk line counts"));
}

#[test]
fn reverse_hunk_twice_restores_the_hunk() {
    let text = "--- a/file.txt\n+++ b/file.txt\n@@ -1,2 +1,3 @@\n ctx\n-old\n+new1\n+new2\n";
    let once = diff_lsp::code_actions::reverse_hunk("@@ -1,2 +1,3 @@\n ctx\n-old\n+new1\n+new2\n");
    assert_eq!(once, "@@ -1,3 +1,2 @@\n ctx\n+old\n-new1\n-new2\n");
    let twice = diff_lsp::code_actions::reverse_hunk(once.as_str());
    assert_eq!(twice, "@@ -1,2 +1,3 @@\n ctx\n-old\n+new1\n+new2\n");
    let actions = parse_and_actions(text, 4);
    assert_eq!(actions.len(), 2);
}

#[test]
fn reverse_hunk_twice_keeps_an_unterminated_last_line() {
    let hunk = "@@ -3 +3,2 @@ fn main\n-a\n+b\n+c";
    let once = diff_lsp::code_actions::reverse_hunk(hunk);
    assert_eq!(once, "@@ -3,2 +3 @@ fn main\n+a\n-b\n-c");
    assert_eq!(diff_lsp::code_actions::reverse_hunk(once.as_str()), hunk);
}

fn parse_and_lenses(text: &str) -> Vec<CodeLens> {
    let patch = parse_patch(text);
    get_code_lenses(&patch, text)
}

#[test]
fn test_single_hunk_lens() {
    let text = "--- a/file.txt\n+++ b/file.txt\n@@ -1,4 +1,4 @@\n ctx1\n ctx2\n-old\n+new\n";
    let lenses = parse_and_lenses(text);
    assert_eq!(lenses.len(), 1);
    assert_eq!(lenses[0].title, "2 context, +1 −1");
}

#[test]
fn code_lenses_test_multiple_hunks() {
    let text = "--- a/file.txt\n+++ b/file.txt\n@@ -1,2 +1,3 @@\n ctx\n-old\n+new1\n+new2\n@@ -10,1 +11,1 @@\n-a\n+b\n";
    let lenses = parse_and_lenses(text);
    assert_eq!(lenses.len(), 2);
    assert_eq!(lenses[0].title, "1 context, +2 −1");
    assert_eq!(lenses[1].title, "0 context, +1 −1");
    assert_eq!(lenses[1].range.start, Position::new(7, 0));
}

#[test]
fn test_no_lenses_for_empty() {
    let lenses = parse_and_lenses("");
    assert!(lenses.is_empty());
}

#[test]
fn test_series_by_name() {
    assert_eq!(detect_file_kind("file:///project/debian/patches/series"), FileKind::Series);
}

#[test]
fn test_series_conf() {
    assert_eq!(detect_file_kind("file:///project/series.conf"), FileKind::Series);
}

#[test]
fn test_patch_by_extension() {
    assert_eq!(detect_file_kind("file:///project/patches/fix.patch"), FileKind::Patch);
}

#[test]
fn test_diff_by_extension() {
    assert_eq!(detect_file_kind("file:///project/changes.diff"), FileKind::Patch);
}

#[test]
fn test_default_is_patch() {
    assert_eq!(detect_file_kind("file:///project/some-random-file"), FileKind::Patch);
}

#[test]
fn test_detect_from_uri_path() {
    assert_eq!(detect_from_uri_path("/foo/series"), FileKind::Series);
    assert_eq!(detect_from_uri_path("/foo/series.conf"), FileKind::Series);
    assert_eq!(detect_from_uri_path("/foo/bar.patch"), FileKind::Patch);
    assert_eq!(detect_from_uri_path("/foo/bar"), FileKind::Patch);
}

#[test]
fn detect_unparsable_uri_is_patch() {
    assert_eq!(detect_file_kind("not a uri at all %%"), FileKind::Patch);
}

fn parse_and_highlight(text: &str, line: u32, character: u32) -> Vec<DocumentHighlight> {
    let patch = parse_patch(text);
    get_highlights(&patch, text, Position::new(line, character))
}

#[test]
fn test_highlight_from_file_header() {
    let text = "--- a/file.txt\n+++ b/file.txt\n@@ -1 +1 @@\n-old\n+new\n";
    let highlights = parse_and_highlight(text, 0, 5);
    assert_eq!(highlights.len(), 3);
    assert_eq!(highlights[0].kind, HighlightKind::Write);
    assert_eq!(highlights[1].kind, HighlightKind::Write);
    assert_eq!(highlights[2].kind, HighlightKind::Read);
}

#[test]
fn test_highlight_from_hunk_line() {
    let text = "--- a/file.txt\n+++ b/file.txt\n@@ -1 +1 @@\n-old\n+new\n";
    let highlights = parse_and_highlight(text, 3, 1);
    assert_eq!(highlights.len(), 3);
}

#[test]
fn test_highlight_multiple_files_only_matches() {
    let text = "--- a/foo.txt\n+++ b/foo.txt\n@@ -1 +1 @@\n-a\n+b\n--- a/bar.txt\n+++ b/bar.txt\n@@ -1 +1 @@\n-c\n+d\n";
    let highlights = parse_and_highlight(text, 0, 5);
    assert_eq!(highlights.len(), 3);
    let highlights = parse_and_highlight(text, 8, 1);
    assert_eq!(highlights.len(), 3);
}

#[test]
fn test_highlight_multiple_hunks_same_file() {
    let text = "--- a/file.txt\n+++ b/file.txt\n@@ -1 +1 @@\n-a\n+b\n@@ -10 +10 @@\n-c\n+d\n";
    let highlights = parse_and_highlight(text, 0, 5);
    assert_eq!(highlights.len(), 4);
    assert_eq!(highlights[0].kind, HighlightKind::Write);
    assert_eq!(highlights[1].kind, HighlightKind::Write);
    assert_eq!(highlights[2].kind, HighlightKind::Read);
    assert_eq!(highlights[3].kind, HighlightKind::Read);
}

#[test]
fn test_highlight_outside_patch() {
    let highlights = parse_and_highlight("some junk text\n", 0, 5);
    assert!(highlights.is_empty());
}

fn parse_and_hint(text: &str) -> Vec<InlayHint> {
    let patch = parse_patch(text);
    let range = Range::new(Position::new(0, 0), Position::new(1000, 0));
    get_inlay_hints(&patch, text, range)
}

#[test]
fn test_hunk_hint() {
    let text = "--- a/file.txt\n+++ b/file.txt\n@@ -1,3 +1,4 @@\n context\n-deleted\n+added1\n+added2\n context2\n";
    let hints = parse_and_hint(text);
    assert_eq!(hints.len(), 1);
    assert_eq!(hints[0].label, " +2 −1");
}

#[test]
fn hunk_hint_sits_at_the_end_of_the_header_line() {
    let text = "--- a/file.txt\n+++ b/file.txt\n@@ -1,3 +1,4 @@\n context\n-deleted\n+added1\n+added2\n context2\n";
    let hints = parse_and_hint(text);
    assert_eq!(hints.len(), 1);
    assert_eq!(hints[0].position, Position::new(2, 15));
}

#[test]
fn inlay_hints_test_multiple_hunks() {
    let text = "--- a/file.txt\n+++ b/file.txt\n@@ -1 +1 @@\n-a\n+b\n@@ -10,2 +10,3 @@\n ctx\n-old\n+new1\n+new2\n";
    let hints = parse_and_hint(text);
    assert_eq!(hints.len(), 2);
    assert_eq!(hints[0].label, " +1 −1");
    assert_eq!(hints[1].label, " +2 −1");
}

#[test]
fn test_no_hint_for_context_only() {
    let text = "--- a/file.txt\n+++ b/file.txt\n@@ -1,2 +1,2 @@\n line1\n line2\n";
    assert!(parse_and_hint(text).is_empty());
}

#[test]
fn test_hint_range_filtering() {
    let text = "--- a/file.txt\n+++ b/file.txt\n@@ -1 +1 @@\n-a\n+b\n@@ -100 +100 @@\n-c\n+d\n";
    let patch = parse_patch(text);
    let range = Range::new(Position::new(0, 0), Position::new(4, 0));
    let hints = get_inlay_hints(&patch, text, range);
    assert_eq!(hints.len(), 1);
}

#[test]
fn test_offset_to_position_simple() {
    let text = "first\nsecond\nthird\n";
    assert_eq!(offset_to_position(text, 0), Position::new(0, 0));
    assert_eq!(offset_to_position(text, 6), Position::new(1, 0));
    assert_eq!(offset_to_position(text, 8), Position::new(1, 2));
}

#[test]
fn test_roundtrip() {
    let text = "--- a/file.txt\n+++ b/file.txt\n@@ -1 +1 @@\n-old\n+new\n";
    for offset in 0..text.len() {
        let pos = offset_to_position(text, offset as u32);
        let back = try_position_to_offset(text, pos).unwrap();
        assert_eq!(offset as u32, back, "roundtrip failed for offset {offset}");
    }
}

#[test]
fn test_utf16_multibyte() {
    let text = "a😀b\n";
    assert_eq!(offset_to_position(text, 5), Position::new(0, 3));
}

#[test]
fn position_past_the_end_has_no_offset() {
    let text = "ab\ncd\n";
    assert_eq!(try_position_to_offset(text, Position::new(5, 0)), None);
    assert_eq!(try_position_to_offset(text, Position::new(1, 2)), Some(5));
}

#[test]
fn roundtrip_through_multibyte_text() {
    let text = "é😀\nx\n";
    for offset in [0u32, 2, 6, 7, 8] {
        let pos = offset_to_position(text, offset);
        assert_eq!(try_position_to_offset(text, pos), Some(offset));
    }
}

fn within(inner: &Range, outer: &Range) -> bool {
    let le = |a: &Position, b: &Position| a.line < b.line || (a.line == b.line && a.character <= b.character);
    le(&outer.start, &inner.start) && le(&inner.end, &outer.end)
}

#[test]
fn patch_selection_grows_from_token_to_whole_patch() {
    let text = "--- a/f.txt\n+++ b/f.txt\n@@ -1,2 +1,2 @@\n ctx\n-old\n+new\n";
    let patch = parse_patch(text);
    let chains = diff_lsp::selection_ranges::get_selection_ranges(&patch, text, &[Position::new(5, 2)]);
    assert_eq!(chains.len(), 1);
    let chain = &chains[0];
    assert!(chain.len() >= 3);
    for k in 0..chain.len() - 1 {
        assert!(within(&chain[k], &chain[k + 1]));
        assert_ne!(chain[k], chain[k + 1]);
    }
    let last = chain[chain.len() - 1];
    assert_eq!(last.start, Position::new(0, 0));
    assert_eq!(last.end, Position::new(6, 0));
}

#[test]
fn hunk_count_mismatch_is_reported() {
    let text = "--- a/f.txt\n+++ b/f.txt\n@@ -1,3 +1,3 @@\n ctx\n-old\n+new\n";
    let diags = get_diagnostics(text, &parse_patch(text));
    let counts: Vec<_> = diags.iter().filter(|d| d.code == "hunk-count-mismatch").collect();
    assert_eq!(counts.len(), 1);
    assert_eq!(counts[0].range.start, Position::new(2, 0));
}

#[test]
fn duplicate_file_path_is_reported() {
    let text = "--- a/f.txt\n+++ b/f.txt\n@@ -1 +1 @@\n-a\n+b\n--- a/f.txt\n+++ b/f.txt\n@@ -5 +5 @@\n-c\n+d\n";
    let diags = get_diagnostics(text, &parse_patch(text));
    let dups: Vec<_> = diags.iter().filter(|d| d.code == "duplicate-file").collect();
    assert_eq!(dups.len(), 1);
    assert_eq!(dups[0].message, "Duplicate file path: b/f.txt");
    assert_eq!(dups[0].range.start.line, 5);
    assert!(diags.iter().all(|d| d.code != "hunk-count-mismatch"));
}

#[test]
fn split_hunk_at_context_between_change_groups() {
    let text = "--- a/f.txt\n+++ b/f.txt\n@@ -1,3 +1,3 @@\n-a\n+b\n ctx\n-c\n+d\n";
    let actions = parse_and_actions(text, 3);
    let titles: Vec<&str> = actions.iter().map(|a| a.title.as_str()).collect();
    assert_eq!(titles, vec!["Remove hunk", "Reverse hunk", "Split hunk"]);
    let split = &actions[2];
    assert_eq!(split.edits[0].new_text, "@@ -1,1 +1,1 @@\n-a\n+b\n@@ -2,2 +2,2 @@\n ctx\n-c\n+d\n");
}

#[test]
fn no_split_for_a_single_change_group() {
    let text = "--- a/f.txt\n+++ b/f.txt\n@@ -1,2 +1,2 @@\n ctx\n-a\n+b\n";
    let actions = parse_and_actions(text, 3);
    assert!(actions.iter().all(|a| a.title != "Split hunk"));
}

#[test]
fn content_changes_replace_ranges_or_the_whole_text() {
    use_apply();
}

fn use_apply() {
    let apply = diff_lsp::content_changes::apply_change;
    let text = "ab\ncd\n";
    assert_eq!(apply(text, Some(Range::new(Position::new(1, 0), Position::new(1, 1))), "X"), "ab\nXd\n");
    assert_eq!(apply(text, Some(Range::new(Position::new(0, 1), Position::new(1, 1))), ""), "ad\n");
    assert_eq!(apply(text, None, "new"), "new");
    assert_eq!(apply(text, Some(Range::new(Position::new(5, 0), Position::new(5, 0))), "X"), text);
    assert_eq!(apply("é😀x", Some(Range::new(Position::new(0, 3), Position::new(0, 4))), "y"), "é😀y");
}

#[test]
fn fix_counts_inserts_a_missing_count() {
    let text = "--- a/f.txt\n+++ b/f.txt\n@@ -1 +1,5 @@ fn x\n-a\n+b\n";
    let actions = parse_and_actions(text, 3);
    let fix = actions.iter().find(|a| a.title == "Fix hunk line counts").unwrap();
    assert_eq!(fix.edits[0].new_text, "@@ -1,1 +1,1 @@ fn x\n");
}

#[test]
fn semantic_tokens_run_to_the_end_of_each_line() {
    let text = "--- a/f.txt\n+++ b/f.txt\n@@ -1 +1 @@\n-old\n+new line\n";
    let patch = parse_patch(text);
    let tokens = diff_lsp::semantic::generate_semantic_tokens(&patch, text);
    let lengths: Vec<u32> = tokens.iter().map(|t| t.length).collect();
    assert_eq!(lengths, vec![11, 11, 11, 4, 9]);
    let types: Vec<u32> = tokens.iter().map(|t| t.token_type).collect();
    assert_eq!(types, vec![0, 0, 1, 3, 2]);
    let mut places = Vec::new();
    let (mut line, mut col) = (0u32, 0u32);
    for t in &tokens {
        if t.delta_line == 0 {
            col += t.delta_start;
        } else {
            line += t.delta_line;
            col = t.delta_start;
        }
        places.push((line, col));
    }
    assert_eq!(places, vec![(0, 0), (1, 0), (2, 0), (3, 0), (4, 0)]);
    assert!(places.windows(2).all(|w| w[0] < w[1]));
}

#[test]
fn positions_past_a_line_or_the_text_have_no_offset() {
    let text = "ab\ncd";
    assert_eq!(try_position_to_offset(text, Position::new(1, 2)), Some(5));
    assert_eq!(try_position_to_offset(text, Position::new(1, 3)), None);
    assert_eq!(try_position_to_offset(text, Position::new(0, 3)), None);
    assert_eq!(try_position_to_offset(text, Position::new(2, 0)), None);
}
