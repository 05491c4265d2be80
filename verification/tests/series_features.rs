use diff_lsp::lsp::{ActionKind, CodeAction, DocumentHighlight, HighlightKind, Severity, SymbolKind};
use diff_lsp::patch_quilt_actions::get_patch_quilt_actions;
use diff_lsp::patch_quilt_diagnostics::get_patch_quilt_diagnostics;
use diff_lsp::patch_quilt_lenses::get_patch_quilt_lenses;
use diff_lsp::position::{Position, Range};
use diff_lsp::quilt::{patch_applied_file, sibling_series_file};
use diff_lsp::series::parse_series;
use diff_lsp::series_code_actions::{CMD_QUILT_IMPORT, CMD_QUILT_REFRESH};
use diff_lsp::series_folding::generate_series_folding_ranges;
use diff_lsp::series_highlights::get_series_highlights;
use diff_lsp::series_hover::{build_hover_text, compute_stats, extract_description, get_series_hover, hovered_patch};
use diff_lsp::series_inlay_hints::get_series_inlay_hints;
use diff_lsp::series_links::get_document_links;
use diff_lsp::series_rename::{prepare_rename, rename};
use diff_lsp::series_reorder::get_reorder_actions;
use diff_lsp::series_selection_ranges::get_series_selection_ranges;
use diff_lsp::series_semantic::{generate_series_semantic_tokens, TOKEN_COMMENT, TOKEN_OPTION, TOKEN_PATCH_NAME};
use diff_lsp::series_symbols::generate_series_symbols;

const SERIES_URI: &str = "file:///project/debian/patches/series";

#[test]
fn test_comment_section() {
    let text = "# Upstream fixes\na.patch\nb.patch\n";
    let ranges = generate_series_folding_ranges(&parse_series(text), text);
    assert_eq!(ranges.len(), 1);
    assert_eq!(ranges[0].start_line, 0);
    assert_eq!(ranges[0].end_line, 2);
    assert_eq!(ranges[0].collapsed_text, Some("# Upstream fixes".to_string()));
}

#[test]
fn test_two_sections() {
    let text = "# Section 1\na.patch\n# Section 2\nb.patch\nc.patch\n";
    let ranges = generate_series_folding_ranges(&parse_series(text), text);
    assert_eq!(ranges.len(), 2);
    assert_eq!((ranges[0].start_line, ranges[0].end_line), (0, 1));
    assert_eq!((ranges[1].start_line, ranges[1].end_line), (2, 4));
}

#[test]
fn test_no_comments() {
    let text = "a.patch\nb.patch\n";
    assert!(generate_series_folding_ranges(&parse_series(text), text).is_empty());
}

#[test]
fn test_comment_only_no_entries() {
    let text = "# Just a comment\n";
    assert!(generate_series_folding_ranges(&parse_series(text), text).is_empty());
}

#[test]
fn series_folding_test_empty_series() {
    assert!(generate_series_folding_ranges(&parse_series(""), "").is_empty());
}

#[test]
fn test_single_entry_after_comment() {
    let text = "# Section\na.patch\n";
    let ranges = generate_series_folding_ranges(&parse_series(text), text);
    assert_eq!(ranges.len(), 1);
    assert_eq!((ranges[0].start_line, ranges[0].end_line), (0, 1));
}

#[test]
fn test_entries_before_first_comment() {
    let text = "a.patch\n# Section\nb.patch\nc.patch\n";
    let ranges = generate_series_folding_ranges(&parse_series(text), text);
    assert_eq!(ranges.len(), 1);
    assert_eq!((ranges[0].start_line, ranges[0].end_line), (1, 3));
}

#[test]
fn test_fold_kind_is_region() {
    let text = "# Section\na.patch\nb.patch\n";
    let ranges = generate_series_folding_ranges(&parse_series(text), text);
    assert_eq!(ranges[0].start_character, None);
    assert_eq!(ranges[0].end_character, None);
}

fn highlights(text: &str, line: u32, col: u32) -> Vec<DocumentHighlight> {
    get_series_highlights(&parse_series(text), text, Position::new(line, col))
}

#[test]
fn test_highlight_single_entry() {
    let h = highlights("a.patch\nb.patch\n", 0, 2);
    assert_eq!(h.len(), 1);
    assert_eq!(h[0].range.start.line, 0);
    assert_eq!(h[0].kind, HighlightKind::Read);
}

#[test]
fn test_highlight_duplicate_entries() {
    let h = highlights("a.patch\nb.patch\na.patch\n", 0, 2);
    assert_eq!(h.len(), 2);
    assert_eq!(h[0].range.start.line, 0);
    assert_eq!(h[1].range.start.line, 2);
}

#[test]
fn test_highlight_from_second_duplicate() {
    let h = highlights("a.patch\nb.patch\na.patch\n", 2, 2);
    assert_eq!(h.len(), 2);
    assert_eq!(h[0].range.start.line, 0);
    assert_eq!(h[1].range.start.line, 2);
}

#[test]
fn test_no_highlight_on_comment() {
    assert!(highlights("# comment\na.patch\n", 0, 2).is_empty());
}

#[test]
fn test_no_highlight_on_empty() {
    assert!(highlights("", 0, 0).is_empty());
}

#[test]
fn test_unique_entries_single_highlight() {
    let h = highlights("a.patch\nb.patch\nc.patch\n", 1, 2);
    assert_eq!(h.len(), 1);
    assert_eq!(h[0].range.start.line, 1);
}

#[test]
fn test_highlight_range_covers_name_only() {
    let h = highlights("a.patch -p1\n", 0, 2);
    assert_eq!(h.len(), 1);
    assert_eq!(h[0].range.start.character, 0);
    assert_eq!(h[0].range.end.character, 7);
}

#[test]
fn test_highlight_with_comments_between() {
    let h = highlights("a.patch\n# section\na.patch\n", 0, 2);
    assert_eq!(h.len(), 2);
    assert_eq!(h[0].range.start.line, 0);
    assert_eq!(h[1].range.start.line, 2);
}

#[test]
fn test_three_duplicates() {
    let h = highlights("a.patch\na.patch\na.patch\n", 1, 2);
    assert_eq!(h.len(), 3);
    assert_eq!(h[0].range.start.line, 0);
    assert_eq!(h[1].range.start.line, 1);
    assert_eq!(h[2].range.start.line, 2);
}

#[test]
fn test_patch_links() {
    let text = "0001-fix.patch\n# comment\n0002-feature.patch -p1\n";
    let links = get_document_links(&parse_series(text), text, SERIES_URI);
    assert_eq!(links.len(), 2);
    assert_eq!(links[0].target, "file:///project/debian/patches/0001-fix.patch");
    assert_eq!(links[0].tooltip, "0001-fix.patch");
    assert_eq!(links[1].target, "file:///project/debian/patches/0002-feature.patch");
}

#[test]
fn test_no_links_for_comments() {
    let text = "# just a comment\n";
    assert!(get_document_links(&parse_series(text), text, SERIES_URI).is_empty());
}

#[test]
fn series_links_test_empty_series() {
    assert!(get_document_links(&parse_series(""), "", SERIES_URI).is_empty());
}

#[test]
fn test_subdirectory_patch() {
    let text = "subdir/0001-fix.patch\n";
    let links = get_document_links(&parse_series(text), text, SERIES_URI);
    assert_eq!(links.len(), 1);
    assert_eq!(links[0].target, "file:///project/debian/patches/subdir/0001-fix.patch");
}

#[test]
fn test_prepare_rename_on_patch_name() {
    let text = "a.patch\nb.patch\n";
    let (range, placeholder) = prepare_rename(&parse_series(text), text, Position::new(0, 2)).unwrap();
    assert_eq!(placeholder, "a.patch");
    assert_eq!(range.start, Position::new(0, 0));
}

#[test]
fn test_prepare_rename_second_entry() {
    let text = "a.patch\nb.patch\n";
    let (range, placeholder) = prepare_rename(&parse_series(text), text, Position::new(1, 2)).unwrap();
    assert_eq!(placeholder, "b.patch");
    assert_eq!(range.start.line, 1);
}

#[test]
fn test_prepare_rename_on_comment() {
    let text = "# comment\na.patch\n";
    assert!(prepare_rename(&parse_series(text), text, Position::new(0, 2)).is_none());
}

#[test]
fn test_prepare_rename_empty() {
    assert!(prepare_rename(&parse_series(""), "", Position::new(0, 0)).is_none());
}

#[test]
fn test_rename_updates_text_and_file() {
    let text = "a.patch\nb.patch\n";
    let edit = rename(&parse_series(text), text, Position::new(0, 2), "renamed.patch", SERIES_URI).unwrap();
    assert_eq!(edit.edit.new_text, "renamed.patch");
    assert_eq!(edit.old_uri, "file:///project/debian/patches/a.patch");
    assert_eq!(edit.new_uri, "file:///project/debian/patches/renamed.patch");
}

#[test]
fn test_rename_same_name_returns_none() {
    let text = "a.patch\n";
    assert!(rename(&parse_series(text), text, Position::new(0, 2), "a.patch", SERIES_URI).is_none());
}

#[test]
fn test_rename_on_comment_returns_none() {
    let text = "# comment\na.patch\n";
    assert!(rename(&parse_series(text), text, Position::new(0, 2), "new.patch", SERIES_URI).is_none());
}

#[test]
fn test_rename_text_edit_range() {
    let text = "a.patch\nb.patch\n";
    let edit = rename(&parse_series(text), text, Position::new(1, 2), "c.patch", SERIES_URI).unwrap();
    assert_eq!(edit.edit.range.start, Position::new(1, 0));
    assert_eq!(edit.edit.range.end, Position::new(1, 7));
}

#[test]
fn rename_encodes_the_new_name() {
    let text = "a.patch\n";
    let edit = rename(&parse_series(text), text, Position::new(0, 0), "new name.patch", SERIES_URI).unwrap();
    assert_eq!(edit.new_uri, "file:///project/debian/patches/new%20name.patch");
}

fn reorder(text: &str, line: u32) -> Vec<CodeAction> {
    let range = Range::new(Position::new(line, 0), Position::new(line, 0));
    get_reorder_actions(&parse_series(text), text, range)
}

fn titles(actions: &[CodeAction]) -> Vec<&str> {
    actions.iter().map(|a| a.title.as_str()).collect()
}

#[test]
fn test_middle_entry_has_both_actions() {
    assert_eq!(titles(&reorder("a.patch\nb.patch\nc.patch\n", 1)), vec!["Move patch up", "Move patch down"]);
}

#[test]
fn test_first_entry_only_down() {
    assert_eq!(titles(&reorder("a.patch\nb.patch\n", 0)), vec!["Move patch down"]);
}

#[test]
fn test_last_entry_only_up() {
    assert_eq!(titles(&reorder("a.patch\nb.patch\n", 1)), vec!["Move patch up"]);
}

#[test]
fn test_single_entry_no_actions() {
    assert!(reorder("a.patch\n", 0).is_empty());
}

#[test]
fn test_comment_line_no_actions() {
    assert!(reorder("a.patch\n# comment\nb.patch\n", 1).is_empty());
}

#[test]
fn test_outside_file_no_actions() {
    assert!(reorder("a.patch\n", 5).is_empty());
}

#[test]
fn test_move_down_edits() {
    let actions = reorder("a.patch\nb.patch\n", 0);
    assert_eq!(actions.len(), 1);
    assert_eq!(actions[0].title, "Move patch down");
    assert_eq!(actions[0].edits.len(), 2);
    assert_eq!(actions[0].edits[0].new_text, "b.patch\n");
    assert_eq!(actions[0].edits[1].new_text, "a.patch\n");
}

#[test]
fn test_move_up_edits() {
    let actions = reorder("a.patch\nb.patch\n", 1);
    assert_eq!(actions.len(), 1);
    assert_eq!(actions[0].title, "Move patch up");
    assert_eq!(actions[0].edits.len(), 2);
    assert_eq!(actions[0].edits[0].new_text, "b.patch\n");
    assert_eq!(actions[0].edits[1].new_text, "a.patch\n");
}

#[test]
fn test_move_across_comment() {
    assert_eq!(titles(&reorder("a.patch\n# comment\nb.patch\n", 0)), vec!["Move patch down"]);
}

#[test]
fn test_action_kind_is_refactor() {
    assert_eq!(reorder("a.patch\nb.patch\n", 0)[0].kind, ActionKind::Refactor);
}

#[test]
fn series_reorder_test_empty_series() {
    assert!(reorder("", 0).is_empty());
}

#[test]
fn moving_up_equals_moving_the_previous_down() {
    let text = "a.patch\nb.patch\nc.patch\n";
    let up = &reorder(text, 2)[0];
    let down = reorder(text, 1).pop().unwrap();
    assert_eq!(up.title, "Move patch up");
    assert_eq!(down.title, "Move patch down");
    for k in 0..2 {
        assert_eq!(up.edits[k].range, down.edits[k].range);
        assert_eq!(up.edits[k].new_text, down.edits[k].new_text);
    }
}

fn select(text: &str, line: u32, col: u32) -> Vec<Vec<Range>> {
    get_series_selection_ranges(&parse_series(text), text, &[Position::new(line, col)])
}

#[test]
fn test_selection_on_patch_name() {
    let selections = select("a.patch\nb.patch\n", 0, 2);
    assert_eq!(selections.len(), 1);
    let ranges = &selections[0];
    assert!(ranges.len() >= 3);
    assert_eq!(ranges[0].start, Position::new(0, 0));
    assert_eq!(ranges.last().unwrap().start, Position::new(0, 0));
}

#[test]
fn test_selection_on_comment() {
    let selections = select("# comment\na.patch\n", 0, 2);
    assert_eq!(selections.len(), 1);
    assert!(selections[0].len() >= 2);
}

#[test]
fn test_selection_on_option() {
    let selections = select("a.patch -p1\n", 0, 9);
    assert_eq!(selections.len(), 1);
    assert!(selections[0].len() >= 3);
}

#[test]
fn test_multiple_positions() {
    let text = "a.patch\nb.patch\n";
    let selections = get_series_selection_ranges(&parse_series(text), text, &[Position::new(0, 2), Position::new(1, 2)]);
    assert_eq!(selections.len(), 2);
}

#[test]
fn series_selection_ranges_test_empty_series() {
    assert!(select("", 0, 0).is_empty());
}

#[test]
fn test_outermost_is_root() {
    let selections = select("a.patch\nb.patch\n", 0, 2);
    let last = selections[0].last().unwrap();
    assert_eq!(last.start, Position::new(0, 0));
    assert_eq!(last.end, Position::new(2, 0));
}

#[test]
fn test_patch_name_token() {
    let tokens = generate_series_semantic_tokens(&parse_series("a.patch\n"), "a.patch\n");
    assert_eq!(tokens.len(), 1);
    assert_eq!(tokens[0].token_type, TOKEN_PATCH_NAME);
    assert_eq!(tokens[0].delta_line, 0);
    assert_eq!(tokens[0].delta_start, 0);
    assert_eq!(tokens[0].length, 7);
}

#[test]
fn test_option_token() {
    let text = "a.patch -p1\n";
    let tokens = generate_series_semantic_tokens(&parse_series(text), text);
    assert_eq!(tokens.len(), 2);
    assert_eq!(tokens[0].token_type, TOKEN_PATCH_NAME);
    assert_eq!(tokens[1].token_type, TOKEN_OPTION);
    assert_eq!(tokens[1].length, 3);
}

#[test]
fn test_comment_tokens() {
    let text = "# this is a comment\n";
    let tokens = generate_series_semantic_tokens(&parse_series(text), text);
    assert_eq!(tokens.len(), 2);
    assert_eq!(tokens[0].token_type, TOKEN_COMMENT);
    assert_eq!(tokens[0].length, 1);
    assert_eq!(tokens[1].token_type, TOKEN_COMMENT);
}

#[test]
fn test_multiple_lines() {
    let text = "a.patch\nb.patch\n";
    let tokens = generate_series_semantic_tokens(&parse_series(text), text);
    assert_eq!(tokens.len(), 2);
    assert_eq!(tokens[0].delta_line, 0);
    assert_eq!(tokens[1].delta_line, 1);
    assert_eq!(tokens[1].delta_start, 0);
}

#[test]
fn series_semantic_test_empty_series() {
    assert!(generate_series_semantic_tokens(&parse_series(""), "").is_empty());
}

#[test]
fn test_mixed_content() {
    let text = "a.patch\n# comment\nb.patch -p1\n";
    let tokens = generate_series_semantic_tokens(&parse_series(text), text);
    let types: Vec<u32> = tokens.iter().map(|t| t.token_type).collect();
    assert_eq!(types, vec![TOKEN_PATCH_NAME, TOKEN_COMMENT, TOKEN_COMMENT, TOKEN_PATCH_NAME, TOKEN_OPTION]);
}

#[test]
fn test_delta_encoding() {
    let text = "a.patch -p1\nb.patch\n";
    let tokens = generate_series_semantic_tokens(&parse_series(text), text);
    assert_eq!(tokens.len(), 3);
    assert_eq!((tokens[0].delta_line, tokens[0].delta_start), (0, 0));
    assert_eq!((tokens[1].delta_line, tokens[1].delta_start), (0, 8));
    assert_eq!((tokens[2].delta_line, tokens[2].delta_start), (1, 0));
}

#[test]
fn semantic_length_counts_bytes() {
    let text = "ä.patch\n";
    let tokens = generate_series_semantic_tokens(&parse_series(text), text);
    assert_eq!(tokens[0].length, 8);
}

#[test]
fn test_basic_symbols() {
    let text = "a.patch\nb.patch\n";
    let symbols = generate_series_symbols(&parse_series(text), text);
    assert_eq!(symbols.len(), 2);
    assert_eq!(symbols[0].name, "a.patch");
    assert_eq!(symbols[1].name, "b.patch");
}

#[test]
fn test_symbol_kind_is_file() {
    let symbols = generate_series_symbols(&parse_series("a.patch\n"), "a.patch\n");
    assert_eq!(symbols[0].kind, SymbolKind::File);
}

#[test]
fn test_comments_excluded() {
    let text = "a.patch\n# comment\nb.patch\n";
    let symbols = generate_series_symbols(&parse_series(text), text);
    let names: Vec<&str> = symbols.iter().map(|s| s.name.as_str()).collect();
    assert_eq!(names, vec!["a.patch", "b.patch"]);
}

#[test]
fn series_symbols_test_empty_series() {
    assert!(generate_series_symbols(&parse_series(""), "").is_empty());
}

#[test]
fn test_comments_only() {
    let text = "# comment 1\n# comment 2\n";
    assert!(generate_series_symbols(&parse_series(text), text).is_empty());
}

#[test]
fn test_symbol_with_options() {
    let text = "a.patch -p1\n";
    let symbols = generate_series_symbols(&parse_series(text), text);
    assert_eq!(symbols.len(), 1);
    assert_eq!(symbols[0].name, "a.patch");
    assert_eq!(symbols[0].detail, Some("-p1".to_string()));
}

#[test]
fn symbol_with_several_options() {
    let text = "a.patch -p1 -R\n";
    let symbols = generate_series_symbols(&parse_series(text), text);
    assert_eq!(symbols[0].detail, Some("-p1 -R".to_string()));
}

#[test]
fn test_symbol_without_options() {
    let symbols = generate_series_symbols(&parse_series("a.patch\n"), "a.patch\n");
    assert_eq!(symbols[0].detail, None);
}

#[test]
fn test_symbol_ranges() {
    let text = "a.patch\nb.patch\n";
    let symbols = generate_series_symbols(&parse_series(text), text);
    assert_eq!(symbols[0].range.start.line, 0);
    assert_eq!(symbols[1].range.start.line, 1);
}

#[test]
fn test_no_children() {
    let symbols = generate_series_symbols(&parse_series("a.patch\n"), "a.patch\n");
    assert!(symbols[0].children.is_empty());
}

#[test]
fn test_extract_description_with_preamble() {
    let content = "Subject: Fix the widget\n\nThis patch fixes a bug in the widget module.\n\n--- a/widget.rs\n+++ b/widget.rs\n@@ -1 +1 @@\n-old\n+new\n";
    assert_eq!(
        extract_description(content),
        Some("Subject: Fix the widget\n\nThis patch fixes a bug in the widget module.".to_string())
    );
}

#[test]
fn test_extract_description_no_preamble() {
    assert_eq!(extract_description("--- a/file.txt\n+++ b/file.txt\n@@ -1 +1 @@\n-old\n+new\n"), None);
}

#[test]
fn test_extract_description_diff_git() {
    let content = "Description: something\ndiff --git a/file b/file\n--- a/file\n+++ b/file\n";
    assert_eq!(extract_description(content), Some("Description: something".to_string()));
}

#[test]
fn test_extract_description_truncated() {
    let mut content = String::new();
    for i in 0..15 {
        content.push_str(&format!("line {}\n", i));
    }
    content.push_str("--- a/file\n+++ b/file\n");
    assert_eq!(
        extract_description(&content),
        Some("line 0\nline 1\nline 2\nline 3\nline 4\nline 5\nline 6\nline 7\nline 8\nline 9\n...".to_string())
    );
}

#[test]
fn test_extract_description_strips_trailing_blanks() {
    assert_eq!(extract_description("Subject: Fix\n\n\n--- a/file\n"), Some("Subject: Fix".to_string()));
}

#[test]
fn test_compute_stats_basic() {
    assert_eq!(compute_stats("--- a/file.txt\n+++ b/file.txt\n@@ -1,3 +1,3 @@\n ctx\n-old\n+new\n"), (1, 1, 1));
}

#[test]
fn test_compute_stats_multiple_files() {
    let content = "--- a/a.txt\n+++ b/a.txt\n@@ -1 +1,2 @@\n ctx\n+added\n--- a/b.txt\n+++ b/b.txt\n@@ -1,2 +1 @@\n ctx\n-removed\n";
    assert_eq!(compute_stats(content), (1, 1, 2));
}

#[test]
fn test_compute_stats_empty() {
    assert_eq!(compute_stats(""), (0, 0, 0));
}

#[test]
fn test_build_hover_text_full() {
    let content = "Subject: Fix bug\n\n--- a/file.txt\n+++ b/file.txt\n@@ -1,2 +1,2 @@\n ctx\n-old\n+new\n";
    assert_eq!(build_hover_text("fix-bug.patch", content), "**fix-bug.patch**\nSubject: Fix bug\n---\n1 file, +1 −1");
}

#[test]
fn test_build_hover_text_no_description() {
    let content = "--- a/file.txt\n+++ b/file.txt\n@@ -1 +1 @@\n-old\n+new\n";
    assert_eq!(build_hover_text("patch.patch", content), "**patch.patch**\n---\n1 file, +1 −1");
}

#[test]
fn test_build_hover_text_multiple_files() {
    let content = "--- a/a.txt\n+++ b/a.txt\n@@ -1 +1 @@\n-a\n+b\n--- a/c.txt\n+++ b/c.txt\n@@ -1 +1 @@\n-c\n+d\n";
    assert_eq!(build_hover_text("multi.patch", content), "**multi.patch**\n---\n2 files, +2 −2");
}

#[test]
fn test_build_hover_text_no_diff_content() {
    assert_eq!(build_hover_text("empty.patch", "Just some text\nno diff here\n"), "**empty.patch**\nJust some text\nno diff here");
}

#[test]
fn test_hover_on_patch_entry() {
    let text = "fix.patch\n";
    let content = "Subject: Fix things\n\n--- a/file.txt\n+++ b/file.txt\n@@ -1,2 +1,2 @@\n ctx\n-old\n+new\n";
    let series = parse_series(text);
    let (_, name) = hovered_patch(&series, text, Position::new(0, 2)).unwrap();
    assert_eq!(name, "fix.patch");
    let hover = get_series_hover(&series, text, Position::new(0, 2), SERIES_URI, Some(content)).unwrap();
    assert_eq!(hover.contents, "**fix.patch**\nSubject: Fix things\n---\n1 file, +1 −1");
    assert_eq!(hover.range.unwrap().start.line, 0);
}

#[test]
fn test_hover_on_comment_returns_none() {
    let text = "# comment\nfix.patch\n";
    let series = parse_series(text);
    assert!(hovered_patch(&series, text, Position::new(0, 2)).is_none());
    assert!(get_series_hover(&series, text, Position::new(0, 2), SERIES_URI, Some("x")).is_none());
}

#[test]
fn test_hover_on_missing_patch_returns_none() {
    let text = "missing.patch\n";
    assert!(get_series_hover(&parse_series(text), text, Position::new(0, 2), SERIES_URI, None).is_none());
}

#[test]
fn test_hover_second_entry() {
    let text = "a.patch\nb.patch\n";
    let series = parse_series(text);
    let (_, name) = hovered_patch(&series, text, Position::new(1, 7)).unwrap();
    assert_eq!(name, "b.patch");
}

fn full_range() -> Range {
    Range::new(Position::new(0, 0), Position::new(10000, 0))
}

#[test]
fn test_hints_with_stats() {
    let text = "a.patch\n";
    let contents = vec![Some("--- a/file.txt\n+++ b/file.txt\n@@ -1,2 +1,3 @@\n ctx\n-old\n+new1\n+new2\n".to_string())];
    let hints = get_series_inlay_hints(&parse_series(text), text, full_range(), SERIES_URI, &contents);
    assert_eq!(hints.len(), 1);
    assert_eq!(hints[0].label, " 1 file, +2 −1");
}

#[test]
fn test_hints_multiple_files_in_patch() {
    let text = "multi.patch\n";
    let contents = vec![Some("--- a/a.txt\n+++ b/a.txt\n@@ -1 +1 @@\n-a\n+b\n--- a/c.txt\n+++ b/c.txt\n@@ -1 +1,2 @@\n-c\n+d\n+e\n".to_string())];
    let hints = get_series_inlay_hints(&parse_series(text), text, full_range(), SERIES_URI, &contents);
    assert_eq!(hints.len(), 1);
    assert_eq!(hints[0].label, " 2 files, +3 −2");
}

#[test]
fn test_no_hint_for_missing_patch() {
    let text = "missing.patch\n";
    let hints = get_series_inlay_hints(&parse_series(text), text, full_range(), SERIES_URI, &vec![None]);
    assert!(hints.is_empty());
}

#[test]
fn test_no_hint_for_empty_patch() {
    let text = "empty.patch\n";
    let hints = get_series_inlay_hints(&parse_series(text), text, full_range(), SERIES_URI, &vec![Some(String::new())]);
    assert!(hints.is_empty());
}

#[test]
fn test_hint_position_at_end_of_entry() {
    let text = "a.patch\n";
    let contents = vec![Some("--- a/f\n+++ b/f\n@@ -1 +1 @@\n-x\n+y\n".to_string())];
    let hints = get_series_inlay_hints(&parse_series(text), text, full_range(), SERIES_URI, &contents);
    assert_eq!(hints[0].position, Position::new(1, 0));
}

#[test]
fn test_range_filtering() {
    let text = "a.patch\nb.patch\n";
    let contents = vec![
        Some("--- a/f\n+++ b/f\n@@ -1 +1 @@\n-x\n+y\n".to_string()),
        Some("--- a/g\n+++ b/g\n@@ -1 +1,2 @@\n-a\n+b\n+c\n".to_string()),
    ];
    let range = Range::new(Position::new(1, 0), Position::new(1, 3));
    let hints = get_series_inlay_hints(&parse_series(text), text, range, SERIES_URI, &contents);
    assert_eq!(hints.len(), 1);
    assert_eq!(hints[0].label, " 1 file, +2 −1");
}

const PATCH_URI: &str = "file:///proj/debian/patches/b.patch";

#[test]
fn test_no_refresh_no_applied_patches() {
    assert!(get_patch_quilt_actions("file:///proj/debian/patches/a.patch", None, None).is_empty());
}

#[test]
fn test_refresh_action_for_top_patch() {
    let actions = get_patch_quilt_actions(PATCH_URI, Some("a.patch\nb.patch\n"), None);
    assert_eq!(actions.len(), 1);
    assert_eq!(actions[0].title, "Refresh patch (quilt refresh)");
    let cmd = actions[0].command.as_ref().unwrap();
    assert_eq!(cmd.command, CMD_QUILT_REFRESH);
    assert_eq!(cmd.arguments, vec![PATCH_URI.to_string()]);
    assert_eq!(actions[0].kind, ActionKind::Source);
}

#[test]
fn test_no_refresh_for_non_top_patch() {
    assert!(get_patch_quilt_actions("file:///proj/debian/patches/a.patch", Some("a.patch\nb.patch\n"), None).is_empty());
}

#[test]
fn test_import_action_for_unlisted_patch() {
    let actions = get_patch_quilt_actions(PATCH_URI, None, Some("a.patch\n"));
    assert_eq!(actions.len(), 1);
    assert_eq!(actions[0].title, "Import patch (quilt import)");
    assert_eq!(actions[0].command.as_ref().unwrap().command, CMD_QUILT_IMPORT);
}

#[test]
fn test_both_refresh_and_import_not_possible() {
    let actions = get_patch_quilt_actions("file:///proj/debian/patches/a.patch", Some("a.patch\n"), Some("a.patch\n"));
    assert_eq!(titles(&actions), vec!["Refresh patch (quilt refresh)"]);
}

#[test]
fn test_import_with_options_in_series() {
    assert!(get_patch_quilt_actions("file:///proj/debian/patches/a.patch", None, Some("a.patch -p1\n")).is_empty());
}

#[test]
fn quilt_paths_of_a_patch() {
    assert_eq!(sibling_series_file(PATCH_URI), Some("/proj/debian/patches/series".to_string()));
    assert_eq!(patch_applied_file(PATCH_URI), Some("/proj/debian/.pc/applied-patches".to_string()));
}

#[test]
fn patch_quilt_diagnostics_test_no_series_file() {
    assert!(get_patch_quilt_diagnostics("file:///p/patches/a.patch", None).is_empty());
}

#[test]
fn patch_quilt_diagnostics_test_patch_not_in_series() {
    let diags = get_patch_quilt_diagnostics("file:///p/patches/b.patch", Some("a.patch\n"));
    assert_eq!(diags.len(), 1);
    assert_eq!(diags[0].code, "not-in-series");
    assert_eq!(diags[0].message, "patch 'b.patch' is not listed in the series file");
    assert_eq!(diags[0].severity, Severity::Hint);
    assert_eq!(diags[0].range, Range::new(Position::new(0, 0), Position::new(0, 0)));
}

#[test]
fn test_patch_in_series_with_options() {
    assert!(get_patch_quilt_diagnostics("file:///p/patches/a.patch", Some("a.patch -p1\n")).is_empty());
}

#[test]
fn test_series_with_comments_only() {
    assert_eq!(get_patch_quilt_diagnostics("file:///p/patches/a.patch", Some("# comment\n")).len(), 1);
}

#[test]
fn test_patch_applied_top() {
    let lenses = get_patch_quilt_lenses(PATCH_URI, Some("a.patch\nb.patch\n"), Some("a.patch\nb.patch\n"));
    assert_eq!(lenses.len(), 1);
    assert_eq!(lenses[0].title, "quilt: applied (top, 2/2)");
    assert_eq!(lenses[0].range, Range::new(Position::new(0, 0), Position::new(0, 0)));
}

#[test]
fn test_patch_applied_not_top() {
    let lenses = get_patch_quilt_lenses("file:///proj/debian/patches/a.patch", Some("a.patch\nb.patch\n"), Some("a.patch\nb.patch\n"));
    assert_eq!(lenses[0].title, "quilt: applied (1/2)");
}

#[test]
fn test_patch_unapplied() {
    let lenses = get_patch_quilt_lenses(PATCH_URI, Some("a.patch\nb.patch\n"), Some("a.patch\n"));
    assert_eq!(lenses[0].title, "quilt: unapplied (2/2)");
}

#[test]
fn patch_quilt_lenses_test_patch_not_in_series() {
    assert!(get_patch_quilt_lenses(PATCH_URI, Some("a.patch\n"), Some("a.patch\n")).is_empty());
}

#[test]
fn test_no_applied_patches_file() {
    let lenses = get_patch_quilt_lenses(PATCH_URI, Some("a.patch\nb.patch\n"), None);
    assert_eq!(lenses[0].title, "quilt: unapplied (2/2)");
}

#[test]
fn test_series_with_comments() {
    let lenses = get_patch_quilt_lenses(PATCH_URI, Some("# c\na.patch\n\nb.patch -p1\n"), None);
    assert_eq!(lenses[0].title, "quilt: unapplied (2/2)");
}

#[test]
fn test_no_refresh_for_unapplied_patch() {
    assert!(get_patch_quilt_actions(PATCH_URI, Some("a.patch\n"), None).is_empty());
}

#[test]
fn test_refresh_command_arguments() {
    let uri = "file:///proj/debian/patches/a.patch";
    let actions = get_patch_quilt_actions(uri, Some("a.patch\n"), None);
    let cmd = actions[0].command.as_ref().unwrap();
    assert_eq!(cmd.arguments, vec![uri.to_string()]);
    assert_eq!(cmd.title, "Refresh patch");
}

#[test]
fn test_refresh_action_kind() {
    let actions = get_patch_quilt_actions("file:///proj/debian/patches/a.patch", Some("a.patch\n"), None);
    assert_eq!(actions[0].kind, ActionKind::Source);
}

#[test]
fn test_no_import_for_listed_patch() {
    assert!(get_patch_quilt_actions("file:///proj/debian/patches/a.patch", None, Some("a.patch\n")).is_empty());
}

#[test]
fn test_no_import_without_series_file() {
    assert!(get_patch_quilt_actions("file:///proj/patches/a.patch", None, None).is_empty());
}

#[test]
fn test_import_command_arguments() {
    let actions = get_patch_quilt_actions(PATCH_URI, None, Some("a.patch\n"));
    let cmd = actions[0].command.as_ref().unwrap();
    assert_eq!(cmd.arguments, vec![PATCH_URI.to_string()]);
    assert_eq!(cmd.title, "Import patch");
}

#[test]
fn test_import_action_kind() {
    let actions = get_patch_quilt_actions(PATCH_URI, None, Some("a.patch\n"));
    assert_eq!(actions[0].kind, ActionKind::Source);
}

#[test]
fn test_patch_in_series() {
    assert!(get_patch_quilt_diagnostics("file:///p/patches/a.patch", Some("a.patch\nb.patch\n")).is_empty());
}

#[test]
fn patch_quilt_diagnostics_test_empty_series() {
    let diags = get_patch_quilt_diagnostics("file:///p/patches/a.patch", Some(""));
    assert_eq!(diags.len(), 1);
    assert_eq!(diags[0].message, "patch 'a.patch' is not listed in the series file");
}

#[test]
fn test_diagnostic_range_is_start() {
    let diags = get_patch_quilt_diagnostics("file:///p/patches/a.patch", Some(""));
    assert_eq!(diags[0].range.start, Position::new(0, 0));
    assert_eq!(diags[0].range.end, Position::new(0, 0));
}

#[test]
fn patch_quilt_lenses_test_no_series_file() {
    assert!(get_patch_quilt_lenses(PATCH_URI, None, Some("b.patch\n")).is_empty());
}

#[test]
fn test_lens_range_is_start_of_file() {
    let lenses = get_patch_quilt_lenses(PATCH_URI, Some("b.patch\n"), None);
    assert_eq!(lenses[0].range.start, Position::new(0, 0));
    assert_eq!(lenses[0].range.end, Position::new(0, 0));
}

#[test]
fn test_series_with_options() {
    let lenses = get_patch_quilt_lenses(PATCH_URI, Some("b.patch -p1\n"), Some("b.patch\n"));
    assert_eq!(lenses[0].title, "quilt: applied (top, 1/1)");
}

#[test]
fn test_hints_multiple_entries() {
    let text = "a.patch\nb.patch\n";
    let contents = vec![
        Some("--- a/f\n+++ b/f\n@@ -1 +1 @@\n-x\n+y\n".to_string()),
        Some("--- a/g\n+++ b/g\n@@ -1 +1,2 @@\n-a\n+b\n+c\n".to_string()),
    ];
    let hints = get_series_inlay_hints(&parse_series(text), text, full_range(), SERIES_URI, &contents);
    let labels: Vec<&str> = hints.iter().map(|h| h.label.as_str()).collect();
    assert_eq!(labels, vec![" 1 file, +1 −1", " 1 file, +2 −1"]);
}

#[test]
fn hints_need_a_patches_directory() {
    let text = "a.patch\n";
    let contents = vec![Some("--- a/f\n+++ b/f\n@@ -1 +1 @@\n-x\n+y\n".to_string())];
    assert!(get_series_inlay_hints(&parse_series(text), text, full_range(), "file:", &contents).is_empty());
}

#[test]
fn comment_block_folds_on_its_own() {
    let text = "# a\n# b\nx.patch\n";
    let ranges = generate_series_folding_ranges(&parse_series(text), text);
    assert_eq!(ranges.len(), 2);
    assert_eq!((ranges[0].start_line, ranges[0].end_line), (0, 1));
    assert_eq!(ranges[0].collapsed_text, Some("# a".to_string()));
    assert_eq!((ranges[1].start_line, ranges[1].end_line), (1, 2));
}
