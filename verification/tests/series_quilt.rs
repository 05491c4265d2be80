use diff_lsp::quilt_invocation::{quilt_invocation, QuiltCommandError};
use diff_lsp::lsp::{ActionKind, Severity};
use diff_lsp::position::{Position, Range};
use diff_lsp::quilt::{applied_patches, find_quilt_working_dir, series_applied_file, series_lists, series_names_of, top_applied};
use diff_lsp::series::parse_series;
use diff_lsp::series_code_actions::{
    commands, get_series_code_actions, CMD_QUILT_DELETE, CMD_QUILT_POP, CMD_QUILT_POP_ALL, CMD_QUILT_PUSH,
    CMD_QUILT_PUSH_ALL, CMD_QUILT_REFRESH,
};
use diff_lsp::series_code_lenses::get_series_code_lenses;
use diff_lsp::series_completions::{get_series_completions, patches_dir_from_uri as completion_dir};
use diff_lsp::series_diagnostics::{
    check_duplicate_entries, check_missing_patches, check_unlisted_patches, get_series_diagnostics,
    patches_dir_from_uri, PatchesDir,
};

const SERIES_URI: &str = "file:///project/debian/patches/series";

fn strings(v: &[&str]) -> Vec<String> {
    v.iter().map(|s| s.to_string()).collect()
}

fn actions_titles(text: &str, line: u32, applied: Option<&str>) -> Vec<String> {
    let series = parse_series(text);
    let range = Range::new(Position::new(line, 0), Position::new(line, 0));
    get_series_code_actions(&series, text, range, SERIES_URI, applied).into_iter().map(|a| a.title).collect()
}

#[test]
fn test_read_applied_patches_none() {
    assert!(applied_patches("").is_empty());
    let titles = actions_titles("a.patch\n", 0, None);
    assert!(!titles.iter().any(|t| t.starts_with("Unapply")));
}

#[test]
fn test_read_applied_patches_some() {
    assert_eq!(applied_patches("a.patch\n\nb.patch\n"), strings(&["a.patch", "b.patch"]));
    assert_eq!(top_applied("a.patch\nb.patch\n\n"), Some("b.patch".to_string()));
    assert_eq!(top_applied("\n"), None);
}

#[test]
fn test_actions_on_unapplied_patch() {
    let titles = actions_titles("a.patch\n", 0, Some(""));
    assert_eq!(
        titles,
        strings(&[
            "Apply patch (quilt push a.patch)",
            "Remove 'a.patch' from series",
            "Delete patch (quilt delete a.patch)",
            "Apply all patches (quilt push -a)",
        ])
    );
}

#[test]
fn test_actions_on_applied_patch() {
    let titles = actions_titles("a.patch\nb.patch\n", 0, Some("a.patch\n"));
    assert_eq!(
        titles,
        strings(&[
            "Unapply patch (quilt pop a.patch)",
            "Remove 'a.patch' from series",
            "Apply all patches (quilt push -a)",
            "Unapply all patches (quilt pop -a)",
        ])
    );
}

#[test]
fn test_actions_not_on_entry() {
    assert!(actions_titles("a.patch\nb.patch\n", 5, Some("")).is_empty());
}

#[test]
fn test_actions_no_pc_dir() {
    let titles = actions_titles("a.patch\n", 0, None);
    assert_eq!(
        titles,
        strings(&[
            "Apply patch (quilt push a.patch)",
            "Remove 'a.patch' from series",
            "Delete patch (quilt delete a.patch)",
            "Apply all patches (quilt push -a)",
        ])
    );
}

#[test]
fn test_actions_all_applied_no_push_all() {
    let titles = actions_titles("a.patch\n", 0, Some("a.patch\n"));
    assert_eq!(
        titles,
        strings(&["Unapply patch (quilt pop a.patch)", "Remove 'a.patch' from series", "Unapply all patches (quilt pop -a)"])
    );
}

#[test]
fn test_action_command_arguments() {
    let text = "a.patch\n";
    let series = parse_series(text);
    let range = Range::new(Position::new(0, 0), Position::new(0, 0));
    let actions = get_series_code_actions(&series, text, range, SERIES_URI, Some(""));
    let cmd = actions[0].command.as_ref().unwrap();
    assert_eq!(cmd.command, CMD_QUILT_PUSH);
    assert_eq!(cmd.title, "Apply patch a.patch");
    assert_eq!(cmd.arguments, strings(&[SERIES_URI, "a.patch"]));
    assert_eq!(actions[0].kind, ActionKind::Source);
}

#[test]
fn test_push_all_command_arguments() {
    let text = "a.patch\n";
    let series = parse_series(text);
    let range = Range::new(Position::new(0, 0), Position::new(0, 0));
    let actions = get_series_code_actions(&series, text, range, SERIES_URI, Some(""));
    let push_all = actions.iter().find(|a| a.title.contains("push -a")).unwrap();
    let cmd = push_all.command.as_ref().unwrap();
    assert_eq!(cmd.command, CMD_QUILT_PUSH_ALL);
    assert_eq!(cmd.arguments, strings(&[SERIES_URI]));
}

#[test]
fn test_remove_from_series_edit() {
    let text = "a.patch\nb.patch\n";
    let series = parse_series(text);
    let range = Range::new(Position::new(1, 0), Position::new(1, 0));
    let actions = get_series_code_actions(&series, text, range, SERIES_URI, Some(""));
    let remove = actions.iter().find(|a| a.title == "Remove 'b.patch' from series").unwrap();
    assert_eq!(remove.kind, ActionKind::Refactor);
    assert!(remove.command.is_none());
    assert_eq!(remove.edits.len(), 1);
    assert_eq!(remove.edits[0].new_text, "");
    assert_eq!(remove.edits[0].range, Range::new(Position::new(1, 0), Position::new(2, 0)));
}

#[test]
fn test_delete_patch_only_for_unapplied() {
    let text = "a.patch\nb.patch\n";
    let series = parse_series(text);
    let all = Range::new(Position::new(0, 0), Position::new(1, 3));
    let actions = get_series_code_actions(&series, text, all, SERIES_URI, Some("a.patch\n"));
    let deletes: Vec<&str> = actions
        .iter()
        .filter(|a| a.command.as_ref().map(|c| c.command == CMD_QUILT_DELETE).unwrap_or(false))
        .map(|a| a.title.as_str())
        .collect();
    assert_eq!(deletes, vec!["Delete patch (quilt delete b.patch)"]);
    let pops: Vec<&str> = actions
        .iter()
        .filter(|a| a.command.as_ref().map(|c| c.command == CMD_QUILT_POP).unwrap_or(false))
        .map(|a| a.title.as_str())
        .collect();
    assert_eq!(pops, vec!["Unapply patch (quilt pop a.patch)"]);
    let last = actions.last().unwrap();
    assert_eq!(last.command.as_ref().unwrap().command, CMD_QUILT_POP_ALL);
}

#[test]
fn test_find_quilt_working_dir() {
    assert_eq!(find_quilt_working_dir("file:///project/debian/patches/series"), Some("/project/debian".to_string()));
}

#[test]
fn test_find_quilt_working_dir_simple() {
    assert_eq!(find_quilt_working_dir("file:///project/patches/series"), Some("/project".to_string()));
}

#[test]
fn quilt_files_of_a_series() {
    assert_eq!(series_applied_file(SERIES_URI), Some("/project/debian/.pc/applied-patches".to_string()));
    assert_eq!(find_quilt_working_dir("file:///series"), None);
}

#[test]
fn test_commands_list() {
    assert_eq!(
        commands(),
        strings(&[CMD_QUILT_PUSH, CMD_QUILT_POP, CMD_QUILT_PUSH_ALL, CMD_QUILT_POP_ALL, CMD_QUILT_DELETE, CMD_QUILT_REFRESH])
    );
}

fn lens_titles(text: &str, applied: Option<&str>) -> Vec<String> {
    let series = parse_series(text);
    get_series_code_lenses(&series, text, applied).into_iter().map(|l| l.title).collect()
}

#[test]
fn test_lenses_all_applied() {
    assert_eq!(lens_titles("a.patch\nb.patch\n", Some("a.patch\nb.patch\n")), strings(&["applied (1/2)", "applied (top, 2/2)"]));
}

#[test]
fn test_lenses_partially_applied() {
    assert_eq!(
        lens_titles("a.patch\nb.patch\nc.patch\n", Some("a.patch\n")),
        strings(&["applied (top, 1/3)", "unapplied (2/3)", "unapplied (3/3)"])
    );
}

#[test]
fn test_lenses_none_applied() {
    assert_eq!(lens_titles("a.patch\nb.patch\n", Some("")), strings(&["unapplied (1/2)", "unapplied (2/2)"]));
}

#[test]
fn test_lenses_no_pc_dir() {
    assert!(lens_titles("a.patch\nb.patch\n", None).is_empty());
}

#[test]
fn test_lenses_with_comments() {
    assert_eq!(lens_titles("a.patch\n# comment\nb.patch\n", Some("a.patch\n")), strings(&["applied (top, 1/2)", "unapplied (2/2)"]));
}

#[test]
fn test_lenses_empty_series() {
    assert!(lens_titles("", Some("")).is_empty());
}

#[test]
fn test_lenses_position_on_correct_line() {
    let text = "a.patch\nb.patch\n";
    let series = parse_series(text);
    let lenses = get_series_code_lenses(&series, text, Some(""));
    assert_eq!(lenses[0].range.start.line, 0);
    assert_eq!(lenses[1].range.start.line, 1);
}

fn completion_labels(text: &str, files: Option<Vec<String>>) -> Vec<String> {
    let series = parse_series(text);
    get_series_completions(&series, files.as_ref()).into_iter().map(|c| c.label).collect()
}

#[test]
fn test_completions_excludes_listed_patches() {
    assert_eq!(completion_labels("a.patch\n", Some(strings(&["c.diff", "a.patch", "b.patch"]))), strings(&["b.patch", "c.diff"]));
}

#[test]
fn test_completions_all_listed() {
    assert!(completion_labels("a.patch\n", Some(strings(&["a.patch"]))).is_empty());
}

#[test]
fn test_completions_empty_series() {
    assert_eq!(completion_labels("", Some(strings(&["b.patch", "a.patch"]))), strings(&["a.patch", "b.patch"]));
}

#[test]
fn test_completions_no_patch_files() {
    assert!(completion_labels("", Some(Vec::new())).is_empty());
}

#[test]
fn test_completions_skips_series_and_hidden() {
    assert_eq!(
        completion_labels("", Some(strings(&["series", "a.patch", "series.conf", ".hidden"]))),
        strings(&["a.patch"])
    );
}

#[test]
fn test_completions_sorted_alphabetically() {
    assert_eq!(completion_labels("", Some(strings(&["c.patch", "a.patch", "b.patch"]))), strings(&["a.patch", "b.patch", "c.patch"]));
}

#[test]
fn test_completions_nonexistent_dir() {
    assert!(completion_labels("", None).is_empty());
    assert_eq!(completion_dir("file:///nonexistent/patches/series"), Some("/nonexistent/patches".to_string()));
}

#[test]
fn completions_sort_by_code_point() {
    assert_eq!(
        completion_labels("", Some(strings(&["b.diff", "B.diff", "a10.diff", "a2.diff", "ä.diff", "a.diff"]))),
        strings(&["B.diff", "a.diff", "a10.diff", "a2.diff", "b.diff", "ä.diff"])
    );
}

#[test]
fn test_no_duplicates() {
    let text = "0001-fix.patch\n0002-feature.patch\n";
    assert!(check_duplicate_entries(text, &parse_series(text)).is_empty());
}

#[test]
fn test_duplicate_entry() {
    let text = "0001-fix.patch\n0002-feature.patch\n0001-fix.patch\n";
    let diags = check_duplicate_entries(text, &parse_series(text));
    assert_eq!(diags.len(), 1);
    assert_eq!(diags[0].code, "duplicate-series-entry");
    assert_eq!(diags[0].message, "patch '0001-fix.patch' already listed on line 1");
    assert_eq!(diags[0].range.start.line, 2);
}

#[test]
fn test_multiple_duplicates() {
    let text = "a.patch\nb.patch\na.patch\nb.patch\n";
    let diags = check_duplicate_entries(text, &parse_series(text));
    assert_eq!(diags.len(), 2);
    assert!(diags[0].message.contains("a.patch"));
    assert!(diags[1].message.contains("b.patch"));
    assert!(diags[1].message.contains("line 2"));
}

#[test]
fn test_duplicates_with_comments() {
    let text = "a.patch\n# comment\na.patch\n";
    let diags = check_duplicate_entries(text, &parse_series(text));
    assert_eq!(diags.len(), 1);
    assert!(diags[0].message.contains("a.patch"));
}

#[test]
fn test_empty_series_no_duplicates() {
    assert!(check_duplicate_entries("", &parse_series("")).is_empty());
}

#[test]
fn test_comments_only_no_duplicates() {
    let text = "# comment 1\n# comment 2\n";
    assert!(check_duplicate_entries(text, &parse_series(text)).is_empty());
}

#[test]
fn third_listing_points_at_the_first() {
    let text = "x.patch\ny.patch\nx.patch\nx.patch\n";
    let diags = check_duplicate_entries(text, &parse_series(text));
    assert_eq!(diags.len(), 2);
    assert_eq!(diags[1].message, "patch 'x.patch' already listed on line 1");
    assert_eq!(diags[1].range.start.line, 3);
}

#[test]
fn test_missing_patch_file() {
    let text = "0001-fix.patch\n0002-missing.patch\n";
    let diags = check_missing_patches(text, &parse_series(text), &vec![true, false]);
    assert_eq!(diags.len(), 1);
    assert_eq!(diags[0].code, "missing-patch-file");
    assert_eq!(diags[0].message, "patch file '0002-missing.patch' not found");
}

#[test]
fn test_all_patches_present() {
    let text = "a.patch\nb.patch\n";
    assert!(check_missing_patches(text, &parse_series(text), &vec![true, true]).is_empty());
}

#[test]
fn test_all_patches_missing() {
    let text = "a.patch\nb.patch\n";
    assert_eq!(check_missing_patches(text, &parse_series(text), &vec![false, false]).len(), 2);
}

#[test]
fn test_unlisted_patch_files() {
    let text = "a.patch\n";
    let diags = check_unlisted_patches(text, &parse_series(text), &strings(&["c.diff", "a.patch", "b.patch"]));
    assert_eq!(diags.len(), 2);
    assert_eq!(diags[0].code, "unlisted-patch-file");
    assert!(diags[0].message.contains("b.patch"));
    assert!(diags[1].message.contains("c.diff"));
    assert_eq!(diags[0].message, "patch file 'b.patch' exists but is not listed in series");
    assert_eq!(diags[0].range.start, Position::new(1, 0));
}

#[test]
fn test_no_unlisted_patches() {
    let text = "a.patch\nb.patch\n";
    assert!(check_unlisted_patches(text, &parse_series(text), &strings(&["a.patch", "b.patch"])).is_empty());
}

#[test]
fn test_unlisted_with_empty_series() {
    let diags = check_unlisted_patches("", &parse_series(""), &strings(&["orphan.patch"]));
    assert_eq!(diags.len(), 1);
    assert!(diags[0].message.contains("orphan.patch"));
}

#[test]
fn test_unlisted_severity_is_hint() {
    let diags = check_unlisted_patches("", &parse_series(""), &strings(&["orphan.patch"]));
    assert_eq!(diags[0].severity, Severity::Hint);
}

#[test]
fn test_list_patch_files_nonexistent_dir() {
    let text = "a.patch\n";
    let diags = get_series_diagnostics(text, &parse_series(text), None);
    assert!(diags.is_empty());
}

#[test]
fn test_list_patch_files_basic() {
    let diags = check_unlisted_patches("", &parse_series(""), &strings(&["a.patch", "b.diff", "series", ".hidden"]));
    let messages: Vec<&str> = diags.iter().map(|d| d.message.as_str()).collect();
    assert_eq!(
        messages,
        vec![
            "patch file 'a.patch' exists but is not listed in series",
            "patch file 'b.diff' exists but is not listed in series"
        ]
    );
}

#[test]
fn test_patches_dir_from_uri() {
    assert_eq!(patches_dir_from_uri("file:///project/debian/patches/series"), Some("/project/debian/patches".to_string()));
}

#[test]
fn test_patches_dir_from_uri_nested() {
    assert_eq!(patches_dir_from_uri("file:///a/b/c/series"), Some("/a/b/c".to_string()));
}

#[test]
fn test_full_diagnostics_with_tempdir() {
    let text = "a.patch\nmissing.patch\na.patch\n";
    let series = parse_series(text);
    let dir = PatchesDir { files: strings(&["a.patch", "orphan.patch", "series"]), present: vec![true, false, true] };
    let diags = get_series_diagnostics(text, &series, Some(&dir));
    let codes: Vec<&str> = diags.iter().map(|d| d.code.as_str()).collect();
    assert_eq!(codes, vec!["duplicate-series-entry", "missing-patch-file", "unlisted-patch-file"]);
}

#[test]
fn test_clean_series_no_diagnostics() {
    let text = "a.patch\nb.patch\n";
    let dir = PatchesDir { files: strings(&["a.patch", "b.patch", "series"]), present: vec![true, true] };
    assert!(get_series_diagnostics(text, &parse_series(text), Some(&dir)).is_empty());
}

#[test]
fn test_duplicate_severity_is_error() {
    let text = "a.patch\na.patch\n";
    let diags = check_duplicate_entries(text, &parse_series(text));
    assert_eq!(diags[0].severity, Severity::Error);
}

#[test]
fn test_missing_severity_is_warning() {
    let text = "missing.patch\n";
    let diags = check_missing_patches(text, &parse_series(text), &vec![false]);
    assert_eq!(diags[0].severity, Severity::Warning);
}

#[test]
fn series_text_listing() {
    let text = "# header\na.patch -p1\n\n  \nb.patch\n#c.patch\n";
    assert!(series_lists(text, "a.patch"));
    assert!(series_lists(text, "b.patch"));
    assert!(!series_lists(text, "c.patch"));
    assert!(!series_lists(text, "-p1"));
    assert_eq!(series_names_of(text), strings(&["a.patch", "  ", "b.patch"]));
}

#[test]
fn test_read_applied_patches() {
    assert_eq!(applied_patches("a.patch\nb.patch\n"), strings(&["a.patch", "b.patch"]));
}

#[test]
fn test_read_applied_patches_empty_file() {
    assert!(applied_patches("").is_empty());
    assert!(lens_titles("a.patch\n", Some("")).iter().all(|t| t.starts_with("unapplied")));
}

#[test]
fn test_list_patch_files_skips_series_conf() {
    assert_eq!(completion_labels("", Some(strings(&["series.conf", "a.patch"]))), strings(&["a.patch"]));
}

#[test]
fn test_completion_item_kind() {
    let series = parse_series("");
    let items = get_series_completions(&series, Some(&strings(&["a.patch"])));
    assert_eq!(items.len(), 1);
    assert_eq!(items[0].label, "a.patch");
}

#[test]
fn completions_offer_only_patch_and_diff_files() {
    let files = strings(&["NOTES.txt", "b.diff", "README", "a.patch"]);
    let series = parse_series("");
    let labels: Vec<String> = get_series_completions(&series, Some(&files)).into_iter().map(|c| c.label).collect();
    assert_eq!(labels, strings(&["a.patch", "b.diff"]));
}

#[test]
fn unlisted_listing_keeps_extensionless_files() {
    let text = "a.patch\n";
    let files = strings(&["readme.txt", "NOTES", "a.patch", "b.diff"]);
    let diags = check_unlisted_patches(text, &parse_series(text), &files);
    assert_eq!(diags.len(), 2);
    assert!(diags[0].message.contains("NOTES"));
    assert!(diags[1].message.contains("b.diff"));
}

#[test]
fn quilt_invocations_map_commands_to_arguments() {
    let uri = Some(SERIES_URI);
    assert_eq!(
        quilt_invocation(CMD_QUILT_PUSH, uri, Some("a.patch")),
        Ok(("/project/debian".to_string(), strings(&["push", "a.patch"])))
    );
    assert_eq!(quilt_invocation(CMD_QUILT_POP_ALL, uri, None), Ok(("/project/debian".to_string(), strings(&["pop", "-a"]))));
    assert_eq!(quilt_invocation(CMD_QUILT_REFRESH, uri, None), Ok(("/project/debian".to_string(), strings(&["refresh"]))));
    assert_eq!(
        quilt_invocation(diff_lsp::series_code_actions::CMD_QUILT_IMPORT, Some("file:///p/patches/x.patch"), None),
        Ok(("/p".to_string(), strings(&["import", "/p/patches/x.patch"])))
    );
    assert_eq!(quilt_invocation(CMD_QUILT_DELETE, uri, None), Err(QuiltCommandError::MissingPatchName));
    assert_eq!(quilt_invocation("diff-lsp.other", uri, Some("a")), Err(QuiltCommandError::UnknownCommand));
    assert_eq!(quilt_invocation(CMD_QUILT_PUSH, None, Some("a")), Err(QuiltCommandError::MissingUri));
    assert_eq!(quilt_invocation(CMD_QUILT_PUSH, Some("file:///series"), Some("a")), Err(QuiltCommandError::NoWorkingDir));
}
