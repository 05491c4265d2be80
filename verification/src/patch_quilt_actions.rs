//! Code actions for a patch file in a quilt project: refresh it when it is
//! the top applied patch, import it when its series does not list it.
use vstd::prelude::*;
use vstd::string::StringExecFns;
use crate::lsp::{ActionKind, CodeAction, CodeActionView, Command, CommandView, TextEditView};
use crate::paths::{file_name, file_name_of};
use crate::quilt::{lists_patch, nonempty_lines, series_lists, top_applied};
use crate::series_code_actions::{command_action, CMD_QUILT_IMPORT, CMD_QUILT_REFRESH};
use crate::text::{chars_of, str_eq, string_of};
use crate::uri::{spec_uri_to_file_path, uri_to_file_path};

verus! {

/// The file name of the file a URI names.
pub open spec fn spec_patch_name(uri: Seq<char>) -> Option<Seq<char>> {
    match spec_uri_to_file_path(uri) {
        Some(p) => file_name(p),
        None => None,
    }
}

/// Extract the file name from a URI.
pub fn extract_patch_name(uri: &str) -> (r: Option<String>)
    ensures
        r matches Some(n) ==> spec_patch_name(uri@) == Some(n@),
        r is None ==> spec_patch_name(uri@) is None,
{
    match uri_to_file_path(uri) {
        Some(p) => match file_name_of(chars_of(p.as_str()).as_slice()) {
            Some(n) => Some(string_of(n.as_slice())),
            None => None,
        },
        None => None,
    }
}

pub open spec fn refresh_action(uri: Seq<char>) -> CodeActionView {
    command_action("Refresh patch (quilt refresh)"@, "Refresh patch"@, CMD_QUILT_REFRESH@, seq![uri])
}

pub open spec fn import_action(uri: Seq<char>) -> CodeActionView {
    command_action("Import patch (quilt import)"@, "Import patch"@, CMD_QUILT_IMPORT@, seq![uri])
}

/// Whether a patch is the top applied one, by the `applied-patches` text.
pub open spec fn is_top_applied(applied_content: Option<Seq<char>>, name: Seq<char>) -> bool {
    match applied_content {
        Some(c) => nonempty_lines(c).len() > 0 && nonempty_lines(c).last() == name,
        None => false,
    }
}

/// Whether the series text exists and does not list the patch.
pub open spec fn missing_from_series(series_content: Option<Seq<char>>, name: Seq<char>) -> bool {
    match series_content {
        Some(c) => !lists_patch(c, name),
        None => false,
    }
}

/// The actions on a patch file: refresh when it is the top applied patch,
/// then import when there is a series beside it that does not list it.
pub open spec fn spec_patch_quilt_actions(uri: Seq<char>, applied_content: Option<Seq<char>>, series_content: Option<Seq<char>>) -> Seq<CodeActionView> {
    match spec_patch_name(uri) {
        None => Seq::empty(),
        Some(name) => {
            let refresh: Seq<CodeActionView> = if is_top_applied(applied_content, name) {
                seq![refresh_action(uri)]
            } else {
                Seq::empty()
            };
            let import: Seq<CodeActionView> = if missing_from_series(series_content, name) {
                seq![import_action(uri)]
            } else {
                Seq::empty()
            };
            refresh + import
        },
    }
}

fn uri_action(title: &str, command_title: &str, command: &str, uri: &str) -> (r: CodeAction)
    ensures
        r@ == command_action(title@, command_title@, command@, seq![uri@]),
{
    let mut args: Vec<String> = Vec::new();
    args.push(String::from_str(uri));
    let r = CodeAction {
        title: String::from_str(title),
        kind: ActionKind::Source,
        edits: Vec::new(),
        command: Some(Command { title: String::from_str(command_title), command: String::from_str(command), arguments: args }),
        is_preferred: false,
    };
    assert(r@.edits =~= Seq::<TextEditView>::empty());
    assert(r@.command.unwrap().arguments =~= seq![uri@]);
    r
}

/// Get quilt code actions for a patch file, given the texts of its
/// project's `.pc/applied-patches` and of the `series` file beside it
/// (`None` where a file could not be read).
pub fn get_patch_quilt_actions(uri: &str, applied_content: Option<&str>, series_content: Option<&str>) -> (r: Vec<CodeAction>)
    ensures
        r@.map_values(|a: CodeAction| a@) == spec_patch_quilt_actions(
            uri@,
            match applied_content {
                Some(c) => Some(c@),
                None => None,
            },
            match series_content {
                Some(c) => Some(c@),
                None => None,
            },
        ),
{
    let name = match extract_patch_name(uri) {
        None => return Vec::new(),
        Some(n) => n,
    };
    let mut out: Vec<CodeAction> = Vec::new();
    let top = match applied_content {
        Some(c) => match top_applied(c) {
            Some(t) => str_eq(t.as_str(), name.as_str()),
            None => false,
        },
        None => false,
    };
    if top {
        out.push(uri_action("Refresh patch (quilt refresh)", "Refresh patch", CMD_QUILT_REFRESH, uri));
    }
    let ghost before = out@.map_values(|a: CodeAction| a@);
    let missing = match series_content {
        Some(c) => !series_lists(c, name.as_str()),
        None => false,
    };
    if missing {
        out.push(uri_action("Import patch (quilt import)", "Import patch", CMD_QUILT_IMPORT, uri));
    }
    assert(out@.map_values(|a: CodeAction| a@) =~= spec_patch_quilt_actions(
        uri@,
        match applied_content {
            Some(c) => Some(c@),
            None => None,
        },
        match series_content {
            Some(c) => Some(c@),
            None => None,
        },
    ));
    out
}

} // verus!
