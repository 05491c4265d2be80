//! Diagnostics for a patch file in a quilt project: a hint when the series
//! beside it does not list it.
use vstd::prelude::*;
use crate::diagnostics::make_diagnostic;
use crate::lsp::{Diagnostic, DiagnosticView, Severity};
use crate::paths::{file_name, file_name_of, join, join_path, parent_dir, parent_of};
use crate::position::{Position, Range};
use crate::quilt::{lists_patch, series_lists};
use crate::text::{chars_of, push_str, string_of};
use crate::uri::{spec_uri_path, uri_path};

verus! {

/// The file name of a URI's (raw) path.
pub open spec fn spec_raw_patch_name(uri: Seq<char>) -> Option<Seq<char>> {
    match spec_uri_path(uri) {
        Some(p) => file_name(p),
        None => None,
    }
}

/// Extract the file name from a patch file URI.
pub fn extract_patch_name(uri: &str) -> (r: Option<String>)
    ensures
        r matches Some(n) ==> spec_raw_patch_name(uri@) == Some(n@),
        r is None ==> spec_raw_patch_name(uri@) is None,
{
    match uri_path(uri) {
        Some(p) => match file_name_of(chars_of(p.as_str()).as_slice()) {
            Some(n) => Some(string_of(n.as_slice())),
            None => None,
        },
        None => None,
    }
}

/// The `series` file in the directory of a URI's (raw) path.
pub open spec fn spec_raw_series_file(uri: Seq<char>) -> Option<Seq<char>> {
    match spec_uri_path(uri) {
        Some(p) => match parent_dir(p) {
            Some(d) => Some(join_path(d, "series"@)),
            None => None,
        },
        None => None,
    }
}

/// The series file from the same directory as the patch.
pub fn series_file_of(uri: &str) -> (r: Option<String>)
    ensures
        r matches Some(f) ==> spec_raw_series_file(uri@) == Some(f@),
        r is None ==> spec_raw_series_file(uri@) is None,
{
    match uri_path(uri) {
        Some(p) => match parent_of(chars_of(p.as_str()).as_slice()) {
            Some(d) => Some(string_of(join(d.as_slice(), chars_of("series").as_slice()).as_slice())),
            None => None,
        },
        None => None,
    }
}

/// The hint that a patch is not in its series, at the start of the file.
pub open spec fn not_in_series(name: Seq<char>) -> DiagnosticView {
    DiagnosticView {
        range: Range { start: Position { line: 0, character: 0 }, end: Position { line: 0, character: 0 } },
        severity: Severity::Hint,
        code: "not-in-series"@,
        message: "patch '"@ + name + "' is not listed in the series file"@,
    }
}

pub open spec fn spec_patch_quilt_diagnostics(uri: Seq<char>, series_content: Option<Seq<char>>) -> Seq<DiagnosticView> {
    match (spec_raw_patch_name(uri), series_content) {
        (Some(name), Some(c)) => if lists_patch(c, name) {
            Seq::empty()
        } else {
            seq![not_in_series(name)]
        },
        _ => Seq::empty(),
    }
}

/// Check whether a patch file is listed in the series file beside it,
/// given that file's text (`None` when it could not be read).
pub fn get_patch_quilt_diagnostics(uri: &str, series_content: Option<&str>) -> (r: Vec<Diagnostic>)
    ensures
        r@.map_values(|d: Diagnostic| d@) == spec_patch_quilt_diagnostics(
            uri@,
            match series_content {
                Some(c) => Some(c@),
                None => None,
            },
        ),
{
    let name = match extract_patch_name(uri) {
        None => return Vec::new(),
        Some(n) => n,
    };
    let content = match series_content {
        None => return Vec::new(),
        Some(c) => c,
    };
    if series_lists(content, name.as_str()) {
        return Vec::new();
    }
    let mut message = String::new();
    push_str(&mut message, "patch '");
    push_str(&mut message, name.as_str());
    push_str(&mut message, "' is not listed in the series file");
    let origin = Position { line: 0, character: 0 };
    let d = make_diagnostic(Range { start: origin, end: origin }, Severity::Hint, "not-in-series", message);
    let mut out: Vec<Diagnostic> = Vec::new();
    out.push(d);
    assert(out@.map_values(|d: Diagnostic| d@) =~= seq![not_in_series(name@)]);
    out
}

} // verus!
