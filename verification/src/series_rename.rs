//! Renaming a patch in a quilt series file: the name in the series is
//! replaced and the patch file is renamed beside it.
use vstd::prelude::*;
use vstd::string::{StringExecFns, StringSliceAdditionalSpecFns};
use crate::lsp::{TextEdit, TextEditView};
use crate::paths::{join, join_path, parent_dir, parent_of};
use crate::position::{fits, spec_position_to_offset, try_position_to_offset, Position, Range};
use crate::series::{name_token, patch_entries, SeriesDocument, PATCH_NAME};
use crate::series_highlights::entry_holding;
use crate::syntax::{lsp_range, ElementView};
use crate::text::{chars_of, str_eq, string_of};
use crate::uri::{file_path_uri, spec_file_path_uri, spec_uri_to_file_path, uri_to_file_path};

verus! {

/// The name token of the patch entry that holds a position.
pub open spec fn name_token_at(t: Seq<ElementView>, bytes: Seq<u8>, position: Position) -> Option<nat> {
    let pes = patch_entries(t);
    match spec_position_to_offset(bytes, position) {
        None => None,
        Some(off) => match entry_holding(t, pes, off, pes.len()) {
            None => None,
            Some(pe) => name_token(t, pe),
        },
    }
}

/// The name token of the patch entry at a position.
fn name_token_at_exec(series: &SeriesDocument, source_text: &str, position: Position) -> (r: Option<usize>)
    requires
        fits(source_text.spec_bytes()),
    ensures
        r matches Some(n) ==> name_token_at(series.tree@, source_text.spec_bytes(), position) == Some(n as nat)
            && n < series.tree@.len(),
        r is None ==> name_token_at(series.tree@, source_text.spec_bytes(), position) is None,
{
    let ghost t = series.tree@;
    let offset = match try_position_to_offset(source_text, position) {
        None => return None,
        Some(o) => o,
    };
    let pes = series.patch_entries();
    let ghost pf = patch_entries(t);
    let mut i: usize = 0;
    let mut found: Option<usize> = None;
    while i < pes.len() && found.is_none()
        invariant
            t == series.tree@,
            pf == patch_entries(t),
            pes@.map_values(|c: usize| c as nat) == pf,
            forall|k: int| 0 <= k < pes@.len() ==> #[trigger] pes@[k] < t.len(),
            i <= pes@.len(),
            found is None ==> entry_holding(t, pf, offset as nat, i as nat) is None,
            found matches Some(pe) ==> entry_holding(t, pf, offset as nat, i as nat) == Some(pe as nat)
                && pe < t.len(),
        decreases pes@.len() - i,
    {
        let pe = pes[i];
        assert(pf[i as int] == pe as nat);
        let span = series.tree.range_of(pe);
        if span.start <= offset && offset < span.end {
            found = Some(pe);
        }
        i = i + 1;
    }
    proof {
        if found is Some {
            crate::series_highlights::lemma_holding_stable(t, pf, offset as nat, i as nat, pf.len());
        }
    }
    match found {
        None => None,
        Some(pe) => series.tree.first_child_of_kind(pe, PATCH_NAME),
    }
}

/// Check if rename is valid at the given position and return the range
/// and text of the patch name there.
pub fn prepare_rename(series: &SeriesDocument, source_text: &str, position: Position) -> (r: Option<(Range, String)>)
    requires
        fits(source_text.spec_bytes()),
    ensures
        r matches Some((range, name)) ==> (name_token_at(series.tree@, source_text.spec_bytes(), position) matches Some(n)
            && range == lsp_range(source_text.spec_bytes(), series.tree@[n as int])
            && name@ == series.tree@[n as int].text),
        r is None ==> name_token_at(series.tree@, source_text.spec_bytes(), position) is None,
{
    match name_token_at_exec(series, source_text, position) {
        None => None,
        Some(n) => Some((series.tree.lsp_range_of(source_text, n), series.tree.text_of(n).clone())),
    }
}

/// A rename: the edit of the series text, and the URIs the patch file is
/// moved from and to.
pub struct RenameEdit {
    pub edit: TextEdit,
    pub old_uri: String,
    pub new_uri: String,
}

/// The directory of a series file's path.
pub open spec fn spec_rename_dir(uri: Seq<char>) -> Option<Seq<char>> {
    match spec_uri_to_file_path(uri) {
        Some(p) => parent_dir(p),
        None => None,
    }
}

/// The rename at a position to a new name, as (edit, old URI, new URI):
/// none off a patch name, for the same name, or when the patch's URIs
/// cannot be made (the directory of an absolute path is absolute, so both
/// URIs are named results).
pub open spec fn spec_rename(t: Seq<ElementView>, bytes: Seq<u8>, position: Position, new_name: Seq<char>, uri: Seq<char>) -> Option<(TextEditView, Seq<char>, Seq<char>)> {
    match name_token_at(t, bytes, position) {
        None => None,
        Some(n) => {
            let old_name = t[n as int].text;
            if old_name == new_name {
                None
            } else {
                match spec_rename_dir(uri) {
                    None => None,
                    Some(dir) => match (
                        spec_file_path_uri(join_path(dir, old_name)),
                        spec_file_path_uri(join_path(dir, new_name)),
                    ) {
                        (Some(o), Some(nu)) => Some(
                            (TextEditView { range: lsp_range(bytes, t[n as int]), new_text: new_name }, o, nu),
                        ),
                        _ => None,
                    },
                }
            }
        },
    }
}

/// Whether a path starts at the root.
pub open spec fn is_absolute(p: Seq<char>) -> bool {
    p.len() > 0 && p[0] == '/'
}

proof fn lemma_join_absolute(dir: Seq<char>, name: Seq<char>)
    requires
        is_absolute(dir),
    ensures
        is_absolute(join_path(dir, name)),
{
}

proof fn lemma_parent_absolute(p: Seq<char>)
    requires
        is_absolute(p),
        parent_dir(p) is Some,
    ensures
        is_absolute(parent_dir(p).unwrap()),
{
}

/// The edit of the series text a rename makes, before the patch's URIs
/// are made: none off a patch name, for the same name, or when the series
/// file's directory cannot be told.
pub open spec fn spec_rename_text_edit(t: Seq<ElementView>, bytes: Seq<u8>, position: Position, new_name: Seq<char>, uri: Seq<char>) -> Option<TextEditView> {
    match name_token_at(t, bytes, position) {
        None => None,
        Some(n) => if t[n as int].text == new_name || spec_rename_dir(uri) is None {
            None
        } else {
            Some(TextEditView { range: lsp_range(bytes, t[n as int]), new_text: new_name })
        },
    }
}

/// Perform the rename: the edit of the series text and the move of the
/// patch file. Where the series file's path is absolute (as every path of a
/// `file:` URI is on Unix) the result is exact; a relative path's URIs
/// depend on the file system, and then only the edit is stated.
pub fn rename(series: &SeriesDocument, source_text: &str, position: Position, new_name: &str, uri: &str) -> (r: Option<RenameEdit>)
    requires
        fits(source_text.spec_bytes()),
    ensures
        (spec_uri_to_file_path(uri@) matches Some(p) && is_absolute(p)) ==> (r matches Some(e) ==> spec_rename(series.tree@, source_text.spec_bytes(), position, new_name@, uri@) == Some((e.edit@, e.old_uri@, e.new_uri@))),
        (spec_uri_to_file_path(uri@) matches Some(p) && is_absolute(p)) ==> (r is None ==> spec_rename(series.tree@, source_text.spec_bytes(), position, new_name@, uri@) is None),
        r matches Some(e) ==> spec_rename_text_edit(series.tree@, source_text.spec_bytes(), position, new_name@, uri@) == Some(e.edit@),
        spec_rename_text_edit(series.tree@, source_text.spec_bytes(), position, new_name@, uri@) is None ==> r is None,
{
    let n = match name_token_at_exec(series, source_text, position) {
        None => return None,
        Some(n) => n,
    };
    let old_name = series.tree.text_of(n);
    let range = series.tree.lsp_range_of(source_text, n);
    if str_eq(old_name.as_str(), new_name) {
        return None;
    }
    let path = match uri_to_file_path(uri) {
        None => return None,
        Some(p) => p,
    };
    let dir = match parent_of(chars_of(path.as_str()).as_slice()) {
        None => return None,
        Some(d) => d,
    };
    proof {
        if is_absolute(path@) {
            lemma_parent_absolute(path@);
            lemma_join_absolute(dir@, old_name@);
            lemma_join_absolute(dir@, new_name@);
        }
    }
    let old_path = string_of(join(dir.as_slice(), chars_of(old_name.as_str()).as_slice()).as_slice());
    let new_path = string_of(join(dir.as_slice(), chars_of(new_name).as_slice()).as_slice());
    let old_uri = match file_path_uri(old_path.as_str()) {
        None => return None,
        Some(u) => u,
    };
    let new_uri = match file_path_uri(new_path.as_str()) {
        None => return None,
        Some(u) => u,
    };
    let edit = TextEdit { range, new_text: String::from_str(new_name) };
    Some(RenameEdit { edit, old_uri, new_uri })
}

/// A rename replaces exactly the range that preparing it offered, and a
/// rename is only offered where preparing one succeeds.
pub proof fn lemma_rename_edits_prepared_range(t: Seq<ElementView>, bytes: Seq<u8>, position: Position, new_name: Seq<char>, uri: Seq<char>)
    ensures
        spec_rename_text_edit(t, bytes, position, new_name, uri) matches Some(e) ==> (name_token_at(t, bytes, position) matches Some(n)
            && e.range == lsp_range(bytes, t[n as int]) && e.new_text == new_name),
        spec_rename(t, bytes, position, new_name, uri) matches Some((e, _, _)) ==> spec_rename_text_edit(t, bytes, position, new_name, uri) == Some(e),
{
}

} // verus!
