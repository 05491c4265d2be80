//! The outline of a patch file: each file diff a symbol, its hunks its
//! children.
use vstd::prelude::*;
use vstd::string::{StringExecFns, StringSliceAdditionalSpecFns};
use crate::lsp::{DocumentSymbol, SymbolKind, SymbolLeafView};
use crate::patch::{hunk_header, hunks, new_path, old_path, patch_files, PatchDocument, HUNK_HEADER, NEW_FILE, OLD_FILE};
use crate::position::fits;
use crate::syntax::{lsp_range, ElementView};
use crate::text::{chars_of, push_str, str_eq, string_of, trim, trim_chars};

verus! {

/// The name of a file diff: its path, or `old → new` when the paths differ
/// (`PatchFile::display_name`).
pub open spec fn spec_file_name(old: Option<Seq<char>>, new: Option<Seq<char>>) -> Seq<char> {
    match (old, new) {
        (Some(o), Some(n)) => if o == n {
            o
        } else {
            o + " → "@ + n
        },
        (Some(o), None) => o,
        (None, Some(n)) => n,
        (None, None) => "<unknown>"@,
    }
}

pub fn display_name(old: Option<String>, new: Option<String>) -> (r: String)
    ensures
        r@ == spec_file_name(
            match old {
                Some(o) => Some(o@),
                None => None,
            },
            match new {
                Some(n) => Some(n@),
                None => None,
            },
        ),
{
    match (old, new) {
        (Some(o), Some(n)) => {
            if str_eq(o.as_str(), n.as_str()) {
                o
            } else {
                let mut s = o;
                push_str(&mut s, " → ");
                push_str(&mut s, n.as_str());
                s
            }
        },
        (Some(o), None) => o,
        (None, Some(n)) => n,
        (None, None) => String::from_str("<unknown>"),
    }
}

/// The name of a patch file's symbol.
pub fn file_name(patch: &PatchDocument, f: usize) -> (r: String)
    ensures
        r@ == spec_file_name(old_path(patch.tree@, f as nat), new_path(patch.tree@, f as nat)),
{
    let old = patch.header_path(patch.tree.first_child_of_kind(f, OLD_FILE));
    let new = patch.header_path(patch.tree.first_child_of_kind(f, NEW_FILE));
    display_name(old, new)
}

/// A hunk's symbol: its header text trimmed, or `hunk` without a header.
pub open spec fn hunk_symbol(t: Seq<ElementView>, bytes: Seq<u8>, h: nat) -> SymbolLeafView {
    SymbolLeafView {
        name: match hunk_header(t, h) {
            Some(hd) => trim(t[hd as int].text),
            None => "hunk"@,
        },
        detail: None,
        kind: SymbolKind::Struct,
        range: lsp_range(bytes, t[h as int]),
        selection_range: lsp_range(bytes, t[h as int]),
    }
}

/// A file diff's symbol.
pub open spec fn spec_file_symbol(t: Seq<ElementView>, bytes: Seq<u8>, f: nat) -> SymbolLeafView {
    SymbolLeafView {
        name: spec_file_name(old_path(t, f), new_path(t, f)),
        detail: None,
        kind: SymbolKind::File,
        range: lsp_range(bytes, t[f as int]),
        selection_range: lsp_range(bytes, t[f as int]),
    }
}

/// Whether `s` is the symbol of file `f` with one child per hunk.
pub open spec fn is_file_symbol(t: Seq<ElementView>, bytes: Seq<u8>, f: nat, s: DocumentSymbol) -> bool {
    let hs = hunks(t, f);
    &&& s.leaf() == spec_file_symbol(t, bytes, f)
    &&& s.children@.len() == hs.len()
    &&& forall|j: int|
        0 <= j < hs.len() ==> {
            &&& (#[trigger] s.children@[j]).leaf() == hunk_symbol(t, bytes, hs[j])
            &&& s.children@[j].children@.len() == 0
        }
}

/// The symbol of a patch file, its hunks as children.
pub fn file_symbol(patch: &PatchDocument, f: usize, text: &str) -> (r: DocumentSymbol)
    requires
        fits(text.spec_bytes()),
        f < patch.tree@.len(),
    ensures
        is_file_symbol(patch.tree@, text.spec_bytes(), f as nat, r),
{
    let ghost t = patch.tree@;
    let ghost bytes = text.spec_bytes();
    let range = patch.tree.lsp_range_of(text, f);
    let name = file_name(patch, f);
    let hs = patch.hunks(f);
    let ghost hf = hunks(t, f as nat);
    let mut children: Vec<DocumentSymbol> = Vec::new();
    let mut i: usize = 0;
    while i < hs.len()
        invariant
            t == patch.tree@,
            bytes == text.spec_bytes(),
            fits(bytes),
            hf == hunks(t, f as nat),
            hs@.map_values(|c: usize| c as nat) == hf,
            forall|k: int| 0 <= k < hs@.len() ==> #[trigger] hs@[k] < t.len(),
            i <= hs@.len(),
            children@.len() == i,
            forall|j: int|
                0 <= j < i ==> {
                    &&& (#[trigger] children@[j]).leaf() == hunk_symbol(t, bytes, hf[j])
                    &&& children@[j].children@.len() == 0
                },
        decreases hs@.len() - i,
    {
        let h = hs[i];
        assert(hf[i as int] == h as nat);
        let hr = patch.tree.lsp_range_of(text, h);
        let hname = match patch.tree.first_child_of_kind(h, HUNK_HEADER) {
            Some(hd) => string_of(trim_chars(chars_of(patch.tree.text_of(hd).as_str()).as_slice()).as_slice()),
            None => String::from_str("hunk"),
        };
        let sym = DocumentSymbol {
            name: hname,
            detail: None,
            kind: SymbolKind::Struct,
            range: hr,
            selection_range: hr,
            children: Vec::new(),
        };
        assert(sym.leaf() == hunk_symbol(t, bytes, h as nat));
        children.push(sym);
        i = i + 1;
    }
    DocumentSymbol { name, detail: None, kind: SymbolKind::File, range, selection_range: range, children }
}

/// Generate document symbols for a patch file: one per file diff, in order.
pub fn generate_document_symbols(patch: &PatchDocument, source_text: &str) -> (r: Vec<DocumentSymbol>)
    requires
        fits(source_text.spec_bytes()),
    ensures
        r@.len() == patch_files(patch.tree@).len(),
        forall|k: int|
            0 <= k < r@.len() ==> is_file_symbol(
                patch.tree@,
                source_text.spec_bytes(),
                patch_files(patch.tree@)[k],
                #[trigger] r@[k],
            ),
{
    let files = patch.patch_files();
    let ghost pf = patch_files(patch.tree@);
    let mut out: Vec<DocumentSymbol> = Vec::new();
    let mut i: usize = 0;
    while i < files.len()
        invariant
            fits(source_text.spec_bytes()),
            pf == patch_files(patch.tree@),
            files@.map_values(|c: usize| c as nat) == pf,
            forall|k: int| 0 <= k < files@.len() ==> #[trigger] files@[k] < patch.tree@.len(),
            i <= files@.len(),
            out@.len() == i,
            forall|k: int| 0 <= k < i ==> is_file_symbol(patch.tree@, source_text.spec_bytes(), pf[k], #[trigger] out@[k]),
        decreases files@.len() - i,
    {
        assert(pf[i as int] == files@[i as int] as nat);
        out.push(file_symbol(patch, files[i], source_text));
        i = i + 1;
    }
    out
}

/// A file diff is named by its path when both headers agree or only one
/// has a path, by `old → new` when the paths differ (the old one first),
/// and `<unknown>` when neither header has a path.
pub proof fn lemma_file_name_shows_paths(old: Seq<char>, new: Seq<char>)
    ensures
        spec_file_name(Some(old), Some(old)) == old,
        old != new ==> spec_file_name(Some(old), Some(new)) == old + " → "@ + new,
        spec_file_name(Some(old), None) == old,
        spec_file_name(None, Some(new)) == new,
        spec_file_name(None, None) == "<unknown>"@,
{
}

} // verus!
