//! Patch files: parsing, and the parts of a patch syntax tree that the
//! editor features read (files, their `---`/`+++` headers and paths, hunks,
//! hunk headers and line counts).
use vstd::prelude::*;
use rowan::ast::AstNode;
use rowan::WalkEvent;
use crate::hunk_header::{header_range, parse_u32};
use crate::lsp::flat_map;
use crate::text::decimal;
use crate::syntax::{
    build_tree, children, children_of_kind, first_child_of_kind, wf, ElementView, EventView,
    ParseErrorInfo, SyntaxEvent, SyntaxTree,
};

verus! {

// Syntax kinds, numbered as patchkit's unified-diff parser numbers them.
pub const PATH: u16 = 11;
pub const NUMBER: u16 = 6;
pub const ROOT: u16 = 22;
pub const PATCH_FILE: u16 = 23;
pub const OLD_FILE: u16 = 25;
pub const NEW_FILE: u16 = 26;
pub const HUNK: u16 = 27;
pub const HUNK_HEADER: u16 = 28;
pub const HUNK_RANGE: u16 = 29;
pub const CONTEXT_LINE: u16 = 30;
pub const ADD_LINE: u16 = 31;
pub const DELETE_LINE: u16 = 32;

/// The preorder walk of the tree that patchkit's parser builds for a text.
pub uninterp spec fn spec_patch_events(text: Seq<char>) -> Seq<EventView>;

/// The positioned errors that patchkit's parser reports for a text, as
/// (start, end, message).
pub uninterp spec fn spec_patch_errors(text: Seq<char>) -> Seq<(u32, u32, Seq<char>)>;

/// Calls `patchkit::edit::parse` and walks the resulting tree with rowan's
/// `preorder_with_tokens`; the walk is named by `spec_patch_events`. The
/// contract also states what rowan's tree shows of that walk: it starts by
/// entering the root and leaves it last, the root's range is the whole text
/// (the parser is lossless), each element's range lies within its parent's
/// (a node's range runs from its first child's start to its last child's
/// end), an element that is not inside an earlier one starts where or after
/// that one ends (ranges are running sums in walk order), and each element's
/// text (`to_string`) is the text of its range. A text of more than
/// `u32::MAX` bytes makes rowan's `TextSize::of` panic; `requires` leaves it
/// out.
#[verifier::external_body]
fn patch_events(text: &str) -> (r: Vec<SyntaxEvent>)
    requires
        crate::position::fits(vstd::string::StringSliceAdditionalSpecFns::spec_bytes(text)),
    ensures
        r@.map_values(|e: SyntaxEvent| e@) == spec_patch_events(text@),
        crate::syntax::spans_nest(crate::syntax::spec_build_tree(r@.map_values(|e: SyntaxEvent| e@))),
        crate::syntax::rooted(
            crate::syntax::spec_build_tree(r@.map_values(|e: SyntaxEvent| e@)),
            vstd::string::StringSliceAdditionalSpecFns::spec_bytes(text).len(),
        ),
        crate::syntax::spec_build_tree(r@.map_values(|e: SyntaxEvent| e@))[0].kind == ROOT,
        crate::syntax::spans_in_preorder(crate::syntax::spec_build_tree(r@.map_values(|e: SyntaxEvent| e@))),
        crate::syntax::texts_match(
            crate::syntax::spec_build_tree(r@.map_values(|e: SyntaxEvent| e@)),
            vstd::string::StringSliceAdditionalSpecFns::spec_bytes(text),
        ),
{
    let mut out = Vec::new();
    for ev in patchkit::edit::parse(text).syntax_node().preorder_with_tokens() {
        let (enter, e) = match ev {
            WalkEvent::Enter(e) => (true, e),
            WalkEvent::Leave(e) => (false, e),
        };
        let range = e.text_range();
        out.push(SyntaxEvent { enter, kind: e.kind() as u16, is_token: e.as_token().is_some(),
            start: range.start().into(), end: range.end().into(), text: e.to_string() });
    }
    out
}

/// Calls `patchkit::edit::parse` and reads `positioned_errors`; the errors
/// are named by `spec_patch_errors`. The parse panics on a text of more than
/// `u32::MAX` bytes, which `requires` leaves out.
#[verifier::external_body]
fn patch_errors(text: &str) -> (r: Vec<ParseErrorInfo>)
    requires
        crate::position::fits(vstd::string::StringSliceAdditionalSpecFns::spec_bytes(text)),
    ensures
        r@.map_values(|e: ParseErrorInfo| (e.start, e.end, e.message@)) == spec_patch_errors(text@),
{
    patchkit::edit::parse(text).positioned_errors().iter().map(|e| ParseErrorInfo {
        start: e.position.start().into(),
        end: e.position.end().into(),
        message: e.message.clone(),
    }).collect()
}

/// The text of a hunk range once `HunkRange::set_count(n)` has run where
/// its count is not `n`: a second number becomes `n`; after a lone start
/// number `,n` is inserted; a range without numbers stays as it is.
pub open spec fn fixed_range_text(t: Seq<ElementView>, r: nat, n: nat) -> Seq<char> {
    let nums = children_of_kind(t, r, NUMBER);
    let replace = nums.len() >= 2 && parse_u32(t[nums[1] as int].text) != Some(n);
    let insert = nums.len() == 1;
    flat_map(
        children(t, r),
        |c: nat|
            if replace && c == nums[1] {
                decimal(n)
            } else if insert && c == nums[0] {
                t[c as int].text + ","@ + decimal(n)
            } else {
                t[c as int].text
            },
    )
}

/// The text of a hunk header whose old range gets count `old_n` and whose
/// new range gets count `new_n`.
pub open spec fn fixed_header_text(t: Seq<ElementView>, hd: nat, old_n: nat, new_n: nat) -> Seq<char> {
    flat_map(
        children(t, hd),
        |c: nat|
            if header_range(t, hd, 0) == Some(c) {
                fixed_range_text(t, c, old_n)
            } else if header_range(t, hd, 1) == Some(c) {
                fixed_range_text(t, c, new_n)
            } else {
                t[c as int].text
            },
    )
}

/// The header text of hunk `hunk` of file diff `file` of a parsed text after
/// `Hunk::fix_counts`: its old range counts the context and deleted lines,
/// its new range the context and added lines.
pub open spec fn spec_fixed_header(text: Seq<char>, file: nat, hunk: nat) -> Option<Seq<char>> {
    let t = crate::syntax::spec_build_tree(spec_patch_events(text));
    let pf = patch_files(t);
    if file < pf.len() && hunk < hunks(t, pf[file as int]).len() {
        let h = hunks(t, pf[file as int])[hunk as int];
        match hunk_header(t, h) {
            Some(hd) => {
                let (c, a, d) = hunk_stats(t, h);
                Some(fixed_header_text(t, hd, c + d, c + a))
            },
            None => None,
        }
    } else {
        None
    }
}

/// Parses the text with `patchkit::edit::parse`, takes the hunk at the given
/// positions of `patch_files()` and `hunks()`, calls `Hunk::fix_counts` and
/// returns the header's text. The contract states that text over the tree
/// that the walk of `patch_events` describes: rowan writes a node as the
/// texts of its children one after another, `fix_counts` gives each range a
/// count that differs from the lines it has through `set_count`, and a
/// header's ranges are its first two `HUNK_RANGE` children. The sums of
/// line counts fit the `u32` fields of `HunkStats` because every line takes
/// at least a byte of a text that fits.
#[verifier::external_body]
fn fixed_header(text: &str, file: usize, hunk: usize) -> (r: Option<String>)
    requires
        crate::position::fits(vstd::string::StringSliceAdditionalSpecFns::spec_bytes(text)),
    ensures
        r matches Some(h) ==> spec_fixed_header(text@, file as nat, hunk as nat) == Some(h@),
        r is None ==> spec_fixed_header(text@, file as nat, hunk as nat) is None,
{
    let patch = patchkit::edit::parse(text).tree();
    let hunk = patch.patch_files().nth(file)?.hunks().nth(hunk)?;
    hunk.fix_counts();
    hunk.header().map(|h| h.syntax().text().to_string())
}

/// A parsed patch file.
pub struct PatchDocument {
    pub tree: SyntaxTree,
    pub errors: Vec<ParseErrorInfo>,
}

/// Parse a patch file.
pub fn parse_patch(text: &str) -> (r: PatchDocument)
    requires
        crate::position::fits(vstd::string::StringSliceAdditionalSpecFns::spec_bytes(text)),
    ensures
        r.tree@ == crate::syntax::spec_build_tree(spec_patch_events(text@)),
        r.errors@.map_values(|e: ParseErrorInfo| (e.start, e.end, e.message@))
            == spec_patch_errors(text@),
        wf(r.tree@),
        crate::syntax::parsed_shape(r.tree@, vstd::string::StringSliceAdditionalSpecFns::spec_bytes(text), ROOT),
{
    let events = patch_events(text);
    let tree = build_tree(&events);
    let errors = patch_errors(text);
    PatchDocument { tree, errors }
}

/// The header text of a hunk once its line counts are made to match its
/// lines; `file` and `hunk` count patch files and hunks from zero.
pub fn fixed_hunk_header(text: &str, file: usize, hunk: usize) -> (r: Option<String>)
    requires
        crate::position::fits(vstd::string::StringSliceAdditionalSpecFns::spec_bytes(text)),
    ensures
        r matches Some(h) ==> spec_fixed_header(text@, file as nat, hunk as nat) == Some(h@),
        r is None ==> spec_fixed_header(text@, file as nat, hunk as nat) is None,
{
    fixed_header(text, file, hunk)
}

/// The patch files of a patch (`Patch::patch_files`).
pub open spec fn patch_files(t: Seq<ElementView>) -> Seq<nat> {
    children_of_kind(t, 0, PATCH_FILE)
}

/// The hunks of a patch file (`PatchFile::hunks`).
pub open spec fn hunks(t: Seq<ElementView>, f: nat) -> Seq<nat> {
    children_of_kind(t, f, HUNK)
}

/// The `---` header of a patch file (`PatchFile::old_file`).
pub open spec fn old_file(t: Seq<ElementView>, f: nat) -> Option<nat> {
    first_child_of_kind(t, f, OLD_FILE)
}

/// The `+++` header of a patch file (`PatchFile::new_file`).
pub open spec fn new_file(t: Seq<ElementView>, f: nat) -> Option<nat> {
    first_child_of_kind(t, f, NEW_FILE)
}

/// The path token of a file header (`OldFile::path`, `NewFile::path`).
pub open spec fn path_token(t: Seq<ElementView>, header: nat) -> Option<nat> {
    first_child_of_kind(t, header, PATH)
}

/// The path text of an optional file header.
pub open spec fn header_path(t: Seq<ElementView>, header: Option<nat>) -> Option<Seq<char>> {
    match header {
        Some(h) => match path_token(t, h) {
            Some(p) => Some(t[p as int].text),
            None => None,
        },
        None => None,
    }
}

/// `PatchFile::old_path`.
pub open spec fn old_path(t: Seq<ElementView>, f: nat) -> Option<Seq<char>> {
    header_path(t, old_file(t, f))
}

/// `PatchFile::new_path`.
pub open spec fn new_path(t: Seq<ElementView>, f: nat) -> Option<Seq<char>> {
    header_path(t, new_file(t, f))
}

/// The path of a patch file, the new one preferred (`PatchFile::path`).
pub open spec fn file_path(t: Seq<ElementView>, f: nat) -> Option<Seq<char>> {
    match new_path(t, f) {
        Some(p) => Some(p),
        None => old_path(t, f),
    }
}

/// The header of a hunk (`Hunk::header`).
pub open spec fn hunk_header(t: Seq<ElementView>, h: nat) -> Option<nat> {
    first_child_of_kind(t, h, HUNK_HEADER)
}

/// Context, added and deleted lines of a hunk (`Hunk::stats`).
pub open spec fn hunk_stats(t: Seq<ElementView>, h: nat) -> (nat, nat, nat) {
    (
        children_of_kind(t, h, CONTEXT_LINE).len(),
        children_of_kind(t, h, ADD_LINE).len(),
        children_of_kind(t, h, DELETE_LINE).len(),
    )
}

/// Line counts of a hunk.
#[derive(Debug, Clone, Copy, PartialEq, Eq, Structural)]
pub struct HunkStats {
    pub context: u64,
    pub additions: u64,
    pub deletions: u64,
}

/// Tree accessors that the features share.
impl PatchDocument {
    pub fn patch_files(&self) -> (r: Vec<usize>)
        ensures
            r@.map_values(|c: usize| c as nat) == patch_files(self.tree@),
            forall|k: int| 0 <= k < r@.len() ==> #[trigger] r@[k] < self.tree@.len(),
    {
        self.tree.children_of_kind(0, PATCH_FILE)
    }

    pub fn hunks(&self, f: usize) -> (r: Vec<usize>)
        ensures
            r@.map_values(|c: usize| c as nat) == hunks(self.tree@, f as nat),
            forall|k: int| 0 <= k < r@.len() ==> #[trigger] r@[k] < self.tree@.len(),
    {
        self.tree.children_of_kind(f, HUNK)
    }

    pub fn stats(&self, h: usize) -> (r: HunkStats)
        ensures
            (r.context as nat, r.additions as nat, r.deletions as nat) == hunk_stats(
                self.tree@,
                h as nat,
            ),
    {
        let c = self.tree.children_of_kind(h, CONTEXT_LINE);
        let a = self.tree.children_of_kind(h, ADD_LINE);
        let d = self.tree.children_of_kind(h, DELETE_LINE);
        assert(c@.map_values(|x: usize| x as nat).len() == c@.len());
        assert(a@.map_values(|x: usize| x as nat).len() == a@.len());
        assert(d@.map_values(|x: usize| x as nat).len() == d@.len());
        HunkStats { context: c.len() as u64, additions: a.len() as u64, deletions: d.len() as u64 }
    }

    /// The path text of a header, if it has a path token.
    pub fn header_path(&self, header: Option<usize>) -> (r: Option<String>)
        ensures
            r matches Some(p) ==> header_path(self.tree@, opt_nat(header)) == Some(p@),
            r is None ==> header_path(self.tree@, opt_nat(header)) is None,
    {
        match header {
            None => None,
            Some(h) => match self.tree.first_child_of_kind(h, PATH) {
                None => None,
                Some(p) => {
                    assert(self.tree@[p as int] == self.tree.elements@[p as int]@);
                    Some(self.tree.elements[p].text.clone())
                },
            },
        }
    }
}

/// An optional index as a natural number.
pub open spec fn opt_nat(o: Option<usize>) -> Option<nat> {
    match o {
        Some(i) => Some(i as nat),
        None => None,
    }
}

} // verus!
