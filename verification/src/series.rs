//! Quilt series files: parsing, and the parts of a series syntax tree that
//! the editor features read (entries, patch names, options, comments).
use vstd::prelude::*;
use rowan::WalkEvent;
use crate::lsp::{filter_map, lemma_filter_map_step, lemma_take_full};
use crate::syntax::{
    build_tree, children_of_kind, first_child_of_kind, wf, ElementView, EventView,
    ParseErrorInfo, SyntaxEvent, SyntaxTree,
};

verus! {

// Syntax kinds, numbered as patchkit's series parser numbers them.
pub const HASH: u16 = 0;
pub const PATCH_NAME: u16 = 5;
pub const OPTION: u16 = 6;
pub const TEXT: u16 = 7;
pub const ROOT: u16 = 10;
pub const SERIES_ENTRY: u16 = 11;
pub const PATCH_ENTRY: u16 = 12;
pub const COMMENT_LINE: u16 = 13;
pub const OPTIONS: u16 = 14;
pub const OPTION_ITEM: u16 = 15;

/// The preorder walk of the tree that patchkit's series parser builds for a
/// text.
pub uninterp spec fn spec_series_events(text: Seq<char>) -> Seq<EventView>;

/// The positioned errors that patchkit's series parser reports for a text.
pub uninterp spec fn spec_series_errors(text: Seq<char>) -> Seq<(u32, u32, Seq<char>)>;

/// Calls `patchkit::edit::series::parse` and walks the resulting tree with
/// rowan's `preorder_with_tokens`; the walk is named by `spec_series_events`.
/// The contract also states what rowan's tree shows of that walk: it starts
/// by entering the root and leaves it last, the root's range is the whole
/// text (the parser is lossless), each element's range lies within its
/// parent's (a node's range runs from its first child's start to its last
/// child's end), an element that is not inside an earlier one starts where
/// or after that one ends (ranges are running sums in walk order), and each
/// element's text (`to_string`) is the text of its range. A text of more
/// than `u32::MAX` bytes makes rowan's `TextSize::of` panic; `requires`
/// leaves it out.
#[verifier::external_body]
fn series_events(text: &str) -> (r: Vec<SyntaxEvent>)
    requires
        crate::position::fits(vstd::string::StringSliceAdditionalSpecFns::spec_bytes(text)),
    ensures
        r@.map_values(|e: SyntaxEvent| e@) == spec_series_events(text@),
        crate::syntax::spans_nest(crate::syntax::spec_build_tree(r@.map_values(|e: SyntaxEvent| e@))),
        crate::syntax::rooted(
            crate::syntax::spec_build_tree(r@.map_values(|e: SyntaxEvent| e@)),
            vstd::string::StringSliceAdditionalSpecFns::spec_bytes(text).len(),
        ),
        crate::syntax::spec_build_tree(r@.map_values(|e: SyntaxEvent| e@))[0].kind == ROOT,
        crate::syntax::spans_in_preorder(crate::syntax::spec_build_tree(r@.map_values(|e: SyntaxEvent| e@))),
        crate::syntax::texts_match(
            crate::syntax::spec_build_tree(r@.map_values(|e: SyntaxEvent| e@)),
            vstd::string::StringSliceAdditionalSpecFns::spec_bytes(text),
        ),
{
    let mut out = Vec::new();
    for ev in patchkit::edit::series::parse(text).syntax_node().preorder_with_tokens() {
        let (enter, e) = match ev {
            WalkEvent::Enter(e) => (true, e),
            WalkEvent::Leave(e) => (false, e),
        };
        let range = e.text_range();
        out.push(SyntaxEvent { enter, kind: e.kind() as u16, is_token: e.as_token().is_some(),
            start: range.start().into(), end: range.end().into(), text: e.to_string() });
    }
    out
}

/// Calls `patchkit::edit::series::parse` and reads `positioned_errors`; the
/// errors are named by `spec_series_errors`. The parse panics on a text of
/// more than `u32::MAX` bytes, which `requires` leaves out.
#[verifier::external_body]
fn series_errors(text: &str) -> (r: Vec<ParseErrorInfo>)
    requires
        crate::position::fits(vstd::string::StringSliceAdditionalSpecFns::spec_bytes(text)),
    ensures
        r@.map_values(|e: ParseErrorInfo| (e.start, e.end, e.message@)) == spec_series_errors(text@),
{
    patchkit::edit::series::parse(text).positioned_errors().iter().map(|e| ParseErrorInfo {
        start: e.position.start().into(),
        end: e.position.end().into(),
        message: e.message.clone(),
    }).collect()
}

/// A parsed series file.
pub struct SeriesDocument {
    pub tree: SyntaxTree,
    pub errors: Vec<ParseErrorInfo>,
}

/// Parse a series file.
pub fn parse_series(text: &str) -> (r: SeriesDocument)
    requires
        crate::position::fits(vstd::string::StringSliceAdditionalSpecFns::spec_bytes(text)),
    ensures
        r.tree@ == crate::syntax::spec_build_tree(spec_series_events(text@)),
        r.errors@.map_values(|e: ParseErrorInfo| (e.start, e.end, e.message@))
            == spec_series_errors(text@),
        wf(r.tree@),
        crate::syntax::parsed_shape(r.tree@, vstd::string::StringSliceAdditionalSpecFns::spec_bytes(text), ROOT),
{
    let events = series_events(text);
    let tree = build_tree(&events);
    let errors = series_errors(text);
    SeriesDocument { tree, errors }
}

/// The entries of a series file, patches and comments (`SeriesFile::entries`).
pub open spec fn entries(t: Seq<ElementView>) -> Seq<nat> {
    children_of_kind(t, 0, SERIES_ENTRY)
}

/// The patch entry inside an entry (`SeriesEntry::as_patch_entry`).
pub open spec fn as_patch_entry(t: Seq<ElementView>, e: nat) -> Option<nat> {
    first_child_of_kind(t, e, PATCH_ENTRY)
}

/// The comment line inside an entry (`SeriesEntry::as_comment_line`).
pub open spec fn as_comment_line(t: Seq<ElementView>, e: nat) -> Option<nat> {
    first_child_of_kind(t, e, COMMENT_LINE)
}

/// The patch entries, in order (`SeriesFile::patch_entries`).
pub open spec fn patch_entries(t: Seq<ElementView>) -> Seq<nat> {
    filter_map(entries(t), |e: nat| as_patch_entry(t, e))
}

/// The patch entries that have a name, in order.
pub open spec fn named_entries(t: Seq<ElementView>) -> Seq<nat> {
    filter_map(
        patch_entries(t),
        |pe: nat| match entry_name(t, pe) {
            Some(_) => Some(pe),
            None => None,
        },
    )
}

/// The names of the patch entries, in order.
pub open spec fn listed_names(t: Seq<ElementView>) -> Seq<Seq<char>> {
    filter_map(patch_entries(t), |pe: nat| entry_name(t, pe))
}

/// The name token of a patch entry (`PatchEntry::name_token`).
pub open spec fn name_token(t: Seq<ElementView>, pe: nat) -> Option<nat> {
    first_child_of_kind(t, pe, PATCH_NAME)
}

/// The name of a patch entry (`PatchEntry::name`).
pub open spec fn entry_name(t: Seq<ElementView>, pe: nat) -> Option<Seq<char>> {
    match name_token(t, pe) {
        Some(n) => Some(t[n as int].text),
        None => None,
    }
}

/// The options node of a patch entry (`PatchEntry::options`).
pub open spec fn entry_options(t: Seq<ElementView>, pe: nat) -> Option<nat> {
    first_child_of_kind(t, pe, OPTIONS)
}

/// The option texts of an options node (`Options::option_strings`).
pub open spec fn option_strings(t: Seq<ElementView>, o: nat) -> Seq<Seq<char>> {
    filter_map(
        children_of_kind(t, o, OPTION_ITEM),
        |it: nat| match first_child_of_kind(t, it, OPTION) {
            Some(x) => Some(t[x as int].text),
            None => None,
        },
    )
}

impl SeriesDocument {
    pub fn entries(&self) -> (r: Vec<usize>)
        ensures
            r@.map_values(|c: usize| c as nat) == entries(self.tree@),
            forall|k: int| 0 <= k < r@.len() ==> #[trigger] r@[k] < self.tree@.len(),
    {
        self.tree.children_of_kind(0, SERIES_ENTRY)
    }

    pub fn patch_entries(&self) -> (r: Vec<usize>)
        ensures
            r@.map_values(|c: usize| c as nat) == patch_entries(self.tree@),
            forall|k: int| 0 <= k < r@.len() ==> #[trigger] r@[k] < self.tree@.len(),
    {
        let ghost t = self.tree@;
        let es = self.entries();
        let ghost ef = entries(t);
        let ghost g = |e: nat| as_patch_entry(t, e);
        let mut out: Vec<usize> = Vec::new();
        let mut i: usize = 0;
        while i < es.len()
            invariant
                t == self.tree@,
                ef == entries(t),
                es@.map_values(|c: usize| c as nat) == ef,
                g == (|e: nat| as_patch_entry(t, e)),
                i <= es@.len(),
                out@.map_values(|c: usize| c as nat) == filter_map(ef.take(i as int), g),
                forall|k: int| 0 <= k < out@.len() ==> #[trigger] out@[k] < t.len(),
            decreases es@.len() - i,
        {
            assert(ef[i as int] == es@[i as int] as nat);
            proof {
                lemma_filter_map_step(ef, g, i as int);
            }
            if let Some(pe) = self.tree.first_child_of_kind(es[i], PATCH_ENTRY) {
                let ghost before = out@;
                out.push(pe);
                assert(out@.map_values(|c: usize| c as nat) =~= before.map_values(|c: usize| c as nat).push(pe as nat));
            }
            i = i + 1;
        }
        proof {
            lemma_take_full(ef);
        }
        out
    }

    /// The name of a patch entry.
    pub fn entry_name(&self, pe: usize) -> (r: Option<String>)
        ensures
            r matches Some(n) ==> entry_name(self.tree@, pe as nat) == Some(n@),
            r is None ==> entry_name(self.tree@, pe as nat) is None,
    {
        match self.tree.first_child_of_kind(pe, PATCH_NAME) {
            None => None,
            Some(n) => Some(self.tree.text_of(n).clone()),
        }
    }

    /// The patch entries that have a name, and their names.
    pub fn named_entries(&self) -> (r: (Vec<usize>, Vec<String>))
        ensures
            r.0@.map_values(|c: usize| c as nat) == named_entries(self.tree@),
            r.1@.map_values(|s: String| s@) == listed_names(self.tree@),
            r.0@.len() == r.1@.len(),
            forall|k: int| 0 <= k < r.0@.len() ==> #[trigger] r.0@[k] < self.tree@.len(),
            forall|k: int| 0 <= k < r.0@.len() ==> entry_name(self.tree@, #[trigger] r.0@[k] as nat) == Some(r.1@[k]@),
    {
        let ghost t = self.tree@;
        let pes = self.patch_entries();
        let ghost pf = patch_entries(t);
        let ghost gp = |pe: nat| match entry_name(t, pe) {
            Some(_) => Some(pe),
            None => None,
        };
        let ghost gn = |pe: nat| entry_name(t, pe);
        let mut ids: Vec<usize> = Vec::new();
        let mut names: Vec<String> = Vec::new();
        let mut i: usize = 0;
        while i < pes.len()
            invariant
                t == self.tree@,
                pf == patch_entries(t),
                pes@.map_values(|c: usize| c as nat) == pf,
                forall|k: int| 0 <= k < pes@.len() ==> #[trigger] pes@[k] < t.len(),
                gp == (|pe: nat| match entry_name(t, pe) {
                    Some(_) => Some(pe),
                    None => None,
                }),
                gn == (|pe: nat| entry_name(t, pe)),
                i <= pes@.len(),
                ids@.map_values(|c: usize| c as nat) == filter_map(pf.take(i as int), gp),
                names@.map_values(|s: String| s@) == filter_map(pf.take(i as int), gn),
                ids@.len() == names@.len(),
                forall|k: int| 0 <= k < ids@.len() ==> #[trigger] ids@[k] < t.len(),
                forall|k: int| 0 <= k < ids@.len() ==> entry_name(t, #[trigger] ids@[k] as nat) == Some(names@[k]@),
            decreases pes@.len() - i,
        {
            proof {
                lemma_filter_map_step(pf, gp, i as int);
                lemma_filter_map_step(pf, gn, i as int);
            }
            let pe = pes[i];
            assert(pf[i as int] == pe as nat);
            if let Some(n) = self.entry_name(pe) {
                let ghost bi = ids@;
                let ghost bn = names@;
                ids.push(pe);
                names.push(n);
                assert(ids@.map_values(|c: usize| c as nat) =~= bi.map_values(|c: usize| c as nat).push(pe as nat));
                assert(names@.map_values(|s: String| s@) =~= bn.map_values(|s: String| s@).push(n@));
            }
            i = i + 1;
        }
        proof {
            lemma_take_full(pf);
        }
        (ids, names)
    }

    /// The option texts of an options node.
    pub fn option_strings(&self, o: usize) -> (r: Vec<String>)
        ensures
            r@.map_values(|s: String| s@) == option_strings(self.tree@, o as nat),
    {
        let ghost t = self.tree@;
        let items = self.tree.children_of_kind(o, OPTION_ITEM);
        let ghost itf = children_of_kind(t, o as nat, OPTION_ITEM);
        let ghost g = |it: nat| match first_child_of_kind(t, it, OPTION) {
            Some(x) => Some(t[x as int].text),
            None => None,
        };
        let mut out: Vec<String> = Vec::new();
        let mut i: usize = 0;
        while i < items.len()
            invariant
                t == self.tree@,
                itf == children_of_kind(t, o as nat, OPTION_ITEM),
                items@.map_values(|c: usize| c as nat) == itf,
                g == (|it: nat| match first_child_of_kind(t, it, OPTION) {
                    Some(x) => Some(t[x as int].text),
                    None => None,
                }),
                i <= items@.len(),
                out@.map_values(|s: String| s@) == filter_map(itf.take(i as int), g),
            decreases items@.len() - i,
        {
            assert(itf[i as int] == items@[i as int] as nat);
            proof {
                lemma_filter_map_step(itf, g, i as int);
            }
            if let Some(x) = self.tree.first_child_of_kind(items[i], OPTION) {
                let s = self.tree.text_of(x).clone();
                let ghost before = out@;
                out.push(s);
                assert(out@.map_values(|s: String| s@) =~= before.map_values(|s: String| s@).push(s@));
            }
            i = i + 1;
        }
        proof {
            lemma_take_full(itf);
        }
        out
    }
}

} // verus!
