//! Smart selection for patch files: token, line, hunk header or hunk, file
//! diff, whole patch.
use vstd::prelude::*;
use vstd::string::StringSliceAdditionalSpecFns;
use crate::patch::{PatchDocument, ADD_LINE, CONTEXT_LINE, DELETE_LINE, HUNK, HUNK_HEADER, NEW_FILE, OLD_FILE, PATCH_FILE, ROOT};
use crate::position::{fits, spec_offset_to_position, Position, Range};
use crate::syntax::{chain_grows, lemma_selection_chain_grows, lemma_selection_chain_of_parsed, parsed_shape, spans_nest, spec_selection_chain, wf, ElementView};

verus! {

/// The node kinds a patch selection grows through.
pub open spec fn patch_selection_kinds() -> Seq<u16> {
    seq![CONTEXT_LINE, ADD_LINE, DELETE_LINE, OLD_FILE, NEW_FILE, HUNK_HEADER, HUNK, PATCH_FILE, ROOT]
}

/// The selection chain at a position, innermost first.
pub fn selection_range_at(patch: &PatchDocument, source_text: &str, position: Position) -> (r: Option<Vec<Range>>)
    requires
        fits(source_text.spec_bytes()),
        wf(patch.tree@),
    ensures
        r matches Some(v) ==> spec_selection_chain(patch.tree@, source_text.spec_bytes(), position, patch_selection_kinds()) == Some(v@),
        r is None ==> spec_selection_chain(patch.tree@, source_text.spec_bytes(), position, patch_selection_kinds()) is None,
{
    let kinds = [CONTEXT_LINE, ADD_LINE, DELETE_LINE, OLD_FILE, NEW_FILE, HUNK_HEADER, HUNK, PATCH_FILE, ROOT];
    assert(kinds@ =~= patch_selection_kinds());
    patch.tree.selection_chain(source_text, position, &kinds)
}

/// The selection chains of the positions that have one, in order.
pub open spec fn chains_upto(t: Seq<ElementView>, bytes: Seq<u8>, positions: Seq<Position>, kinds: Seq<u16>, n: nat) -> Seq<Seq<Range>>
    decreases n,
{
    if n == 0 || n > positions.len() {
        Seq::empty()
    } else {
        let rest = chains_upto(t, bytes, positions, kinds, (n - 1) as nat);
        match spec_selection_chain(t, bytes, positions[n - 1], kinds) {
            Some(c) => rest.push(c),
            None => rest,
        }
    }
}

/// Get selection ranges for the given positions.
pub fn get_selection_ranges(patch: &PatchDocument, source_text: &str, positions: &[Position]) -> (r: Vec<Vec<Range>>)
    requires
        fits(source_text.spec_bytes()),
        wf(patch.tree@),
    ensures
        r@.map_values(|v: Vec<Range>| v@) == chains_upto(patch.tree@, source_text.spec_bytes(), positions@, patch_selection_kinds(), positions@.len()),
{
    let mut out: Vec<Vec<Range>> = Vec::new();
    let mut i: usize = 0;
    while i < positions.len()
        invariant
            fits(source_text.spec_bytes()),
            wf(patch.tree@),
            i <= positions@.len(),
            out@.map_values(|v: Vec<Range>| v@) == chains_upto(patch.tree@, source_text.spec_bytes(), positions@, patch_selection_kinds(), i as nat),
        decreases positions@.len() - i,
    {
        let ghost before = out@.map_values(|v: Vec<Range>| v@);
        if let Some(c) = selection_range_at(patch, source_text, positions[i]) {
            out.push(c);
            assert(out@.map_values(|v: Vec<Range>| v@) =~= before.push(c@));
        }
        i = i + 1;
    }
    out
}

/// Every selection chain handed out grows outward, token first: each range
/// lies within the next one and differs from it, in a tree whose spans nest.
pub proof fn lemma_selection_ranges_grow(t: Seq<ElementView>, bytes: Seq<u8>, positions: Seq<Position>, kinds: Seq<u16>, n: nat)
    requires
        wf(t),
        spans_nest(t),
        fits(bytes),
    ensures
        forall|k: int| 0 <= k < chains_upto(t, bytes, positions, kinds, n).len() ==> chain_grows(
            #[trigger] chains_upto(t, bytes, positions, kinds, n)[k],
        ),
    decreases n,
{
    if n > 0 && n <= positions.len() {
        lemma_selection_ranges_grow(t, bytes, positions, kinds, (n - 1) as nat);
        lemma_selection_chain_grows(t, bytes, positions[n - 1], kinds);
        let rest = chains_upto(t, bytes, positions, kinds, (n - 1) as nat);
        let all = chains_upto(t, bytes, positions, kinds, n);
        assert forall|k: int| 0 <= k < all.len() implies chain_grows(#[trigger] all[k]) by {
            if k < rest.len() {
                assert(all[k] == rest[k]);
            }
        }
    }
}

/// For a parsed text (patch or series, by the root kind it names), every
/// selection chain handed out grows outward from its token to the whole
/// text: each range lies within the next and differs from it, and the last
/// runs from the start of the text to its end.
pub proof fn lemma_parsed_selection_ranges(t: Seq<ElementView>, bytes: Seq<u8>, positions: Seq<Position>, kinds: Seq<u16>, root_kind: u16, n: nat)
    requires
        parsed_shape(t, bytes, root_kind),
        kinds.contains(root_kind),
        fits(bytes),
    ensures
        forall|k: int| 0 <= k < chains_upto(t, bytes, positions, kinds, n).len() ==> {
            let c = #[trigger] chains_upto(t, bytes, positions, kinds, n)[k];
            &&& chain_grows(c)
            &&& c.last() == (Range { start: spec_offset_to_position(bytes, 0), end: spec_offset_to_position(bytes, bytes.len() as int) })
        },
    decreases n,
{
    if n > 0 && n <= positions.len() {
        lemma_parsed_selection_ranges(t, bytes, positions, kinds, root_kind, (n - 1) as nat);
        lemma_selection_chain_of_parsed(t, bytes, positions[n - 1], kinds, root_kind);
        let rest = chains_upto(t, bytes, positions, kinds, (n - 1) as nat);
        let all = chains_upto(t, bytes, positions, kinds, n);
        assert forall|k: int| 0 <= k < all.len() implies {
            let c = #[trigger] all[k];
            &&& chain_grows(c)
            &&& c.last() == (Range { start: spec_offset_to_position(bytes, 0), end: spec_offset_to_position(bytes, bytes.len() as int) })
        } by {
            if k < rest.len() {
                assert(all[k] == rest[k]);
            }
        }
    }
}

} // verus!
