//! Smart selection for quilt series files: the token, then its patch
//! entry, comment or options, the entry, the whole file.
use vstd::prelude::*;
use vstd::string::StringSliceAdditionalSpecFns;
use crate::position::{fits, Position, Range};
use crate::selection_ranges::chains_upto;
use crate::series::{SeriesDocument, COMMENT_LINE, OPTIONS, PATCH_ENTRY, ROOT, SERIES_ENTRY};
use crate::syntax::{spec_selection_chain, wf};

verus! {

/// The node kinds a series selection grows through.
pub open spec fn series_selection_kinds() -> Seq<u16> {
    seq![PATCH_ENTRY, COMMENT_LINE, OPTIONS, SERIES_ENTRY, ROOT]
}

/// The selection chain at a position, innermost first.
pub fn selection_range_at(series: &SeriesDocument, source_text: &str, position: Position) -> (r: Option<Vec<Range>>)
    requires
        fits(source_text.spec_bytes()),
        wf(series.tree@),
    ensures
        r matches Some(v) ==> spec_selection_chain(series.tree@, source_text.spec_bytes(), position, series_selection_kinds()) == Some(v@),
        r is None ==> spec_selection_chain(series.tree@, source_text.spec_bytes(), position, series_selection_kinds()) is None,
{
    let kinds = [PATCH_ENTRY, COMMENT_LINE, OPTIONS, SERIES_ENTRY, ROOT];
    assert(kinds@ =~= series_selection_kinds());
    series.tree.selection_chain(source_text, position, &kinds)
}

/// Get selection ranges for the given positions in a series file.
pub fn get_series_selection_ranges(series: &SeriesDocument, source_text: &str, positions: &[Position]) -> (r: Vec<Vec<Range>>)
    requires
        fits(source_text.spec_bytes()),
        wf(series.tree@),
    ensures
        r@.map_values(|v: Vec<Range>| v@) == chains_upto(series.tree@, source_text.spec_bytes(), positions@, series_selection_kinds(), positions@.len()),
{
    let mut out: Vec<Vec<Range>> = Vec::new();
    let mut i: usize = 0;
    while i < positions.len()
        invariant
            fits(source_text.spec_bytes()),
            wf(series.tree@),
            i <= positions@.len(),
            out@.map_values(|v: Vec<Range>| v@) == chains_upto(series.tree@, source_text.spec_bytes(), positions@, series_selection_kinds(), i as nat),
        decreases positions@.len() - i,
    {
        let ghost before = out@.map_values(|v: Vec<Range>| v@);
        if let Some(c) = selection_range_at(series, source_text, positions[i]) {
            out.push(c);
            assert(out@.map_values(|v: Vec<Range>| v@) =~= before.push(c@));
        }
        i = i + 1;
    }
    out
}

} // verus!
