//! Folding ranges for quilt series files: a comment line heads a section
//! that runs to the last patch entry before the next comment, and a block of
//! consecutive comment lines folds on its own.
use vstd::prelude::*;
use vstd::string::StringSliceAdditionalSpecFns;
use crate::lsp::{FoldingRange, FoldingRangeView};
use crate::position::{fits, offset_to_position, spec_offset_to_position};
use crate::series::{as_comment_line, as_patch_entry, entries, SeriesDocument, COMMENT_LINE, PATCH_ENTRY};
use crate::syntax::ElementView;
use crate::text::{chars_of, string_of, trim, trim_chars};

verus! {

/// The folds so far, the open section (its first line and its title), the
/// line it reaches, and the open block of consecutive comment lines (its
/// first line, its last line and the first line's text).
pub struct FoldState {
    pub ranges: Seq<FoldingRangeView>,
    pub section: Option<(u32, Seq<char>)>,
    pub end_line: u32,
    pub block: Option<(u32, u32, Seq<char>)>,
}

/// The fold of a section, when it spans more than its first line.
pub open spec fn close_section(ranges: Seq<FoldingRangeView>, section: Option<(u32, Seq<char>)>, end_line: u32) -> Seq<FoldingRangeView> {
    match section {
        Some((start_line, text)) => if start_line < end_line {
            ranges.push(
                FoldingRangeView {
                    start_line,
                    start_character: None,
                    end_line,
                    end_character: None,
                    collapsed_text: Some(text),
                },
            )
        } else {
            ranges
        },
        None => ranges,
    }
}

/// The fold of a comment block, when it spans more than one line.
pub open spec fn close_block(ranges: Seq<FoldingRangeView>, block: Option<(u32, u32, Seq<char>)>) -> Seq<FoldingRangeView> {
    match block {
        Some((first, last, text)) => close_section(ranges, Some((first, text)), last),
        None => ranges,
    }
}

/// One entry: a comment closes the open section, opens its own and joins or
/// opens the comment block; any other entry closes the comment block, and a
/// patch entry moves the section's end to the line before the one its span
/// ends on.
pub open spec fn fold_step(t: Seq<ElementView>, bytes: Seq<u8>, st: FoldState, e: nat) -> FoldState {
    let start = spec_offset_to_position(bytes, t[e as int].start as int);
    let end = spec_offset_to_position(bytes, t[e as int].end as int);
    match as_comment_line(t, e) {
        Some(c) => FoldState {
            ranges: close_section(st.ranges, st.section, st.end_line),
            section: Some((start.line, trim(t[c as int].text))),
            end_line: start.line,
            block: match st.block {
                Some((first, _last, text)) => Some((first, start.line, text)),
                None => Some((start.line, start.line, trim(t[c as int].text))),
            },
        },
        None => {
            let closed = FoldState { ranges: close_block(st.ranges, st.block), block: None, ..st };
            if as_patch_entry(t, e) is Some && end.line > 0 {
                FoldState { end_line: (end.line - 1) as u32, ..closed }
            } else {
                closed
            }
        },
    }
}

pub open spec fn fold_upto(t: Seq<ElementView>, bytes: Seq<u8>, es: Seq<nat>, n: nat) -> FoldState
    decreases n,
{
    if n == 0 || n > es.len() {
        FoldState { ranges: Seq::empty(), section: None, end_line: 0, block: None }
    } else {
        fold_step(t, bytes, fold_upto(t, bytes, es, (n - 1) as nat), es[n - 1])
    }
}

pub open spec fn spec_series_folding_ranges(t: Seq<ElementView>, bytes: Seq<u8>) -> Seq<FoldingRangeView> {
    let es = entries(t);
    let st = fold_upto(t, bytes, es, es.len());
    close_section(close_block(st.ranges, st.block), st.section, st.end_line)
}

fn close_section_exec(ranges: &mut Vec<FoldingRange>, section: Option<(u32, String)>, end_line: u32)
    ensures
        final(ranges)@.map_values(|f: FoldingRange| f@) == close_section(
            old(ranges)@.map_values(|f: FoldingRange| f@),
            match section {
                Some((l, s)) => Some((l, s@)),
                None => None,
            },
            end_line,
        ),
{
    if let Some((start_line, text)) = section {
        if start_line < end_line {
            let f = FoldingRange { start_line, start_character: None, end_line, end_character: None, collapsed_text: Some(text) };
            let ghost before = ranges@;
            ranges.push(f);
            assert(ranges@.map_values(|f: FoldingRange| f@) =~= before.map_values(|f: FoldingRange| f@).push(f@));
        }
    }
}

/// Generate folding ranges for a series file.
pub fn generate_series_folding_ranges(series: &SeriesDocument, source_text: &str) -> (r: Vec<FoldingRange>)
    requires
        fits(source_text.spec_bytes()),
    ensures
        r@.map_values(|f: FoldingRange| f@) == spec_series_folding_ranges(series.tree@, source_text.spec_bytes()),
{
    let ghost t = series.tree@;
    let ghost bytes = source_text.spec_bytes();
    let es = series.entries();
    let ghost ef = entries(t);
    let mut ranges: Vec<FoldingRange> = Vec::new();
    let mut section: Option<(u32, String)> = None;
    let mut end_line: u32 = 0;
    let mut block: Option<(u32, u32, String)> = None;
    let mut i: usize = 0;
    assert(ranges@.map_values(|f: FoldingRange| f@) =~= Seq::<FoldingRangeView>::empty());
    while i < es.len()
        invariant
            t == series.tree@,
            bytes == source_text.spec_bytes(),
            fits(bytes),
            ef == entries(t),
            es@.map_values(|c: usize| c as nat) == ef,
            forall|k: int| 0 <= k < es@.len() ==> #[trigger] es@[k] < t.len(),
            i <= es@.len(),
            fold_upto(t, bytes, ef, i as nat) == (FoldState {
                ranges: ranges@.map_values(|f: FoldingRange| f@),
                section: match section {
                    Some((l, s)) => Some((l, s@)),
                    None => None,
                },
                end_line,
                block: match block {
                    Some((f, l, s)) => Some((f, l, s@)),
                    None => None,
                },
            }),
        decreases es@.len() - i,
    {
        let e = es[i];
        assert(ef[i as int] == e as nat);
        let span = series.tree.range_of(e);
        let start = offset_to_position(source_text, span.start);
        let end = offset_to_position(source_text, span.end);
        match series.tree.first_child_of_kind(e, COMMENT_LINE) {
            Some(c) => {
                let old_section = section;
                section = None;
                close_section_exec(&mut ranges, old_section, end_line);
                let trimmed = trim_chars(chars_of(series.tree.text_of(c).as_str()).as_slice());
                let text = string_of(trimmed.as_slice());
                section = Some((start.line, text));
                end_line = start.line;
                let old_block = block;
                block = match old_block {
                    Some((first, _last, bt)) => Some((first, start.line, bt)),
                    None => Some((start.line, start.line, string_of(trimmed.as_slice()))),
                };
            },
            None => {
                let old_block = block;
                block = None;
                match old_block {
                    Some((first, last, bt)) => close_section_exec(&mut ranges, Some((first, bt)), last),
                    None => {},
                }
                if series.tree.first_child_of_kind(e, PATCH_ENTRY).is_some() && end.line > 0 {
                    end_line = end.line - 1;
                }
            },
        }
        i = i + 1;
    }
    assert(ef.len() == es@.len());
    match block {
        Some((first, last, bt)) => close_section_exec(&mut ranges, Some((first, bt)), last),
        None => {},
    }
    close_section_exec(&mut ranges, section, end_line);
    ranges
}

/// Every fold in the state spans more than its first line.
pub open spec fn folds_span_lines(ranges: Seq<FoldingRangeView>) -> bool {
    forall|k: int| 0 <= k < ranges.len() ==> (#[trigger] ranges[k]).start_line < ranges[k].end_line
}

proof fn lemma_close_keeps(ranges: Seq<FoldingRangeView>, section: Option<(u32, Seq<char>)>, end_line: u32)
    requires
        folds_span_lines(ranges),
    ensures
        folds_span_lines(close_section(ranges, section, end_line)),
{
    if let Some((start_line, text)) = section {
        if start_line < end_line {
            let r = close_section(ranges, section, end_line);
            assert forall|k: int| 0 <= k < r.len() implies (#[trigger] r[k]).start_line < r[k].end_line by {
                if k < ranges.len() {
                    assert(r[k] == ranges[k]);
                }
            }
        }
    }
}

proof fn lemma_fold_upto_spans(t: Seq<ElementView>, bytes: Seq<u8>, es: Seq<nat>, n: nat)
    ensures
        folds_span_lines(fold_upto(t, bytes, es, n).ranges),
    decreases n,
{
    if n > 0 && n <= es.len() {
        lemma_fold_upto_spans(t, bytes, es, (n - 1) as nat);
        let st = fold_upto(t, bytes, es, (n - 1) as nat);
        lemma_close_keeps(st.ranges, st.section, st.end_line);
        lemma_close_block_keeps(st.ranges, st.block);
    }
}

proof fn lemma_close_block_keeps(ranges: Seq<FoldingRangeView>, block: Option<(u32, u32, Seq<char>)>)
    requires
        folds_span_lines(ranges),
    ensures
        folds_span_lines(close_block(ranges, block)),
{
    if let Some((first, last, text)) = block {
        lemma_close_keeps(ranges, Some((first, text)), last);
    }
}

/// Every fold of a series file covers more than one line.
pub proof fn lemma_series_folds_span_lines(t: Seq<ElementView>, bytes: Seq<u8>)
    ensures
        folds_span_lines(spec_series_folding_ranges(t, bytes)),
{
    let es = entries(t);
    lemma_fold_upto_spans(t, bytes, es, es.len());
    let st = fold_upto(t, bytes, es, es.len());
    lemma_close_block_keeps(st.ranges, st.block);
    lemma_close_keeps(close_block(st.ranges, st.block), st.section, st.end_line);
}

} // verus!
