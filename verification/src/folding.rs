//! Folding ranges for patch files: each file diff and each hunk that spans
//! more than one line.
use vstd::prelude::*;
use vstd::string::StringSliceAdditionalSpecFns;
use crate::lsp::{filter_map, flat_map, lemma_filter_map_step, lemma_flat_map_step, lemma_take_full, FoldingRange, FoldingRangeView};
use crate::patch::{hunks, old_file, old_path, patch_files, PatchDocument, OLD_FILE};
use crate::position::{fits, offset_to_position, spec_offset_to_position};
use crate::syntax::ElementView;

verus! {

/// The fold of an element whose span covers more than one line.
pub open spec fn region(bytes: Seq<u8>, e: ElementView, collapsed: Option<Seq<char>>) -> Option<FoldingRangeView> {
    let s = spec_offset_to_position(bytes, e.start as int);
    let en = spec_offset_to_position(bytes, e.end as int);
    if s.line < en.line {
        Some(
            FoldingRangeView {
                start_line: s.line,
                start_character: Some(s.character),
                end_line: en.line,
                end_character: Some(en.character),
                collapsed_text: collapsed,
            },
        )
    } else {
        None
    }
}

pub open spec fn opt_seq<A>(o: Option<A>) -> Seq<A> {
    match o {
        Some(a) => seq![a],
        None => Seq::empty(),
    }
}

/// The folds of a file: the file itself (shown collapsed as its old path),
/// then its hunks.
pub open spec fn file_folds(t: Seq<ElementView>, bytes: Seq<u8>, f: nat) -> Seq<FoldingRangeView> {
    opt_seq(region(bytes, t[f as int], old_path(t, f))) + filter_map(
        hunks(t, f),
        |h: nat| region(bytes, t[h as int], None),
    )
}

pub open spec fn spec_folding_ranges(t: Seq<ElementView>, bytes: Seq<u8>) -> Seq<FoldingRangeView> {
    flat_map(patch_files(t), |f: nat| file_folds(t, bytes, f))
}

fn region_exec(patch: &PatchDocument, text: &str, e: usize, collapsed: Option<String>) -> (r: Option<FoldingRange>)
    requires
        fits(text.spec_bytes()),
        e < patch.tree@.len(),
    ensures
        r matches Some(f) ==> region(text.spec_bytes(), patch.tree@[e as int], match collapsed {
            Some(c) => Some(c@),
            None => None,
        }) == Some(f@),
        r is None ==> region(text.spec_bytes(), patch.tree@[e as int], match collapsed {
            Some(c) => Some(c@),
            None => None,
        }) is None,
{
    let span = patch.tree.range_of(e);
    let start = offset_to_position(text, span.start);
    let end = offset_to_position(text, span.end);
    if start.line < end.line {
        Some(FoldingRange {
            start_line: start.line,
            start_character: Some(start.character),
            end_line: end.line,
            end_character: Some(end.character),
            collapsed_text: collapsed,
        })
    } else {
        None
    }
}

/// Generate folding ranges for a patch file.
pub fn generate_folding_ranges(patch: &PatchDocument, source_text: &str) -> (r: Vec<FoldingRange>)
    requires
        fits(source_text.spec_bytes()),
    ensures
        r@.map_values(|f: FoldingRange| f@) == spec_folding_ranges(patch.tree@, source_text.spec_bytes()),
{
    let ghost t = patch.tree@;
    let ghost bytes = source_text.spec_bytes();
    let ghost ff = |f: nat| file_folds(t, bytes, f);
    let files = patch.patch_files();
    let ghost pf = patch_files(t);
    let mut out: Vec<FoldingRange> = Vec::new();
    let mut fi: usize = 0;
    while fi < files.len()
        invariant
            t == patch.tree@,
            bytes == source_text.spec_bytes(),
            fits(bytes),
            ff == (|f: nat| file_folds(t, bytes, f)),
            pf == patch_files(t),
            files@.map_values(|c: usize| c as nat) == pf,
            forall|k: int| 0 <= k < files@.len() ==> #[trigger] files@[k] < t.len(),
            fi <= files@.len(),
            out@.map_values(|f: FoldingRange| f@) == flat_map(pf.take(fi as int), ff),
        decreases files@.len() - fi,
    {
        let f = files[fi];
        assert(pf[fi as int] == f as nat);
        proof {
            lemma_flat_map_step(pf, ff, fi as int);
        }
        let ghost before = out@.map_values(|x: FoldingRange| x@);
        let collapsed = patch.header_path(patch.tree.first_child_of_kind(f, OLD_FILE));
        if let Some(r) = region_exec(patch, source_text, f, collapsed) {
            out.push(r);
        }
        let ghost base = before + opt_seq(region(bytes, t[f as int], old_path(t, f as nat)));
        assert(out@.map_values(|x: FoldingRange| x@) =~= base);
        let hs = patch.hunks(f);
        let ghost hf = hunks(t, f as nat);
        let ghost gh = |h: nat| region(bytes, t[h as int], None);
        let mut hi: usize = 0;
        while hi < hs.len()
            invariant
                t == patch.tree@,
                bytes == source_text.spec_bytes(),
                fits(bytes),
                hf == hunks(t, f as nat),
                gh == (|h: nat| region(bytes, t[h as int], None)),
                hs@.map_values(|c: usize| c as nat) == hf,
                forall|k: int| 0 <= k < hs@.len() ==> #[trigger] hs@[k] < t.len(),
                hi <= hs@.len(),
                out@.map_values(|x: FoldingRange| x@) == base + filter_map(hf.take(hi as int), gh),
            decreases hs@.len() - hi,
        {
            let h = hs[hi];
            assert(hf[hi as int] == h as nat);
            proof {
                lemma_filter_map_step(hf, gh, hi as int);
            }
            let ghost b2 = out@.map_values(|x: FoldingRange| x@);
            if let Some(r) = region_exec(patch, source_text, h, None) {
                out.push(r);
                assert(out@.map_values(|x: FoldingRange| x@) =~= b2.push(r@));
            }
            hi = hi + 1;
        }
        proof {
            lemma_take_full(hf);
            assert(out@.map_values(|x: FoldingRange| x@) =~= flat_map(pf.take(fi + 1), ff));
        }
        fi = fi + 1;
    }
    proof {
        lemma_take_full(pf);
    }
    out
}

/// An element folds exactly when its span covers more than one line, from
/// its start to its end.
pub proof fn lemma_region_spans_lines(bytes: Seq<u8>, e: ElementView, collapsed: Option<Seq<char>>)
    ensures
        region(bytes, e, collapsed) is Some <==> spec_offset_to_position(bytes, e.start as int).line
            < spec_offset_to_position(bytes, e.end as int).line,
        region(bytes, e, collapsed) matches Some(f) ==> {
            &&& f.start_line == spec_offset_to_position(bytes, e.start as int).line
            &&& f.start_character == Some(spec_offset_to_position(bytes, e.start as int).character)
            &&& f.end_line == spec_offset_to_position(bytes, e.end as int).line
            &&& f.end_character == Some(spec_offset_to_position(bytes, e.end as int).character)
            &&& f.collapsed_text == collapsed
        },
{
}

/// A file diff's folds: first the file itself, when it spans lines, shown
/// collapsed as its old path; after it only hunks, none collapsed.
pub proof fn lemma_file_folds(t: Seq<ElementView>, bytes: Seq<u8>, f: nat)
    ensures
        region(bytes, t[f as int], old_path(t, f)) matches Some(r) ==> file_folds(t, bytes, f)[0] == r
            && r.collapsed_text == old_path(t, f),
        forall|k: int|
            (if region(bytes, t[f as int], old_path(t, f)) is Some { 1int } else { 0int }) <= k < file_folds(t, bytes, f).len()
                ==> (#[trigger] file_folds(t, bytes, f)[k]).collapsed_text is None && file_folds(t, bytes, f)[k].start_line
                < file_folds(t, bytes, f)[k].end_line,
{
    let a = opt_seq(region(bytes, t[f as int], old_path(t, f)));
    let hs = hunks(t, f);
    let g = |h: nat| region(bytes, t[h as int], None);
    let b = filter_map(hs, g);
    assert(file_folds(t, bytes, f) == a + b);
    let p = |x: FoldingRangeView| x.collapsed_text is None && x.start_line < x.end_line;
    crate::lsp::lemma_filter_map_all(hs, g, p);
    assert forall|k: int| a.len() <= k < file_folds(t, bytes, f).len() implies (#[trigger] file_folds(t, bytes, f)[k]).collapsed_text is None
        && file_folds(t, bytes, f)[k].start_line < file_folds(t, bytes, f)[k].end_line by {
        assert(file_folds(t, bytes, f)[k] == b[k - a.len()]);
        assert(p(b[k - a.len()]));
    }
}

} // verus!
