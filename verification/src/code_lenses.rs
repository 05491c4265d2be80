//! Code lenses for patch files: for each hunk, how many context lines it
//! has (which bounds the useful `--fuzz`) and how many lines it adds and
//! deletes.
use vstd::prelude::*;
use vstd::string::StringSliceAdditionalSpecFns;
use crate::lsp::{filter_map, flat_map, lemma_filter_map_step, lemma_flat_map_step, lemma_take_full, CodeLens, CodeLensView};
use crate::patch::{hunk_header, hunk_stats, hunks, patch_files, PatchDocument, ADD_LINE, CONTEXT_LINE, DELETE_LINE, HUNK_HEADER};
use crate::position::{fits, offset_to_position, spec_offset_to_position, Position, Range};
use crate::syntax::{children_of_kind, ElementView};
use crate::text::{decimal, push_decimal, push_str};

verus! {

/// The label of a hunk's lens.
pub open spec fn lens_title(c: nat, a: nat, d: nat) -> Seq<char> {
    decimal(c) + " context, +"@ + decimal(a) + " −"@ + decimal(d)
}

/// The lens of a hunk: at the start of its header, if it has one.
pub open spec fn hunk_lens(t: Seq<ElementView>, bytes: Seq<u8>, h: nat) -> Option<CodeLensView> {
    match hunk_header(t, h) {
        None => None,
        Some(hd) => {
            let pos = spec_offset_to_position(bytes, t[hd as int].start as int);
            let (c, a, d) = hunk_stats(t, h);
            Some(CodeLensView { range: Range { start: pos, end: pos }, title: lens_title(c, a, d) })
        },
    }
}

pub open spec fn file_lenses(t: Seq<ElementView>, bytes: Seq<u8>, f: nat) -> Seq<CodeLensView> {
    filter_map(hunks(t, f), |h: nat| hunk_lens(t, bytes, h))
}

/// The lenses of a patch, file by file and hunk by hunk.
pub open spec fn spec_code_lenses(t: Seq<ElementView>, bytes: Seq<u8>) -> Seq<CodeLensView> {
    flat_map(patch_files(t), |f: nat| file_lenses(t, bytes, f))
}

/// The label `"<c> context, +<a> −<d>"`.
pub fn lens_label(c: u64, a: u64, d: u64) -> (r: String)
    ensures
        r@ == lens_title(c as nat, a as nat, d as nat),
{
    let mut s = String::new();
    push_decimal(&mut s, c);
    push_str(&mut s, " context, +");
    push_decimal(&mut s, a);
    push_str(&mut s, " −");
    push_decimal(&mut s, d);
    assert(s@ =~= lens_title(c as nat, a as nat, d as nat));
    s
}

/// Generate code lenses for a patch file.
pub fn get_code_lenses(patch: &PatchDocument, source_text: &str) -> (r: Vec<CodeLens>)
    requires
        fits(source_text.spec_bytes()),
    ensures
        r@.map_values(|l: CodeLens| l@) == spec_code_lenses(patch.tree@, source_text.spec_bytes()),
{
    let ghost t = patch.tree@;
    let ghost bytes = source_text.spec_bytes();
    let ghost ff = |f: nat| file_lenses(t, bytes, f);
    let files = patch.patch_files();
    let ghost pf = patch_files(t);
    let mut out: Vec<CodeLens> = Vec::new();
    let mut fi: usize = 0;
    while fi < files.len()
        invariant
            t == patch.tree@,
            bytes == source_text.spec_bytes(),
            fits(bytes),
            ff == (|f: nat| file_lenses(t, bytes, f)),
            pf == patch_files(t),
            files@.map_values(|c: usize| c as nat) == pf,
            forall|k: int| 0 <= k < files@.len() ==> #[trigger] files@[k] < t.len(),
            fi <= files@.len(),
            out@.map_values(|l: CodeLens| l@) == flat_map(pf.take(fi as int), ff),
        decreases files@.len() - fi,
    {
        let f = files[fi];
        assert(pf[fi as int] == f as nat);
        let hs = patch.hunks(f);
        let ghost hf = hunks(t, f as nat);
        let ghost gh = |h: nat| hunk_lens(t, bytes, h);
        let ghost base = out@.map_values(|l: CodeLens| l@);
        let mut hi: usize = 0;
        while hi < hs.len()
            invariant
                t == patch.tree@,
                bytes == source_text.spec_bytes(),
                fits(bytes),
                hf == hunks(t, f as nat),
                gh == (|h: nat| hunk_lens(t, bytes, h)),
                hs@.map_values(|c: usize| c as nat) == hf,
                hi <= hs@.len(),
                out@.map_values(|l: CodeLens| l@) == base + filter_map(hf.take(hi as int), gh),
            decreases hs@.len() - hi,
        {
            let h = hs[hi];
            assert(hf[hi as int] == h as nat);
            proof {
                lemma_filter_map_step(hf, gh, hi as int);
            }
            match patch.tree.first_child_of_kind(h, HUNK_HEADER) {
                None => {},
                Some(hd) => {
                    let st = patch.stats(h);
                    let pos = offset_to_position(source_text, patch.tree.range_of(hd).start);
                    let lens = CodeLens { range: Range { start: pos, end: pos }, title: lens_label(st.context, st.additions, st.deletions) };
                    let ghost before = out@;
                    out.push(lens);
                    assert(out@.map_values(|l: CodeLens| l@) =~= before.map_values(|l: CodeLens| l@).push(lens@));
                },
            }
            assert(out@.map_values(|l: CodeLens| l@) =~= base + filter_map(hf.take(hi + 1), gh));
            hi = hi + 1;
        }
        proof {
            lemma_take_full(hf);
            lemma_flat_map_step(pf, ff, fi as int);
            assert(out@.map_values(|l: CodeLens| l@) =~= flat_map(pf.take(fi + 1), ff));
        }
        fi = fi + 1;
    }
    proof {
        lemma_take_full(pf);
    }
    out
}

/// Every hunk with a header gets a lens at the header's start, reading the
/// number of its context lines, then `+` and its added lines, then `−` and
/// its deleted lines; a hunk without a header gets none.
pub proof fn lemma_hunk_lens_counts(t: Seq<ElementView>, bytes: Seq<u8>, h: nat)
    ensures
        hunk_lens(t, bytes, h) is Some <==> hunk_header(t, h) is Some,
        hunk_lens(t, bytes, h) matches Some(l) ==> {
            &&& l.title == decimal(children_of_kind(t, h, CONTEXT_LINE).len()) + " context, +"@ + decimal(
                children_of_kind(t, h, ADD_LINE).len(),
            ) + " −"@ + decimal(children_of_kind(t, h, DELETE_LINE).len())
            &&& l.range.start == spec_offset_to_position(bytes, t[hunk_header(t, h)->0 as int].start as int)
            &&& l.range.end == l.range.start
        },
{
}

} // verus!
