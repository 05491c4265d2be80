//! Inlay hints for patch files: the added and deleted line counts at the
//! end of each hunk header.
use vstd::prelude::*;
use vstd::string::{StringExecFns, StringSliceAdditionalSpecFns};
use crate::code_actions::overlaps;
use crate::lsp::{filter_map, flat_map, lemma_filter_map_step, lemma_flat_map_step, lemma_take_full, InlayHint, InlayHintView};
use crate::patch::{hunk_header, hunk_stats, hunks, patch_files, PatchDocument, ADD_LINE, DELETE_LINE, HUNK_HEADER};
use crate::position::{fits, offset_to_position, range_is_ordered, spec_offset_to_position, spec_position_to_offset, try_lsp_range_to_text_range, Position, Range, TextRange};
use crate::syntax::{children_of_kind, ElementView};
use crate::text::{decimal, push_decimal, push_str};

verus! {

/// Where the line that ends at byte `e` ends before its line break: `e`
/// itself, or before a `\n` (and a `\r` before it) that ends there.
pub open spec fn before_break(bytes: Seq<u8>, e: nat) -> nat {
    if 0 < e <= bytes.len() && bytes[e - 1] == 10 {
        let k = (e - 1) as nat;
        if k > 0 && bytes[k - 1] == 13 {
            (k - 1) as nat
        } else {
            k
        }
    } else {
        e
    }
}

fn before_break_exec(text: &str, e: u32) -> (r: u32)
    ensures
        r == before_break(text.spec_bytes(), e as nat),
{
    let bytes = text.as_bytes();
    let n = e as usize;
    if 0 < n && n <= bytes.len() && bytes[n - 1] == 10 {
        let k = n - 1;
        if k > 0 && bytes[k - 1] == 13 {
            (k - 1) as u32
        } else {
            k as u32
        }
    } else {
        e
    }
}

/// The hint of a hunk: inside the requested byte range (when there is one),
/// with a header, and adding or deleting something; placed at the end of
/// the header's line, before its line break.
pub open spec fn hunk_hint(t: Seq<ElementView>, bytes: Seq<u8>, tr: Option<TextRange>, h: nat) -> Option<InlayHintView> {
    let (c, a, d) = hunk_stats(t, h);
    let in_range = match tr {
        Some(r) => overlaps(t[h as int], r),
        None => true,
    };
    match hunk_header(t, h) {
        None => None,
        Some(hd) => if !in_range || (a == 0 && d == 0) {
            None
        } else {
            let pos = spec_offset_to_position(bytes, before_break(bytes, t[hd as int].end as nat) as int);
            Some(InlayHintView { position: pos, label: " +"@ + decimal(a) + " −"@ + decimal(d) })
        },
    }
}

/// The byte range of a requested range, when both ends exist.
pub open spec fn requested(bytes: Seq<u8>, range: Range) -> Option<TextRange> {
    match (spec_position_to_offset(bytes, range.start), spec_position_to_offset(bytes, range.end)) {
        (Some(s), Some(e)) => Some(TextRange { start: s as u32, end: e as u32 }),
        _ => None,
    }
}

pub open spec fn spec_inlay_hints(t: Seq<ElementView>, bytes: Seq<u8>, range: Range) -> Seq<InlayHintView> {
    let tr = requested(bytes, range);
    flat_map(patch_files(t), |f: nat| filter_map(hunks(t, f), |h: nat| hunk_hint(t, bytes, tr, h)))
}

/// Generate inlay hints for hunks within the given range (the whole
/// document when the range lies outside it).
pub fn get_inlay_hints(patch: &PatchDocument, source_text: &str, range: Range) -> (r: Vec<InlayHint>)
    requires
        fits(source_text.spec_bytes()),
        range_is_ordered(source_text.spec_bytes(), range),
    ensures
        r@.map_values(|h: InlayHint| h@) == spec_inlay_hints(patch.tree@, source_text.spec_bytes(), range),
{
    let ghost t = patch.tree@;
    let ghost bytes = source_text.spec_bytes();
    let tr = try_lsp_range_to_text_range(source_text, &range);
    assert(tr == requested(bytes, range));
    let ghost ff = |f: nat| filter_map(hunks(t, f), |h: nat| hunk_hint(t, bytes, tr, h));
    let files = patch.patch_files();
    let ghost pf = patch_files(t);
    let mut out: Vec<InlayHint> = Vec::new();
    let mut fi: usize = 0;
    while fi < files.len()
        invariant
            t == patch.tree@,
            bytes == source_text.spec_bytes(),
            fits(bytes),
            ff == (|f: nat| filter_map(hunks(t, f), |h: nat| hunk_hint(t, bytes, tr, h))),
            pf == patch_files(t),
            files@.map_values(|c: usize| c as nat) == pf,
            fi <= files@.len(),
            out@.map_values(|h: InlayHint| h@) == flat_map(pf.take(fi as int), ff),
        decreases files@.len() - fi,
    {
        let f = files[fi];
        assert(pf[fi as int] == f as nat);
        proof {
            lemma_flat_map_step(pf, ff, fi as int);
        }
        let hs = patch.hunks(f);
        let ghost hf = hunks(t, f as nat);
        let ghost gh = |h: nat| hunk_hint(t, bytes, tr, h);
        let ghost base = out@.map_values(|h: InlayHint| h@);
        let mut hi: usize = 0;
        while hi < hs.len()
            invariant
                t == patch.tree@,
                bytes == source_text.spec_bytes(),
                fits(bytes),
                hf == hunks(t, f as nat),
                gh == (|h: nat| hunk_hint(t, bytes, tr, h)),
                hs@.map_values(|c: usize| c as nat) == hf,
                forall|k: int| 0 <= k < hs@.len() ==> #[trigger] hs@[k] < t.len(),
                hi <= hs@.len(),
                out@.map_values(|h: InlayHint| h@) == base + filter_map(hf.take(hi as int), gh),
            decreases hs@.len() - hi,
        {
            let h = hs[hi];
            assert(hf[hi as int] == h as nat);
            proof {
                lemma_filter_map_step(hf, gh, hi as int);
            }
            let span = patch.tree.range_of(h);
            let in_range = match tr {
                Some(r) => !(span.end < r.start || span.start > r.end),
                None => true,
            };
            if let Some(hd) = patch.tree.first_child_of_kind(h, HUNK_HEADER) {
                let st = patch.stats(h);
                if in_range && !(st.additions == 0 && st.deletions == 0) {
                    let pos = offset_to_position(source_text, before_break_exec(source_text, patch.tree.range_of(hd).end));
                    let mut label = String::from_str(" +");
                    push_decimal(&mut label, st.additions);
                    push_str(&mut label, " −");
                    push_decimal(&mut label, st.deletions);
                    let hint = InlayHint { position: pos, label };
                    assert(hint@.label =~= " +"@ + decimal(st.additions as nat) + " −"@ + decimal(st.deletions as nat));
                    let ghost b2 = out@.map_values(|h: InlayHint| h@);
                    out.push(hint);
                    assert(out@.map_values(|h: InlayHint| h@) =~= b2.push(hint@));
                }
            }
            hi = hi + 1;
        }
        proof {
            lemma_take_full(hf);
            assert(out@.map_values(|h: InlayHint| h@) =~= flat_map(pf.take(fi + 1), ff));
        }
        fi = fi + 1;
    }
    proof {
        lemma_take_full(pf);
    }
    out
}

/// A hunk gets a hint exactly when it has a header, lies in the requested
/// range (or none was given) and adds or deletes at least one line; the
/// hint reads `+` and the number of its added lines, `−` and the number of
/// its deleted lines.
pub proof fn lemma_hunk_hint_counts(t: Seq<ElementView>, bytes: Seq<u8>, tr: Option<TextRange>, h: nat)
    ensures
        hunk_hint(t, bytes, tr, h) is Some <==> (hunk_header(t, h) is Some && (match tr {
            Some(r) => !(t[h as int].end < r.start || t[h as int].start > r.end),
            None => true,
        }) && children_of_kind(t, h, ADD_LINE).len() + children_of_kind(t, h, DELETE_LINE).len() > 0),
        hunk_hint(t, bytes, tr, h) matches Some(hint) ==> hint.label == " +"@ + decimal(
            children_of_kind(t, h, ADD_LINE).len(),
        ) + " −"@ + decimal(children_of_kind(t, h, DELETE_LINE).len()),
{
}

/// A hunk's hint sits where its header's line ends: before the header's
/// closing `\n` (and a `\r` before it), or at the header's end when it has
/// no line break.
pub proof fn lemma_hunk_hint_at_line_end(t: Seq<ElementView>, bytes: Seq<u8>, tr: Option<TextRange>, h: nat)
    ensures
        hunk_hint(t, bytes, tr, h) matches Some(hint) ==> {
            let e = t[hunk_header(t, h)->0 as int].end as int;
            &&& (0 < e <= bytes.len() && bytes[e - 1] == 10 && e >= 2 && bytes[e - 2] == 13) ==> hint.position
                == spec_offset_to_position(bytes, e - 2)
            &&& (0 < e <= bytes.len() && bytes[e - 1] == 10 && !(e >= 2 && bytes[e - 2] == 13)) ==> hint.position
                == spec_offset_to_position(bytes, e - 1)
            &&& !(0 < e <= bytes.len() && bytes[e - 1] == 10) ==> hint.position == spec_offset_to_position(bytes, e)
        },
{
}

} // verus!
