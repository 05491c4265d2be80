//! Document highlights for quilt series files: from the patch entry under
//! the cursor, the names of every entry listing the same patch.
use vstd::prelude::*;
use vstd::string::StringSliceAdditionalSpecFns;
use crate::lsp::{filter_map, lemma_filter_map_all, lemma_filter_map_contains, lemma_filter_map_step, lemma_take_full, DocumentHighlight, HighlightKind};
use crate::position::{fits, spec_position_to_offset, try_position_to_offset, Position};
use crate::series::{entry_name, name_token, patch_entries, SeriesDocument, PATCH_NAME};
use crate::syntax::{is_child, lemma_children_bounds, lsp_range, ElementView};
use crate::text::str_eq;

verus! {

/// The first of the first `n` patch entries whose span holds the offset
/// (start included, end excluded).
pub open spec fn entry_holding(t: Seq<ElementView>, pes: Seq<nat>, off: nat, n: nat) -> Option<nat>
    decreases n,
{
    if n == 0 || n > pes.len() {
        None
    } else {
        match entry_holding(t, pes, off, (n - 1) as nat) {
            Some(pe) => Some(pe),
            None => if t[pes[n - 1] as int].start <= off < t[pes[n - 1] as int].end {
                Some(pes[n - 1])
            } else {
                None
            },
        }
    }
}

pub proof fn lemma_holding_stable(t: Seq<ElementView>, pes: Seq<nat>, off: nat, n: nat, m: nat)
    requires
        n <= m <= pes.len(),
        entry_holding(t, pes, off, n) is Some,
    ensures
        entry_holding(t, pes, off, m) == entry_holding(t, pes, off, n),
    decreases m,
{
    if m > n {
        lemma_holding_stable(t, pes, off, n, (m - 1) as nat);
    }
}

/// The highlight of an entry's name, when it names the target.
pub open spec fn name_highlight(t: Seq<ElementView>, bytes: Seq<u8>, target: Seq<char>, pe: nat) -> Option<DocumentHighlight> {
    if entry_name(t, pe) == Some(target) {
        match name_token(t, pe) {
            Some(n) => Some(DocumentHighlight { range: lsp_range(bytes, t[n as int]), kind: HighlightKind::Read }),
            None => None,
        }
    } else {
        None
    }
}

pub open spec fn spec_series_highlights(t: Seq<ElementView>, bytes: Seq<u8>, position: Position) -> Seq<DocumentHighlight> {
    let pes = patch_entries(t);
    match spec_position_to_offset(bytes, position) {
        None => Seq::empty(),
        Some(off) => match entry_holding(t, pes, off, pes.len()) {
            None => Seq::empty(),
            Some(pe) => match entry_name(t, pe) {
                None => Seq::empty(),
                Some(target) => filter_map(pes, |p: nat| name_highlight(t, bytes, target, p)),
            },
        },
    }
}

/// Get document highlights at the given position in a series file.
pub fn get_series_highlights(series: &SeriesDocument, source_text: &str, position: Position) -> (r: Vec<DocumentHighlight>)
    requires
        fits(source_text.spec_bytes()),
    ensures
        r@ == spec_series_highlights(series.tree@, source_text.spec_bytes(), position),
{
    let ghost t = series.tree@;
    let ghost bytes = source_text.spec_bytes();
    let offset = match try_position_to_offset(source_text, position) {
        None => return Vec::new(),
        Some(o) => o,
    };
    let pes = series.patch_entries();
    let ghost pf = patch_entries(t);
    let mut i: usize = 0;
    let mut found: Option<usize> = None;
    while i < pes.len() && found.is_none()
        invariant
            t == series.tree@,
            pf == patch_entries(t),
            pes@.map_values(|c: usize| c as nat) == pf,
            forall|k: int| 0 <= k < pes@.len() ==> #[trigger] pes@[k] < t.len(),
            i <= pes@.len(),
            found is None ==> entry_holding(t, pf, offset as nat, i as nat) is None,
            found matches Some(pe) ==> entry_holding(t, pf, offset as nat, i as nat) == Some(pe as nat)
                && pe < t.len(),
        decreases pes@.len() - i,
    {
        let pe = pes[i];
        assert(pf[i as int] == pe as nat);
        let span = series.tree.range_of(pe);
        if span.start <= offset && offset < span.end {
            found = Some(pe);
        }
        i = i + 1;
    }
    proof {
        if found is Some {
            lemma_holding_stable(t, pf, offset as nat, i as nat, pf.len());
        }
    }
    let target_entry = match found {
        None => return Vec::new(),
        Some(pe) => pe,
    };
    let target = match series.entry_name(target_entry) {
        None => return Vec::new(),
        Some(n) => n,
    };
    let ghost g = |p: nat| name_highlight(t, bytes, target@, p);
    let mut out: Vec<DocumentHighlight> = Vec::new();
    let mut j: usize = 0;
    while j < pes.len()
        invariant
            t == series.tree@,
            bytes == source_text.spec_bytes(),
            fits(bytes),
            pf == patch_entries(t),
            pes@.map_values(|c: usize| c as nat) == pf,
            forall|k: int| 0 <= k < pes@.len() ==> #[trigger] pes@[k] < t.len(),
            g == (|p: nat| name_highlight(t, bytes, target@, p)),
            j <= pes@.len(),
            out@ == filter_map(pf.take(j as int), g),
        decreases pes@.len() - j,
    {
        proof {
            lemma_filter_map_step(pf, g, j as int);
        }
        let pe = pes[j];
        assert(pf[j as int] == pe as nat);
        if let Some(name) = series.entry_name(pe) {
            if str_eq(name.as_str(), target.as_str()) {
                if let Some(n) = series.tree.first_child_of_kind(pe, PATCH_NAME) {
                    out.push(DocumentHighlight { range: series.tree.lsp_range_of(source_text, n), kind: HighlightKind::Read });
                }
            }
        }
        j = j + 1;
    }
    proof {
        lemma_take_full(pf);
    }
    out
}

/// A read highlight over a patch name token, of some patch entry, whose
/// text is `target`.
pub open spec fn reads_name(t: Seq<ElementView>, bytes: Seq<u8>, target: Seq<char>, h: DocumentHighlight) -> bool {
    h.kind == HighlightKind::Read && exists|pe: nat, n: nat|
        #![trigger is_child(t, pe, n)]
        is_child(t, pe, n) && t[n as int].kind == PATCH_NAME && t[n as int].text == target && h.range == lsp_range(bytes, t[n as int])
}

/// From the name of the entry under the cursor, a series file highlights,
/// as reads, the patch names of the entries with that same name, each of
/// them.
pub proof fn lemma_series_highlights_same_name(t: Seq<ElementView>, bytes: Seq<u8>, position: Position)
    ensures
        forall|j: int|
            0 <= j < spec_series_highlights(t, bytes, position).len() ==> ({
                let pes = patch_entries(t);
                let off = spec_position_to_offset(bytes, position)->0;
                let pe = entry_holding(t, pes, off, pes.len())->0;
                &&& entry_name(t, pe) is Some
                &&& reads_name(t, bytes, entry_name(t, pe)->0, #[trigger] spec_series_highlights(t, bytes, position)[j])
            }),
{
    let pes = patch_entries(t);
    if let Some(off) = spec_position_to_offset(bytes, position) {
        if let Some(pe) = entry_holding(t, pes, off, pes.len()) {
            if let Some(target) = entry_name(t, pe) {
                let g = |p: nat| name_highlight(t, bytes, target, p);
                let pr = |h: DocumentHighlight| reads_name(t, bytes, target, h);
                assert forall|k: int| 0 <= k < pes.len() implies (#[trigger] g(pes[k]) matches Some(a) ==> pr(a)) by {
                    let q = pes[k];
                    lemma_children_bounds(t, q, PATCH_NAME, t.len());
                    if let Some(n) = name_token(t, q) {
                        assert(is_child(t, q, n));
                    }
                }
                lemma_filter_map_all(pes, g, pr);
            }
        }
    }
}

/// Every entry that lists the name under the cursor has its name
/// highlighted.
pub proof fn lemma_series_highlights_every_listing(t: Seq<ElementView>, bytes: Seq<u8>, position: Position, k: int)
    requires
        0 <= k < patch_entries(t).len(),
        spec_position_to_offset(bytes, position) matches Some(off) && entry_holding(t, patch_entries(t), off, patch_entries(t).len())
            matches Some(pe) && entry_name(t, pe) is Some && entry_name(t, patch_entries(t)[k]) == entry_name(t, pe),
    ensures
        spec_series_highlights(t, bytes, position).contains(
            DocumentHighlight { range: lsp_range(bytes, t[name_token(t, patch_entries(t)[k])->0 as int]), kind: HighlightKind::Read },
        ),
{
    let pes = patch_entries(t);
    let off = spec_position_to_offset(bytes, position)->0;
    let pe = entry_holding(t, pes, off, pes.len())->0;
    let target = entry_name(t, pe)->0;
    let g = |p: nat| name_highlight(t, bytes, target, p);
    lemma_filter_map_contains(pes, g, k);
}

} // verus!
