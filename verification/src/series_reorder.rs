//! Reordering a quilt series: "Move patch up" and "Move patch down" swap a
//! patch entry with the entry before or after it.
use vstd::prelude::*;
use vstd::string::{StringExecFns, StringSliceAdditionalSpecFns};
use crate::code_actions::positions;
use crate::lsp::{flat_map, lemma_flat_map_step, lemma_take_full, ActionKind, CodeAction, CodeActionView, TextEdit, TextEditView};
use crate::position::{fits, range_is_ordered, spec_position_to_offset, try_lsp_range_to_text_range, Range, TextRange};
use crate::series::{as_patch_entry, entries, SeriesDocument, PATCH_ENTRY, SERIES_ENTRY};
use crate::syntax::{ancestors, is_child, lemma_children_bounds, lemma_children_increasing, lsp_range, parsed_shape, ElementView};
use vstd::utf8::encode_utf8;

verus! {

/// An action that swaps the texts of two spans.
pub open spec fn swap_action(title: Seq<char>, bytes: Seq<u8>, first: ElementView, second: ElementView) -> CodeActionView {
    CodeActionView {
        title,
        kind: ActionKind::Refactor,
        edits: seq![
            TextEditView { range: lsp_range(bytes, first), new_text: second.text },
            TextEditView { range: lsp_range(bytes, second), new_text: first.text },
        ],
        command: None,
        is_preferred: false,
    }
}

/// The actions on the `i`-th entry: for a patch entry touched by the range,
/// swapping it with the entry before it and with the one after it, where
/// they exist.
pub open spec fn entry_reorder_actions(t: Seq<ElementView>, bytes: Seq<u8>, tr: TextRange, i: nat) -> Seq<CodeActionView> {
    let es = entries(t);
    let e = t[es[i as int] as int];
    if e.end <= tr.start || e.start > tr.end || as_patch_entry(t, es[i as int]) is None {
        Seq::empty()
    } else {
        let up: Seq<CodeActionView> = if i > 0 {
            seq![swap_action("Move patch up"@, bytes, t[es[i - 1] as int], e)]
        } else {
            Seq::empty()
        };
        let down: Seq<CodeActionView> = if i + 1 < es.len() {
            seq![swap_action("Move patch down"@, bytes, e, t[es[(i + 1) as int] as int])]
        } else {
            Seq::empty()
        };
        up + down
    }
}

pub open spec fn spec_reorder_actions(t: Seq<ElementView>, bytes: Seq<u8>, range: Range) -> Seq<CodeActionView> {
    match (spec_position_to_offset(bytes, range.start), spec_position_to_offset(bytes, range.end)) {
        (Some(s), Some(e)) => {
            let tr = TextRange { start: s as u32, end: e as u32 };
            flat_map(positions(entries(t).len()), |i: nat| entry_reorder_actions(t, bytes, tr, i))
        },
        _ => Seq::empty(),
    }
}

fn swap_action_exec(series: &SeriesDocument, text: &str, title: &str, first: usize, second: usize) -> (r: CodeAction)
    requires
        fits(text.spec_bytes()),
        first < series.tree@.len(),
        second < series.tree@.len(),
    ensures
        r@ == swap_action(title@, text.spec_bytes(), series.tree@[first as int], series.tree@[second as int]),
{
    let e1 = TextEdit { range: series.tree.lsp_range_of(text, first), new_text: series.tree.text_of(second).clone() };
    let e2 = TextEdit { range: series.tree.lsp_range_of(text, second), new_text: series.tree.text_of(first).clone() };
    let mut edits = Vec::new();
    edits.push(e1);
    edits.push(e2);
    let r = CodeAction { title: String::from_str(title), kind: ActionKind::Refactor, edits, command: None, is_preferred: false };
    assert(r@.edits =~= seq![e1@, e2@]);
    r
}

/// Get reorder code actions for a series file at the given range.
pub fn get_reorder_actions(series: &SeriesDocument, source_text: &str, range: Range) -> (r: Vec<CodeAction>)
    requires
        fits(source_text.spec_bytes()),
        range_is_ordered(source_text.spec_bytes(), range),
    ensures
        r@.map_values(|a: CodeAction| a@) == spec_reorder_actions(series.tree@, source_text.spec_bytes(), range),
{
    let ghost t = series.tree@;
    let ghost bytes = source_text.spec_bytes();
    let tr = match try_lsp_range_to_text_range(source_text, &range) {
        Some(tr) => tr,
        None => return Vec::new(),
    };
    let es = series.entries();
    let ghost ef = entries(t);
    let ghost g = |i: nat| entry_reorder_actions(t, bytes, tr, i);
    let mut out: Vec<CodeAction> = Vec::new();
    let mut i: usize = 0;
    while i < es.len()
        invariant
            t == series.tree@,
            bytes == source_text.spec_bytes(),
            fits(bytes),
            ef == entries(t),
            es@.map_values(|c: usize| c as nat) == ef,
            forall|k: int| 0 <= k < es@.len() ==> #[trigger] es@[k] < t.len(),
            g == (|i: nat| entry_reorder_actions(t, bytes, tr, i)),
            i <= es@.len(),
            out@.map_values(|a: CodeAction| a@) == flat_map(positions(ef.len()).take(i as int), g),
        decreases es@.len() - i,
    {
        proof {
            lemma_flat_map_step(positions(ef.len()), g, i as int);
        }
        let e = es[i];
        assert(ef[i as int] == e as nat);
        let ghost before = out@.map_values(|a: CodeAction| a@);
        let span = series.tree.range_of(e);
        if !(span.end <= tr.start || span.start > tr.end) && series.tree.first_child_of_kind(e, PATCH_ENTRY).is_some() {
            if i > 0 {
                assert(ef[i - 1] == es@[i - 1] as nat);
                out.push(swap_action_exec(series, source_text, "Move patch up", es[i - 1], e));
            }
            if i + 1 < es.len() {
                assert(ef[i + 1] == es@[i + 1] as nat);
                out.push(swap_action_exec(series, source_text, "Move patch down", e, es[i + 1]));
            }
        }
        assert(out@.map_values(|a: CodeAction| a@) =~= before + g(i as nat));
        i = i + 1;
    }
    proof {
        lemma_take_full(positions(ef.len()));
    }
    out
}

/// Moving an entry up and moving the entry before it down are the same
/// edits: both exchange the texts of the two entries.
pub proof fn lemma_up_is_down_of_previous(t: Seq<ElementView>, bytes: Seq<u8>, tr: TextRange, i: nat)
    requires
        0 < i < entries(t).len(),
        entries(t).len() > 0,
        entry_reorder_actions(t, bytes, tr, i).len() > 0,
        entry_reorder_actions(t, bytes, tr, (i - 1) as nat).len() > 0,
    ensures
        entry_reorder_actions(t, bytes, tr, i)[0].edits == entry_reorder_actions(t, bytes, tr, (i - 1) as nat).last().edits,
{
}

/// A text with the bytes `[s1, e1)` replaced by `first` and `[s2, e2)` by
/// `second`: what two edits on spans in order make of it.
pub open spec fn apply_two_edits(bytes: Seq<u8>, s1: nat, e1: nat, first: Seq<u8>, s2: nat, e2: nat, second: Seq<u8>) -> Seq<u8> {
    bytes.take(s1 as int) + first + bytes.subrange(e1 as int, s2 as int) + second + bytes.skip(e2 as int)
}

/// Moving a patch entry down in a parsed series exchanges its text with the
/// next entry's and leaves everything else as it was; moving it back up
/// gives the text back. "Move patch down" replaces the entry's span with the
/// next entry's text and that entry's span with its own; applied to the
/// result, the same exchange of the two entries (the moved one now second)
/// restores the original bytes.
pub proof fn lemma_move_down_then_up_restores(t: Seq<ElementView>, bytes: Seq<u8>, tr: TextRange, i: nat)
    requires
        parsed_shape(t, bytes, crate::series::ROOT),
        i + 1 < entries(t).len(),
        entry_reorder_actions(t, bytes, tr, i).len() > 0,
    ensures
        ({
            let a = t[entries(t)[i as int] as int];
            let b = t[entries(t)[i + 1 as int] as int];
            let down = entry_reorder_actions(t, bytes, tr, i).last();
            let moved = apply_two_edits(
                bytes,
                a.start as nat,
                a.end as nat,
                encode_utf8(down.edits[0].new_text),
                b.start as nat,
                b.end as nat,
                encode_utf8(down.edits[1].new_text),
            );
            let pa = bytes.subrange(a.start as int, a.end as int);
            let pb = bytes.subrange(b.start as int, b.end as int);
            let gap = bytes.subrange(a.end as int, b.start as int);
            let m1 = (a.start + pb.len()) as nat;
            let m2 = (m1 + gap.len()) as nat;
            &&& a.start <= a.end <= b.start <= b.end <= bytes.len()
            &&& down.title == "Move patch down"@
            &&& down.edits[0].range == lsp_range(bytes, a)
            &&& down.edits[1].range == lsp_range(bytes, b)
            &&& moved == bytes.take(a.start as int) + pb + gap + pa + bytes.skip(b.end as int)
            &&& apply_two_edits(moved, a.start as nat, m1, moved.subrange(m2 as int, b.end as int), m2, b.end as nat, moved.subrange(a.start as int, m1 as int)) == bytes
        }),
{
    let es = entries(t);
    lemma_children_bounds(t, 0, SERIES_ENTRY, t.len());
    lemma_children_increasing(t, 0, SERIES_ENTRY, t.len());
    let x = es[i as int];
    let y = es[i + 1 as int];
    assert(x < y);
    assert(is_child(t, 0, x) && is_child(t, 0, y));
    assert(t[y as int].parent == 0);
    assert(ancestors(t, 0) =~= Seq::<nat>::empty());
    assert(ancestors(t, y) =~= seq![0nat]);
    assert(!ancestors(t, y).contains(x));
    assert(t[x as int].end <= t[y as int].start);
    let a = t[x as int];
    let b = t[y as int];
    assert(a.start <= a.end <= bytes.len());
    assert(encode_utf8(a.text) == bytes.subrange(a.start as int, a.end as int));
    assert(b.start <= b.end <= bytes.len());
    assert(encode_utf8(b.text) == bytes.subrange(b.start as int, b.end as int));
    let s0 = a.start as int;
    let e0 = b.end as int;
    let pa = bytes.subrange(s0, a.end as int);
    let pb = bytes.subrange(b.start as int, e0);
    let gap = bytes.subrange(a.end as int, b.start as int);
    let moved = bytes.take(s0) + pb + gap + pa + bytes.skip(e0);
    let m1 = s0 + pb.len();
    let m2 = m1 + gap.len();
    assert(moved.subrange(m2, e0) =~= pa);
    assert(moved.subrange(s0, m1) =~= pb);
    assert(moved.subrange(m1, m2) =~= gap);
    assert(moved.take(s0) =~= bytes.take(s0));
    assert(moved.skip(e0) =~= bytes.skip(e0));
    assert(bytes.take(s0) + pa + gap + pb + bytes.skip(e0) =~= bytes);
}

} // verus!
