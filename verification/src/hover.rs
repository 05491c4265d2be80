//! Hover information for patch files: line ranges of a hunk header, the
//! path of a file header, the counts of a hunk or of a whole file diff.
use vstd::prelude::*;
use vstd::string::{StringExecFns, StringSliceAdditionalSpecFns};
use crate::hunk_header::{header_range, range_number};
use crate::lsp::{Hover, HoverView};
use crate::patch::{hunk_stats, hunks, ADD_LINE, CONTEXT_LINE, DELETE_LINE, new_path, old_path, PatchDocument, HUNK, HUNK_HEADER, NEW_FILE, OLD_FILE, PATCH_FILE, PATH, ROOT};
use crate::position::{fits, spec_position_to_offset, try_position_to_offset, Position};
use crate::symbols::{display_name, spec_file_name};
use crate::syntax::{ancestors, children_of_kind, first_child_of_kind, first_of_kinds, lsp_range, token_at, wf, ElementView};
use crate::text::{decimal, push_decimal, push_decimal_wide, push_str};

verus! {

/// `"<label>: lines <start>–<last>"` of a hunk range, a missing start
/// counting as 0 and a missing count as 1.
pub open spec fn range_line(t: Seq<ElementView>, label: Seq<char>, r: nat) -> Seq<char> {
    let start = match range_number(t, r, 0) {
        Some(s) => s,
        None => 0,
    };
    let count = match range_number(t, r, 1) {
        Some(c) => c,
        None => 1,
    };
    let last: nat = if count > 0 {
        (start + count - 1) as nat
    } else {
        start
    };
    label + ": lines "@ + decimal(start) + "–"@ + decimal(last as nat)
}

/// The hover text of a hunk header: the old, then the new range's lines,
/// joined by a markdown line break.
pub open spec fn header_hover_text(t: Seq<ElementView>, hd: nat) -> Seq<char> {
    let old: Seq<Seq<char>> = match header_range(t, hd, 0) {
        Some(r) => seq![range_line(t, "Old"@, r)],
        None => Seq::empty(),
    };
    let new: Seq<Seq<char>> = match header_range(t, hd, 1) {
        Some(r) => seq![range_line(t, "New"@, r)],
        None => Seq::empty(),
    };
    let parts = old + new;
    if parts.len() == 0 {
        Seq::empty()
    } else if parts.len() == 1 {
        parts[0]
    } else {
        parts[0] + "  \n"@ + parts[1]
    }
}

/// Sum of the first `n` hunks' additions (or deletions, `add` false).
pub open spec fn total(t: Seq<ElementView>, hs: Seq<nat>, n: nat, add: bool) -> nat
    decreases n,
{
    if n == 0 || n > hs.len() {
        0
    } else {
        let (_, a, d) = hunk_stats(t, hs[n - 1]);
        total(t, hs, (n - 1) as nat, add) + if add {
            a
        } else {
            d
        }
    }
}

/// The hover of a node: a hunk header, a file header, a hunk or a file diff.
pub open spec fn node_hover(t: Seq<ElementView>, bytes: Seq<u8>, n: nat) -> Option<HoverView> {
    let k = t[n as int].kind;
    if k == HUNK_HEADER {
        Some(HoverView { contents: header_hover_text(t, n), range: Some(lsp_range(bytes, t[n as int])) })
    } else if k == OLD_FILE || k == NEW_FILE {
        let label = if k == OLD_FILE {
            "Old file"@
        } else {
            "New file"@
        };
        match first_child_of_kind(t, n, PATH) {
            Some(p) => Some(HoverView { contents: "**"@ + label + "**: `"@ + t[p as int].text + "`"@, range: None }),
            None => None,
        }
    } else if k == HUNK {
        let (c, a, d) = hunk_stats(t, n);
        Some(HoverView {
            contents: "**Hunk**: +"@ + decimal(a) + " −"@ + decimal(d) + " ("@ + decimal(c) + " context lines)"@,
            range: Some(lsp_range(bytes, t[n as int])),
        })
    } else if k == PATCH_FILE {
        let hs = hunks(t, n);
        Some(HoverView {
            contents: "**"@ + spec_file_name(old_path(t, n), new_path(t, n)) + "**  \n"@ + decimal(hs.len())
                + " hunks, +"@ + decimal(total(t, hs, hs.len(), true)) + " −"@ + decimal(total(t, hs, hs.len(), false)),
            range: Some(lsp_range(bytes, t[n as int])),
        })
    } else {
        None
    }
}

/// The hover at a position: that of the nearest enclosing hunk header,
/// file header, hunk or file diff of the token there.
pub open spec fn spec_hover(t: Seq<ElementView>, bytes: Seq<u8>, position: Position) -> Option<HoverView> {
    match spec_position_to_offset(bytes, position) {
        None => None,
        Some(off) => match token_at(t, off) {
            None => None,
            Some(tok) => match first_of_kinds(
                t,
                ancestors(t, tok),
                seq![HUNK_HEADER, OLD_FILE, NEW_FILE, HUNK, PATCH_FILE, ROOT],
                0,
            ) {
                Some(n) => node_hover(t, bytes, n),
                None => None,
            },
        },
    }
}

fn range_line_exec(patch: &PatchDocument, label: &str, r: usize) -> (s: String)
    ensures
        s@ == range_line(patch.tree@, label@, r as nat),
{
    let start: u64 = match patch.range_number(r, 0) {
        Some(s) => s as u64,
        None => 0,
    };
    let count: u64 = match patch.range_number(r, 1) {
        Some(c) => c as u64,
        None => 1,
    };
    let last: u64 = if count > 0 {
        start + count - 1
    } else {
        start
    };
    let mut out = String::from_str(label);
    push_str(&mut out, ": lines ");
    push_decimal(&mut out, start);
    push_str(&mut out, "–");
    push_decimal(&mut out, last);
    assert(out@ =~= range_line(patch.tree@, label@, r as nat));
    out
}

/// Hover text of a hunk header.
pub fn hunk_header_hover(patch: &PatchDocument, source_text: &str, n: usize) -> (r: Hover)
    requires
        fits(source_text.spec_bytes()),
        n < patch.tree@.len(),
    ensures
        r@ == (HoverView { contents: header_hover_text(patch.tree@, n as nat), range: Some(lsp_range(source_text.spec_bytes(), patch.tree@[n as int])) }),
{
    let range = patch.tree.lsp_range_of(source_text, n);
    let old = match patch.header_range(n, 0) {
        Some(r) => Some(range_line_exec(patch, "Old", r)),
        None => None,
    };
    let new = match patch.header_range(n, 1) {
        Some(r) => Some(range_line_exec(patch, "New", r)),
        None => None,
    };
    let value = match (old, new) {
        (Some(o), Some(nw)) => {
            let mut s = o;
            push_str(&mut s, "  \n");
            push_str(&mut s, nw.as_str());
            s
        },
        (Some(o), None) => o,
        (None, Some(nw)) => nw,
        (None, None) => String::new(),
    };
    let r = Hover { contents: value, range: Some(range) };
    assert(r@.contents =~= header_hover_text(patch.tree@, n as nat));
    r
}

/// Hover text of a file header.
pub fn file_header_hover(patch: &PatchDocument, n: usize) -> (r: Option<Hover>)
    requires
        n < patch.tree@.len(),
        patch.tree@[n as int].kind == OLD_FILE || patch.tree@[n as int].kind == NEW_FILE,
    ensures
        r matches Some(h) ==> node_hover(patch.tree@, Seq::empty(), n as nat) == Some(h@),
        r is None ==> node_hover(patch.tree@, Seq::empty(), n as nat) is None,
{
    let is_old = patch.tree.kind_of(n) == OLD_FILE;
    let label = if is_old {
        "Old file"
    } else {
        "New file"
    };
    let p = match patch.tree.first_child_of_kind(n, PATH) {
        None => return None,
        Some(p) => p,
    };
    let mut s = String::from_str("**");
    push_str(&mut s, label);
    push_str(&mut s, "**: `");
    push_str(&mut s, patch.tree.text_of(p).as_str());
    push_str(&mut s, "`");
    let h = Hover { contents: s, range: None };
    assert(h@.contents =~= "**"@ + label@ + "**: `"@ + patch.tree@[p as int].text + "`"@);
    Some(h)
}

/// Hover text of a hunk.
pub fn hunk_hover(patch: &PatchDocument, source_text: &str, n: usize) -> (r: Hover)
    requires
        fits(source_text.spec_bytes()),
        n < patch.tree@.len(),
        patch.tree@[n as int].kind == HUNK,
    ensures
        node_hover(patch.tree@, source_text.spec_bytes(), n as nat) == Some(r@),
{
    let range = patch.tree.lsp_range_of(source_text, n);
    let st = patch.stats(n);
    let mut s = String::from_str("**Hunk**: +");
    push_decimal(&mut s, st.additions);
    push_str(&mut s, " −");
    push_decimal(&mut s, st.deletions);
    push_str(&mut s, " (");
    push_decimal(&mut s, st.context);
    push_str(&mut s, " context lines)");
    let h = Hover { contents: s, range: Some(range) };
    assert(h@.contents =~= "**Hunk**: +"@ + decimal(st.additions as nat) + " −"@ + decimal(st.deletions as nat) + " ("@
        + decimal(st.context as nat) + " context lines)"@);
    h
}

/// Hover text of a file diff.
pub fn patch_file_hover(patch: &PatchDocument, source_text: &str, n: usize) -> (r: Hover)
    requires
        fits(source_text.spec_bytes()),
        n < patch.tree@.len(),
        patch.tree@[n as int].kind == PATCH_FILE,
    ensures
        node_hover(patch.tree@, source_text.spec_bytes(), n as nat) == Some(r@),
{
    let ghost t = patch.tree@;
    let range = patch.tree.lsp_range_of(source_text, n);
    let hs = patch.hunks(n);
    let ghost hf = hunks(t, n as nat);
    let mut adds: u128 = 0;
    let mut dels: u128 = 0;
    let mut i: usize = 0;
    while i < hs.len()
        invariant
            t == patch.tree@,
            hf == hunks(t, n as nat),
            hs@.map_values(|c: usize| c as nat) == hf,
            i <= hs@.len(),
            adds as nat == total(t, hf, i as nat, true),
            dels as nat == total(t, hf, i as nat, false),
            adds <= i * 0x1_0000_0000_0000_0000,
            dels <= i * 0x1_0000_0000_0000_0000,
        decreases hs@.len() - i,
    {
        assert(hf[i as int] == hs@[i as int] as nat);
        let st = patch.stats(hs[i]);
        assert(i < 0x1_0000_0000_0000_0000);
        adds = adds + st.additions as u128;
        dels = dels + st.deletions as u128;
        i = i + 1;
    }
    let name = crate::symbols::file_name(patch, n);
    let mut s = String::from_str("**");
    push_str(&mut s, name.as_str());
    push_str(&mut s, "**  \n");
    push_decimal(&mut s, hs.len() as u64);
    push_str(&mut s, " hunks, +");
    push_decimal_wide(&mut s, adds);
    push_str(&mut s, " −");
    push_decimal_wide(&mut s, dels);
    let h = Hover { contents: s, range: Some(range) };
    assert(hf.len() == hs@.len());
    assert(h@.contents =~= "**"@ + spec_file_name(old_path(t, n as nat), new_path(t, n as nat)) + "**  \n"@
        + decimal(hf.len()) + " hunks, +"@ + decimal(total(t, hf, hf.len(), true)) + " −"@
        + decimal(total(t, hf, hf.len(), false)));
    h
}

/// Get hover information at a position.
pub fn get_hover(patch: &PatchDocument, source_text: &str, position: Position) -> (r: Option<Hover>)
    requires
        fits(source_text.spec_bytes()),
        wf(patch.tree@),
    ensures
        r matches Some(h) ==> spec_hover(patch.tree@, source_text.spec_bytes(), position) == Some(h@),
        r is None ==> spec_hover(patch.tree@, source_text.spec_bytes(), position) is None,
{
    let off = match try_position_to_offset(source_text, position) {
        None => return None,
        Some(o) => o,
    };
    let tok = match patch.tree.token_at(off) {
        None => return None,
        Some(t) => t,
    };
    let anc = patch.tree.ancestors(tok);
    let kinds = [HUNK_HEADER, OLD_FILE, NEW_FILE, HUNK, PATCH_FILE, ROOT];
    assert(kinds@ =~= seq![HUNK_HEADER, OLD_FILE, NEW_FILE, HUNK, PATCH_FILE, ROOT]);
    let n = match patch.tree.first_of_kinds(&anc, &kinds) {
        None => return None,
        Some(n) => n,
    };
    let k = patch.tree.kind_of(n);
    if k == HUNK_HEADER {
        Some(hunk_header_hover(patch, source_text, n))
    } else if k == OLD_FILE || k == NEW_FILE {
        file_header_hover(patch, n)
    } else if k == HUNK {
        Some(hunk_hover(patch, source_text, n))
    } else if k == PATCH_FILE {
        Some(patch_file_hover(patch, source_text, n))
    } else {
        None
    }
}

/// Hovering a hunk shows its line counts: after `+` the number of its
/// added lines, after `−` the number of its deleted lines, then the number
/// of its context lines, over the hunk's span.
pub proof fn lemma_hunk_hover_counts(t: Seq<ElementView>, bytes: Seq<u8>, n: nat)
    requires
        n < t.len(),
        t[n as int].kind == HUNK,
    ensures
        node_hover(t, bytes, n) == Some(HoverView {
            contents: "**Hunk**: +"@ + decimal(children_of_kind(t, n, ADD_LINE).len()) + " −"@ + decimal(
                children_of_kind(t, n, DELETE_LINE).len(),
            ) + " ("@ + decimal(children_of_kind(t, n, CONTEXT_LINE).len()) + " context lines)"@,
            range: Some(lsp_range(bytes, t[n as int])),
        }),
{
}

/// The lines of the kind that the first `n` hunks have between them.
pub open spec fn lines_in_hunks(t: Seq<ElementView>, hs: Seq<nat>, n: nat, kind: u16) -> nat
    decreases n,
{
    if n == 0 || n > hs.len() {
        0
    } else {
        lines_in_hunks(t, hs, (n - 1) as nat, kind) + children_of_kind(t, hs[n - 1], kind).len()
    }
}

pub(crate) proof fn lemma_totals_count_lines(t: Seq<ElementView>, hs: Seq<nat>, n: nat)
    ensures
        total(t, hs, n, true) == lines_in_hunks(t, hs, n, ADD_LINE),
        total(t, hs, n, false) == lines_in_hunks(t, hs, n, DELETE_LINE),
    decreases n,
{
    if n > 0 && n <= hs.len() {
        lemma_totals_count_lines(t, hs, (n - 1) as nat);
    }
}

/// Hovering a file diff shows its name, how many hunks it has, and how many
/// lines all its hunks add and delete together.
pub proof fn lemma_file_hover_totals(t: Seq<ElementView>, bytes: Seq<u8>, n: nat)
    requires
        n < t.len(),
        t[n as int].kind == PATCH_FILE,
    ensures
        node_hover(t, bytes, n) == Some(HoverView {
            contents: "**"@ + spec_file_name(old_path(t, n), new_path(t, n)) + "**  \n"@ + decimal(
                children_of_kind(t, n, HUNK).len(),
            ) + " hunks, +"@ + decimal(lines_in_hunks(t, hunks(t, n), hunks(t, n).len(), ADD_LINE)) + " −"@ + decimal(
                lines_in_hunks(t, hunks(t, n), hunks(t, n).len(), DELETE_LINE),
            ),
            range: Some(lsp_range(bytes, t[n as int])),
        }),
{
    lemma_totals_count_lines(t, hunks(t, n), hunks(t, n).len());
}

/// The start of a hunk range (0 when missing) and the last line it covers
/// (its start when it covers none).
pub open spec fn range_bounds(t: Seq<ElementView>, r: nat) -> (nat, nat) {
    let start = match range_number(t, r, 0) {
        Some(s) => s,
        None => 0,
    };
    let count = match range_number(t, r, 1) {
        Some(c) => c,
        None => 1,
    };
    (start, if count == 0 { start } else { (start + count - 1) as nat })
}

/// Hovering a header with both ranges shows the old range's lines, then
/// the new range's, each from its start to its last line.
pub proof fn lemma_header_hover_ranges(t: Seq<ElementView>, bytes: Seq<u8>, n: nat, r0: nat, r1: nat)
    requires
        n < t.len(),
        t[n as int].kind == HUNK_HEADER,
        header_range(t, n, 0) == Some(r0),
        header_range(t, n, 1) == Some(r1),
    ensures
        node_hover(t, bytes, n) == Some(HoverView {
            contents: "Old: lines "@ + decimal(range_bounds(t, r0).0) + "–"@ + decimal(range_bounds(t, r0).1) + "  \n"@
                + "New: lines "@ + decimal(range_bounds(t, r1).0) + "–"@ + decimal(range_bounds(t, r1).1),
            range: Some(lsp_range(bytes, t[n as int])),
        }),
{
    reveal_strlit("Old");
    reveal_strlit("New");
    reveal_strlit(": lines ");
    reveal_strlit("Old: lines ");
    reveal_strlit("New: lines ");
    assert("Old"@ + ": lines "@ =~= "Old: lines "@);
    assert("New"@ + ": lines "@ =~= "New: lines "@);
    let a = range_line(t, "Old"@, r0);
    let b = range_line(t, "New"@, r1);
    assert(a =~= "Old: lines "@ + decimal(range_bounds(t, r0).0) + "–"@ + decimal(range_bounds(t, r0).1));
    assert(b =~= "New: lines "@ + decimal(range_bounds(t, r1).0) + "–"@ + decimal(range_bounds(t, r1).1));
    let parts = seq![a] + seq![b];
    assert(parts =~= seq![a, b]);
    assert(parts.len() == 2 && parts[0] == a && parts[1] == b);
    assert(header_hover_text(t, n) == a + "  \n"@ + b);
    assert(a + "  \n"@ + b =~= "Old: lines "@ + decimal(range_bounds(t, r0).0) + "–"@ + decimal(range_bounds(t, r0).1) + "  \n"@
        + "New: lines "@ + decimal(range_bounds(t, r1).0) + "–"@ + decimal(range_bounds(t, r1).1));
}

} // verus!
