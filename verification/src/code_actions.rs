//! Code actions for patch files: remove a hunk, reverse it, split it in two,
//! or fix the line counts in its header.
use vstd::prelude::*;
use vstd::string::{StringExecFns, StringSliceAdditionalSpecFns};
use crate::hunk_header::{counts_mismatch, header_of, is_plain_range, is_plain_tail, lemma_reverse_header_twice, reverse_hunk_header, spec_reverse_hunk_header};
use crate::lsp::{
    flat_map, lemma_flat_map_step, lemma_take_full, ActionKind, CodeAction, CodeActionView,
    TextEdit, TextEditView,
};
use crate::patch::{hunk_header, hunks, patch_files, spec_fixed_header, fixed_hunk_header, PatchDocument, HUNK_HEADER};
use crate::position::{
    fits, range_is_ordered, spec_offset_to_position, spec_position_to_offset,
    text_range_to_lsp_range, try_lsp_range_to_text_range, Range, TextRange,
};
use crate::syntax::{lsp_range, ElementView};
use crate::text::{chars_of, has_prefix, lines_of, push_chars, push_str, split_lines};

verus! {

/// A line of a hunk with its sides swapped: a header reversed, `-` and `+`
/// lines exchanged, other lines kept.
pub open spec fn reverse_line(line: Seq<char>) -> Seq<char> {
    if has_prefix(line, "@@"@) {
        spec_reverse_hunk_header(line)
    } else if line.len() > 0 && line[0] == '-' {
        seq!['+'] + line.drop_first()
    } else if line.len() > 0 && line[0] == '+' {
        seq!['-'] + line.drop_first()
    } else {
        line
    }
}

/// The first `n` lines reversed, each followed by a newline.
pub open spec fn reversed_lines(lines: Seq<Seq<char>>, n: nat) -> Seq<char>
    decreases n,
{
    if n == 0 || n > lines.len() {
        Seq::empty()
    } else {
        reversed_lines(lines, (n - 1) as nat) + reverse_line(lines[n - 1]) + seq!['\n']
    }
}

/// A hunk with its sides swapped, ending in a newline exactly when the hunk
/// does.
pub open spec fn spec_reverse_hunk(hunk: Seq<char>) -> Seq<char> {
    let ls = lines_of(hunk);
    let r = reversed_lines(ls, ls.len());
    if hunk.len() > 0 && hunk.last() == '\n' {
        r
    } else if r.len() > 0 {
        r.drop_last()
    } else {
        r
    }
}

/// Reverse a hunk's text by swapping `+` and `-` lines and the ranges in
/// its header.
pub fn reverse_hunk(hunk_text: &str) -> (r: String)
    ensures
        r@ == spec_reverse_hunk(hunk_text@),
{
    let cs = chars_of(hunk_text);
    let lines = split_lines(cs.as_slice());
    let ghost ls = lines_of(cs@);
    let marker = vec!['@', '@'];
    assert(marker@ =~= "@@"@) by {
        reveal_strlit("@@");
    }
    let mut out = String::new();
    let mut i: usize = 0;
    while i < lines.len()
        invariant
            ls == lines_of(hunk_text@),
            cs@ == hunk_text@,
            lines@.len() == ls.len(),
            forall|k: int| 0 <= k < lines@.len() ==> #[trigger] lines@[k]@ == ls[k],
            marker@ == "@@"@,
            i <= lines@.len(),
            out@ == reversed_lines(ls, i as nat),
        decreases lines@.len() - i,
    {
        let line = &lines[i];
        assert(line@ == ls[i as int]);
        let ghost before = out@;
        if crate::text::chars_start_with(line.as_slice(), marker.as_slice()) {
            let s = crate::text::string_of(line.as_slice());
            let rev = reverse_hunk_header(s.as_str());
            push_str(&mut out, rev.as_str());
        } else if line.len() > 0 && line[0] == '-' {
            out.push('+');
            let rest = crate::text::slice_chars(line.as_slice(), 1, line.len());
            assert(rest@ =~= line@.drop_first());
            push_chars(&mut out, rest.as_slice());
        } else if line.len() > 0 && line[0] == '+' {
            out.push('-');
            let rest = crate::text::slice_chars(line.as_slice(), 1, line.len());
            assert(rest@ =~= line@.drop_first());
            push_chars(&mut out, rest.as_slice());
        } else {
            push_chars(&mut out, line.as_slice());
        }
        out.push('\n');
        assert(out@ =~= before + reverse_line(ls[i as int]) + seq!['\n']);
        i = i + 1;
    }
    let n = cs.len();
    if !(n > 0 && cs[n - 1] == '\n') {
        let m = out.as_str().unicode_len();
        if m > 0 {
            let all = chars_of(out.as_str());
            let shorter = crate::text::slice_chars(all.as_slice(), 0, m - 1);
            assert(shorter@ =~= out@.drop_last());
            return crate::text::string_of(shorter.as_slice());
        }
    }
    out
}

/// The positions `0..n`.
pub open spec fn positions(n: nat) -> Seq<nat> {
    Seq::new(n, |k: int| k as nat)
}

/// Whether a hunk's span touches a byte range.
pub open spec fn overlaps(e: ElementView, tr: TextRange) -> bool {
    !(e.end < tr.start || e.start > tr.end)
}


pub open spec fn edit_action(title: Seq<char>, kind: ActionKind, edit: TextEditView, preferred: bool) -> CodeActionView {
    CodeActionView { title, kind, edits: seq![edit], command: None, is_preferred: preferred }
}

/// The actions on one hunk: remove it; fix its header's counts when they
/// are wrong; reverse it; split it where it can be split.
pub open spec fn hunk_actions(
    t: Seq<ElementView>,
    text: Seq<char>,
    bytes: Seq<u8>,
    tr: TextRange,
    fi: nat,
    hi: nat,
    h: nat,
) -> Seq<CodeActionView> {
    if !overlaps(t[h as int], tr) {
        Seq::empty()
    } else {
        let range = lsp_range(bytes, t[h as int]);
        let remove = edit_action("Remove hunk"@, ActionKind::Refactor, TextEditView { range, new_text: Seq::empty() }, false);
        let reverse = edit_action(
            "Reverse hunk"@,
            ActionKind::Refactor,
            TextEditView { range, new_text: spec_reverse_hunk(t[h as int].text) },
            false,
        );
        let fix: Seq<CodeActionView> = match crate::patch::hunk_header(t, h) {
            Some(hd) => if counts_mismatch(t, h) {
                match spec_fixed_header(text, fi, hi) {
                    Some(fixed) => seq![edit_action(
                        "Fix hunk line counts"@,
                        ActionKind::QuickFix,
                        TextEditView { range: lsp_range(bytes, t[hd as int]), new_text: fixed },
                        true,
                    )],
                    None => Seq::empty(),
                }
            } else {
                Seq::empty()
            },
            None => Seq::empty(),
        };
        let split: Seq<CodeActionView> = match crate::split::spec_split_text(t, h) {
            Some(parts) => seq![edit_action("Split hunk"@, ActionKind::Refactor, TextEditView { range, new_text: parts }, false)],
            None => Seq::empty(),
        };
        seq![remove] + fix + seq![reverse] + split
    }
}

pub open spec fn file_actions(
    t: Seq<ElementView>,
    text: Seq<char>,
    bytes: Seq<u8>,
    tr: TextRange,
    fi: nat,
) -> Seq<CodeActionView> {
    let hs = hunks(t, patch_files(t)[fi as int]);
    flat_map(positions(hs.len()), |hi: nat| hunk_actions(t, text, bytes, tr, fi, hi, hs[hi as int]))
}

/// The actions on the hunks that a range touches, in document order; none
/// when the range lies outside the text.
pub open spec fn spec_code_actions(t: Seq<ElementView>, text: Seq<char>, bytes: Seq<u8>, range: Range) -> Seq<CodeActionView> {
    match (spec_position_to_offset(bytes, range.start), spec_position_to_offset(bytes, range.end)) {
        (Some(s), Some(e)) => {
            let tr = TextRange { start: s as u32, end: e as u32 };
            flat_map(positions(patch_files(t).len()), |fi: nat| file_actions(t, text, bytes, tr, fi))
        },
        _ => Seq::empty(),
    }
}

fn single_edit_action(title: &str, kind: ActionKind, range: Range, new_text: String, preferred: bool) -> (r: CodeAction)
    ensures
        r@ == edit_action(title@, kind, TextEditView { range, new_text: new_text@ }, preferred),
{
    let edit = TextEdit { range, new_text };
    let mut edits = Vec::new();
    edits.push(edit);
    let r = CodeAction { title: String::from_str(title), kind, edits, command: None, is_preferred: preferred };
    assert(r@.edits =~= seq![edit@]);
    r
}

/// Get code actions available at the given range.
pub fn get_code_actions(patch: &PatchDocument, source_text: &str, range: Range) -> (r: Vec<CodeAction>)
    requires
        fits(source_text.spec_bytes()),
        range_is_ordered(source_text.spec_bytes(), range),
    ensures
        r@.map_values(|a: CodeAction| a@) == spec_code_actions(
            patch.tree@,
            source_text@,
            source_text.spec_bytes(),
            range,
        ),
{
    let ghost t = patch.tree@;
    let ghost text = source_text@;
    let ghost bytes = source_text.spec_bytes();
    let tr = match try_lsp_range_to_text_range(source_text, &range) {
        Some(tr) => tr,
        None => return Vec::new(),
    };
    let ghost ff = |fi: nat| file_actions(t, text, bytes, tr, fi);
    let files = patch.patch_files();
    let ghost pf = patch_files(t);
    let mut out: Vec<CodeAction> = Vec::new();
    let mut fi: usize = 0;
    while fi < files.len()
        invariant
            t == patch.tree@,
            text == source_text@,
            bytes == source_text.spec_bytes(),
            fits(bytes),
            ff == (|fi: nat| file_actions(t, text, bytes, tr, fi)),
            pf == patch_files(t),
            files@.map_values(|c: usize| c as nat) == pf,
            forall|k: int| 0 <= k < files@.len() ==> #[trigger] files@[k] < t.len(),
            fi <= files@.len(),
            out@.map_values(|a: CodeAction| a@) == flat_map(positions(pf.len()).take(fi as int), ff),
        decreases files@.len() - fi,
    {
        let f = files[fi];
        assert(pf[fi as int] == f as nat);
        let hs = patch.hunks(f);
        let ghost hf = hunks(t, f as nat);
        let ghost gh = |hi: nat| hunk_actions(t, text, bytes, tr, fi as nat, hi, hf[hi as int]);
        let ghost base = out@.map_values(|a: CodeAction| a@);
        let mut hi: usize = 0;
        while hi < hs.len()
            invariant
                t == patch.tree@,
                text == source_text@,
                bytes == source_text.spec_bytes(),
                fits(bytes),
                hf == hunks(t, f as nat),
                gh == (|hi: nat| hunk_actions(t, text, bytes, tr, fi as nat, hi, hf[hi as int])),
                hs@.map_values(|c: usize| c as nat) == hf,
                forall|k: int| 0 <= k < hs@.len() ==> #[trigger] hs@[k] < t.len(),
                hi <= hs@.len(),
                out@.map_values(|a: CodeAction| a@) == base + flat_map(positions(hf.len()).take(hi as int), gh),
            decreases hs@.len() - hi,
        {
            let h = hs[hi];
            assert(hf[hi as int] == h as nat);
            proof {
                lemma_flat_map_step(positions(hf.len()), gh, hi as int);
            }
            let ghost before = out@.map_values(|a: CodeAction| a@);
            let span = patch.tree.range_of(h);
            if !(span.end < tr.start || span.start > tr.end) {
                let lr = text_range_to_lsp_range(source_text, span);
                out.push(single_edit_action("Remove hunk", ActionKind::Refactor, lr, String::new(), false));
                if let Some(hd) = patch.tree.first_child_of_kind(h, HUNK_HEADER) {
                    if patch.counts_mismatch(h) {
                        if let Some(fixed) = fixed_hunk_header(source_text, fi, hi) {
                            let hr = text_range_to_lsp_range(source_text, patch.tree.range_of(hd));
                            out.push(single_edit_action("Fix hunk line counts", ActionKind::QuickFix, hr, fixed, true));
                        }
                    }
                }
                let reversed = reverse_hunk(patch.tree.text_of(h).as_str());
                out.push(single_edit_action("Reverse hunk", ActionKind::Refactor, lr, reversed, false));
                if let Some(parts) = patch.split_hunk_text(h) {
                    out.push(single_edit_action("Split hunk", ActionKind::Refactor, lr, parts, false));
                }
            }
            assert(out@.map_values(|a: CodeAction| a@) =~= before + gh(hi as nat));
            hi = hi + 1;
        }
        proof {
            lemma_take_full(positions(hf.len()));
            lemma_flat_map_step(positions(pf.len()), ff, fi as int);
            assert(out@.map_values(|a: CodeAction| a@) =~= flat_map(positions(pf.len()).take(fi + 1), ff));
        }
        fi = fi + 1;
    }
    proof {
        lemma_take_full(positions(pf.len()));
    }
    out
}

/// Reversing a line of a hunk twice gives it back: an added or deleted
/// line, any other line, or a header written as `@@ -A +B @@tail`.
pub proof fn lemma_reverse_line_twice(line: Seq<char>)
    requires
        !has_prefix(line, "@@"@) || exists|a: Seq<char>, b: Seq<char>, tail: Seq<char>|
            is_plain_range(a) && is_plain_range(b) && is_plain_tail(tail) && line == header_of(a, b, tail),
    ensures
        reverse_line(reverse_line(line)) == line,
{
    reveal_strlit("@@");
    if has_prefix(line, "@@"@) {
        let (a, b, tail) = choose|a: Seq<char>, b: Seq<char>, tail: Seq<char>|
            is_plain_range(a) && is_plain_range(b) && is_plain_tail(tail) && line == header_of(a, b, tail);
        lemma_reverse_header_twice(a, b, tail);
        crate::hunk_header::lemma_reverse_header_swaps(a, b, tail);
        let once = header_of(b, a, tail);
        assert(once.take(2) =~= seq!['@', '@']);
        assert("@@"@ =~= seq!['@', '@']);
        assert(has_prefix(once, "@@"@));
        assert(reverse_line(line) == once);
        assert(spec_reverse_hunk_header(once) == line);
    } else if line.len() > 0 && line[0] == '-' {
        let once = seq!['+'] + line.drop_first();
        assert(once[0] == '+');
        assert(!has_prefix(once, "@@"@)) by {
            if once.len() >= 2 {
                assert(once.take(2)[0] != "@@"@[0]);
            }
        }
        assert(once.drop_first() =~= line.drop_first());
        assert(seq!['-'] + line.drop_first() =~= line);
    } else if line.len() > 0 && line[0] == '+' {
        let once = seq!['-'] + line.drop_first();
        assert(once[0] == '-');
        assert(!has_prefix(once, "@@"@)) by {
            if once.len() >= 2 {
                assert(once.take(2)[0] != "@@"@[0]);
            }
        }
        assert(once.drop_first() =~= line.drop_first());
        assert(seq!['+'] + line.drop_first() =~= line);
    }
}

/// A hunk that a range touches gets, first, an action that deletes the
/// whole hunk; a fix of its header exactly when its counts are wrong (and
/// the fixed header exists), which replaces the header and is preferred;
/// then an action that replaces the hunk with its reversal. A hunk the range
/// does not touch gets none.
pub proof fn lemma_hunk_actions_edits(t: Seq<ElementView>, text: Seq<char>, bytes: Seq<u8>, tr: TextRange, fi: nat, hi: nat, h: nat)
    ensures
        !overlaps(t[h as int], tr) ==> hunk_actions(t, text, bytes, tr, fi, hi, h).len() == 0,
        overlaps(t[h as int], tr) ==> {
            let acts = hunk_actions(t, text, bytes, tr, fi, hi, h);
            let fix = hunk_header(t, h) is Some && counts_mismatch(t, h) && spec_fixed_header(text, fi, hi) is Some;
            let k: int = if fix { 2 } else { 1 };
            &&& acts.len() >= 2
            &&& acts[0].title == "Remove hunk"@
            &&& acts[0].edits == seq![TextEditView { range: lsp_range(bytes, t[h as int]), new_text: Seq::empty() }]
            &&& fix ==> acts[1].title == "Fix hunk line counts"@ && acts[1].is_preferred && acts[1].edits == seq![
                TextEditView {
                    range: lsp_range(bytes, t[hunk_header(t, h)->0 as int]),
                    new_text: spec_fixed_header(text, fi, hi)->0,
                },
            ]
            &&& acts[k].title == "Reverse hunk"@
            &&& acts[k].edits == seq![TextEditView { range: lsp_range(bytes, t[h as int]), new_text: spec_reverse_hunk(t[h as int].text) }]
            &&& !acts[k].is_preferred
        },
{
}

/// Reversing a line turns a deleted line into an added one and back, with
/// the same text after the sign, and keeps context lines as they are.
pub proof fn lemma_reverse_line_swaps_signs(line: Seq<char>)
    ensures
        line.len() > 0 && line[0] == '-' ==> reverse_line(line)[0] == '+' && reverse_line(line).drop_first() == line.drop_first()
            && reverse_line(line).len() == line.len(),
        line.len() > 0 && line[0] == '+' ==> reverse_line(line)[0] == '-' && reverse_line(line).drop_first() == line.drop_first()
            && reverse_line(line).len() == line.len(),
        line.len() > 0 && line[0] == ' ' ==> reverse_line(line) == line,
{
    reveal_strlit("@@");
    if line.len() > 0 && (line[0] == '-' || line[0] == '+' || line[0] == ' ') {
        assert(!has_prefix(line, "@@"@)) by {
            if line.len() >= 2 {
                assert(line.take(2)[0] == line[0]);
                assert("@@"@[0] == '@');
            }
        }
        if line[0] == '-' {
            assert((seq!['+'] + line.drop_first()).drop_first() =~= line.drop_first());
        } else if line[0] == '+' {
            assert((seq!['-'] + line.drop_first()).drop_first() =~= line.drop_first());
        }
    }
}

} // verus!
