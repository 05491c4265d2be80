//! Applying an editor's content change to a document's text: a change with
//! a range replaces the characters between its two positions, one without
//! a range replaces the whole text.
use vstd::prelude::*;
use vstd::string::StringExecFns;
use crate::position::{Position, Range};
use crate::text::{chars_of, push_chars, push_str, slice_chars};

verus! {

/// UTF-16 units of a character.
pub open spec fn utf16_units(c: char) -> nat {
    if (c as u32) > 0xFFFF {
        2
    } else {
        1
    }
}

/// Scanning from character `i`, where `line` lines have ended and the
/// current one began at `start`: the index at which line `target` begins.
pub open spec fn line_start_chars(cs: Seq<char>, target: nat, i: nat, line: nat, start: nat) -> Option<nat>
    decreases cs.len() - i,
{
    if line >= target {
        Some(start)
    } else if i >= cs.len() {
        None
    } else if cs[i as int] == '\n' {
        line_start_chars(cs, target, i + 1, line + 1, i + 1)
    } else {
        line_start_chars(cs, target, i + 1, line, start)
    }
}

/// Scanning a line from character `i` at column `col`: the index of the
/// first character at or past column `target`, or the end of the text when
/// the last line reaches it; nothing when the line ends first.
pub open spec fn column_index_from(cs: Seq<char>, target: nat, i: nat, col: nat) -> Option<nat>
    decreases cs.len() - i,
{
    if i >= cs.len() {
        if col >= target {
            Some(cs.len())
        } else {
            None
        }
    } else if col >= target {
        Some(i)
    } else if cs[i as int] == '\n' {
        None
    } else {
        column_index_from(cs, target, i + 1, col + utf16_units(cs[i as int]))
    }
}

/// The character index of a position, when the text has that line and the
/// line reaches that column.
pub open spec fn char_index(cs: Seq<char>, pos: Position) -> Option<nat> {
    match line_start_chars(cs, pos.line as nat, 0, 0, 0) {
        None => None,
        Some(s) => column_index_from(cs, pos.character as nat, s, 0),
    }
}

/// The text after one change: the new text where there is no range; the
/// characters between the range's ends replaced where both ends lie in the
/// text in order; the text unchanged otherwise.
pub open spec fn spec_apply_change(cs: Seq<char>, range: Option<Range>, new_text: Seq<char>) -> Seq<char> {
    match range {
        None => new_text,
        Some(r) => match (char_index(cs, r.start), char_index(cs, r.end)) {
            (Some(s), Some(e)) => if s <= e {
                cs.take(s as int) + new_text + cs.skip(e as int)
            } else {
                cs
            },
            _ => cs,
        },
    }
}

proof fn lemma_line_start_bound(cs: Seq<char>, target: nat, i: nat, line: nat, start: nat)
    requires
        start <= i <= cs.len(),
    ensures
        line_start_chars(cs, target, i, line, start) matches Some(s) ==> s <= cs.len(),
    decreases cs.len() - i,
{
    if line < target && i < cs.len() {
        if cs[i as int] == '\n' {
            lemma_line_start_bound(cs, target, i + 1, line + 1, i + 1);
        } else {
            lemma_line_start_bound(cs, target, i + 1, line, start);
        }
    }
}

proof fn lemma_column_bound(cs: Seq<char>, target: nat, i: nat, col: nat)
    ensures
        column_index_from(cs, target, i, col) matches Some(s) ==> s <= cs.len(),
    decreases cs.len() - i,
{
    if i < cs.len() && col < target && cs[i as int] != '\n' {
        lemma_column_bound(cs, target, i + 1, col + utf16_units(cs[i as int]));
    }
}

/// The character index of a position in the text.
fn char_index_exec(cs: &[char], pos: Position) -> (r: Option<usize>)
    ensures
        r matches Some(i) ==> char_index(cs@, pos) == Some(i as nat),
        r is None ==> char_index(cs@, pos) is None,
{
    let mut i: usize = 0;
    let mut line: u64 = 0;
    let mut start: usize = 0;
    while (line as u64) < (pos.line as u64) && i < cs.len()
        invariant
            start <= i <= cs@.len(),
            line <= pos.line,
            line_start_chars(cs@, pos.line as nat, 0, 0, 0) == line_start_chars(cs@, pos.line as nat, i as nat, line as nat, start as nat),
        decreases cs@.len() - i,
    {
        if cs[i] == '\n' {
            line = line + 1;
            start = i + 1;
        }
        i = i + 1;
    }
    if line < pos.line as u64 {
        return None;
    }
    proof {
        lemma_line_start_bound(cs@, pos.line as nat, 0, 0, 0);
    }
    let mut j: usize = start;
    let mut col: u64 = 0;
    while j < cs.len() && col < pos.character as u64 && cs[j] != '\n'
        invariant
            start <= j <= cs@.len(),
            col <= pos.character as u64 + 1,
            char_index(cs@, pos) == column_index_from(cs@, pos.character as nat, j as nat, col as nat),
        decreases cs@.len() - j,
    {
        if (cs[j] as u32) > 0xFFFF {
            col = col + 2;
        } else {
            col = col + 1;
        }
        j = j + 1;
    }
    if j >= cs.len() {
        if col >= pos.character as u64 {
            Some(cs.len())
        } else {
            None
        }
    } else if col >= pos.character as u64 {
        Some(j)
    } else {
        None
    }
}

/// Apply one content change to a text.
pub fn apply_change(text: &str, range: Option<Range>, new_text: &str) -> (r: String)
    ensures
        r@ == spec_apply_change(text@, range, new_text@),
{
    let r = match range {
        None => return String::from_str(new_text),
        Some(r) => r,
    };
    let cs = chars_of(text);
    let s = char_index_exec(cs.as_slice(), r.start);
    let e = char_index_exec(cs.as_slice(), r.end);
    match (s, e) {
        (Some(s), Some(e)) => {
            proof {
                lemma_line_start_bound(text@, r.start.line as nat, 0, 0, 0);
                lemma_line_start_bound(text@, r.end.line as nat, 0, 0, 0);
                if let Some(ls) = line_start_chars(text@, r.start.line as nat, 0, 0, 0) {
                    lemma_column_bound(text@, r.start.character as nat, ls, 0);
                }
                if let Some(le) = line_start_chars(text@, r.end.line as nat, 0, 0, 0) {
                    lemma_column_bound(text@, r.end.character as nat, le, 0);
                }
            }
            if s <= e {
                let head = slice_chars(cs.as_slice(), 0, s);
                let tail = slice_chars(cs.as_slice(), e, cs.len());
                let mut out = String::new();
                push_chars(&mut out, head.as_slice());
                push_str(&mut out, new_text);
                push_chars(&mut out, tail.as_slice());
                assert(out@ =~= text@.take(s as int) + new_text@ + text@.skip(e as int));
                out
            } else {
                String::from_str(text)
            }
        },
        _ => String::from_str(text),
    }
}

/// Inserting at the very start of a text puts the new text before it.
pub proof fn lemma_insert_at_start(cs: Seq<char>, new_text: Seq<char>)
    ensures
        spec_apply_change(
            cs,
            Some(Range { start: Position { line: 0, character: 0 }, end: Position { line: 0, character: 0 } }),
            new_text,
        ) == new_text + cs,
{
    assert(char_index(cs, Position { line: 0, character: 0 }) == Some(0nat));
    assert(cs.take(0) + new_text + cs.skip(0) =~= new_text + cs);
}

/// A change that inserts nothing into an empty range leaves the text as it
/// was, wherever it points.
pub proof fn lemma_empty_change_keeps_text(cs: Seq<char>, p: Position)
    ensures
        spec_apply_change(cs, Some(Range { start: p, end: p }), Seq::empty()) == cs,
{
    if let Some(i) = char_index(cs, p) {
        lemma_line_start_bound(cs, p.line as nat, 0, 0, 0);
        let st = line_start_chars(cs, p.line as nat, 0, 0, 0)->0;
        lemma_column_bound(cs, p.character as nat, st, 0);
        assert(cs.take(i as int) + Seq::<char>::empty() + cs.skip(i as int) =~= cs);
    }
}

/// A change without a range replaces the whole text.
pub proof fn lemma_full_change_replaces(cs: Seq<char>, new_text: Seq<char>)
    ensures
        spec_apply_change(cs, None, new_text) == new_text,
{
}

} // verus!
