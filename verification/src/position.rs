//! Conversion between byte offsets and editor positions.
//!
//! Editors address text by (line, UTF-16 column); the syntax trees address it
//! by byte offset into the UTF-8 encoding. Every function here works on the
//! bytes of the text, so a column counts one unit for each character that
//! starts before the offset, two for a character of four UTF-8 bytes (those
//! are the characters outside the basic multilingual plane).
use vstd::prelude::*;
use vstd::string::StringSliceAdditionalSpecFns;
use vstd::utf8::*;
use crate::utf16_units::{lemma_text_units, lemma_units_monotone, units, units_upto};

verus! {

/// A zero-based line and UTF-16 column.
#[derive(Debug, Clone, Copy, PartialEq, Eq, Structural)]
pub struct Position {
    pub line: u32,
    pub character: u32,
}

/// A pair of positions.
#[derive(Debug, Clone, Copy, PartialEq, Eq, Structural)]
pub struct Range {
    pub start: Position,
    pub end: Position,
}

/// A byte span `[start, end)` of a document.
#[derive(Debug, Clone, Copy, PartialEq, Eq, Structural)]
pub struct TextRange {
    pub start: u32,
    pub end: u32,
}

impl Position {
    pub fn new(line: u32, character: u32) -> (r: Position)
        ensures
            r == (Position { line, character }),
    {
        Position { line, character }
    }
}

impl Range {
    pub fn new(start: Position, end: Position) -> (r: Range)
        ensures
            r == (Range { start, end }),
    {
        Range { start, end }
    }
}

pub const NEWLINE: u8 = 10;

/// How many UTF-16 units the byte adds to a column: nothing for a continuation
/// byte, two for the leading byte of a four-byte character, one otherwise.
pub open spec fn utf16_width(b: u8) -> nat {
    if is_continuation_byte(b) {
        0
    } else if is_leading_byte_width_4(b) {
        2
    } else {
        1
    }
}

/// Line and column reached after the first `n` bytes.
pub open spec fn position_after(bytes: Seq<u8>, n: nat) -> (nat, nat)
    decreases n,
{
    if n == 0 || n > bytes.len() {
        (0, 0)
    } else {
        let (l, c) = position_after(bytes, (n - 1) as nat);
        if bytes[n - 1] == NEWLINE {
            (l + 1, 0)
        } else {
            (l, c + utf16_width(bytes[n - 1]))
        }
    }
}

/// The position of a byte offset; offsets past the end stand for the end.
pub open spec fn spec_offset_to_position(bytes: Seq<u8>, offset: int) -> Position {
    let n: nat = if offset < 0 {
        0
    } else if offset <= bytes.len() {
        offset as nat
    } else {
        bytes.len()
    };
    let (l, c) = position_after(bytes, n);
    Position { line: l as u32, character: c as u32 }
}

/// Scanning from byte `i`, where `line` lines have ended and the current line
/// began at `start`: the byte offset at which line `target` begins.
pub open spec fn line_start_from(bytes: Seq<u8>, target: nat, i: nat, line: nat, start: nat) -> Option<nat>
    decreases bytes.len() - i,
{
    if line >= target {
        Some(start)
    } else if i >= bytes.len() {
        None
    } else if bytes[i as int] == NEWLINE {
        line_start_from(bytes, target, i + 1, line + 1, i + 1)
    } else {
        line_start_from(bytes, target, i + 1, line, start)
    }
}

/// Scanning a line from byte `i` at column `col`: the offset of the first
/// character at or past column `target`, or the end of the text when the last
/// line reaches it; nothing when the line ends first.
pub open spec fn column_offset_from(bytes: Seq<u8>, target: nat, i: nat, col: nat) -> Option<nat>
    decreases bytes.len() - i,
{
    if i >= bytes.len() {
        if col >= target {
            Some(bytes.len())
        } else {
            None
        }
    } else if is_continuation_byte(bytes[i as int]) {
        column_offset_from(bytes, target, i + 1, col)
    } else if col >= target {
        Some(i)
    } else if bytes[i as int] == NEWLINE {
        None
    } else {
        column_offset_from(bytes, target, i + 1, col + utf16_width(bytes[i as int]))
    }
}

/// The byte offset of a position, when the text has that line and the line
/// reaches that column.
pub open spec fn spec_position_to_offset(bytes: Seq<u8>, pos: Position) -> Option<nat> {
    match line_start_from(bytes, pos.line as nat, 0, 0, 0) {
        None => None,
        Some(s) => column_offset_from(bytes, pos.character as nat, s, 0),
    }
}

/// A text small enough that every offset, line and column fits the
/// editor's `u32` integers: every text of at most `u32::MAX` bytes (see
/// [`lemma_text_fits`]).
pub open spec fn fits(bytes: Seq<u8>) -> bool {
    bytes.len() <= 0xffff_ffff && units(bytes) <= 0xffff_ffff
}

pub proof fn lemma_position_bounds(bytes: Seq<u8>, n: nat)
    ensures
        position_after(bytes, n).0 <= n,
        position_after(bytes, n).1 <= units_upto(bytes, n),
    decreases n,
{
    if n > 0 && n <= bytes.len() {
        lemma_position_bounds(bytes, (n - 1) as nat);
    }
}

/// In a text that fits, every line and column fits a `u32`.
pub proof fn lemma_position_fits(bytes: Seq<u8>, n: nat)
    requires
        fits(bytes),
    ensures
        position_after(bytes, n).0 <= 0xffff_ffff,
        position_after(bytes, n).1 <= 0xffff_ffff,
        n <= bytes.len() ==> position_after(bytes, n).0 <= n,
{
    lemma_position_bounds(bytes, n);
    if n <= bytes.len() {
        lemma_units_monotone(bytes, n, bytes.len());
    }
}

/// Every text of at most `u32::MAX` bytes fits.
pub proof fn lemma_text_fits(text: &str)
    requires
        text.spec_bytes().len() <= 0xffff_ffff,
    ensures
        fits(text.spec_bytes()),
{
    lemma_text_units(text@);
}

/// Convert a byte offset to a position.
pub fn offset_to_position(text: &str, offset: u32) -> (r: Position)
    requires
        fits(text.spec_bytes()),
    ensures
        r == spec_offset_to_position(text.spec_bytes(), offset as int),
{
    let bytes = text.as_bytes();
    let n: usize = if (offset as usize) < bytes.len() {
        offset as usize
    } else {
        bytes.len()
    };
    let mut line: u32 = 0;
    let mut col: u32 = 0;
    let mut i: usize = 0;
    while i < n
        invariant
            bytes@ == text.spec_bytes(),
            n <= bytes@.len(),
            fits(bytes@),
            i <= n,
            (line as nat, col as nat) == position_after(bytes@, i as nat),
        decreases n - i,
    {
        proof {
            lemma_position_fits(bytes@, (i + 1) as nat);
        }
        let b = bytes[i];
        if b == NEWLINE {
            line = line + 1;
            col = 0;
        } else if !is_continuation(b) {
            if is_leading_four(b) {
                col = col + 2;
            } else {
                col = col + 1;
            }
        }
        i = i + 1;
    }
    Position { line, character: col }
}

/// Whether a byte continues a multi-byte character.
pub fn is_continuation(b: u8) -> (r: bool)
    ensures
        r == is_continuation_byte(b),
{
    0x80 <= b && b <= 0xbf
}

/// Whether a byte begins a four-byte character.
pub fn is_leading_four(b: u8) -> (r: bool)
    ensures
        r == is_leading_byte_width_4(b),
{
    0xf0 <= b && b <= 0xf7
}

/// Convert a byte range to a range of positions.
pub fn text_range_to_lsp_range(text: &str, range: TextRange) -> (r: Range)
    requires
        fits(text.spec_bytes()),
    ensures
        r.start == spec_offset_to_position(text.spec_bytes(), range.start as int),
        r.end == spec_offset_to_position(text.spec_bytes(), range.end as int),
{
    Range { start: offset_to_position(text, range.start), end: offset_to_position(text, range.end) }
}

/// Convert a position to a byte offset; `None` when the line does not exist
/// or ends before the column.
pub fn try_position_to_offset(text: &str, position: Position) -> (r: Option<u32>)
    requires
        fits(text.spec_bytes()),
    ensures
        r matches Some(o) ==> spec_position_to_offset(text.spec_bytes(), position) == Some(o as nat),
        r is None ==> spec_position_to_offset(text.spec_bytes(), position) is None,
{
    let bytes = text.as_bytes();
    let len = bytes.len();
    let ghost target = position.line as nat;
    let mut line: u32 = 0;
    let mut line_start: usize = 0;
    let mut i: usize = 0;
    while i < len && line < position.line
        invariant
            bytes@ == text.spec_bytes(),
            len == bytes@.len(),
            fits(bytes@),
            i <= len,
            line <= i,
            line_start <= i,
            target == position.line as nat,
            line_start_from(bytes@, target, 0, 0, 0) == line_start_from(
                bytes@,
                target,
                i as nat,
                line as nat,
                line_start as nat,
            ),
        decreases len - i,
    {
        proof {
            assert(line_start_from(bytes@, target, i as nat, line as nat, line_start as nat)
                == if bytes@[i as int] == NEWLINE {
                line_start_from(bytes@, target, (i + 1) as nat, (line + 1) as nat, (i + 1) as nat)
            } else {
                line_start_from(bytes@, target, (i + 1) as nat, line as nat, line_start as nat)
            });
        }
        if bytes[i] == NEWLINE {
            line = line + 1;
            line_start = i + 1;
        }
        i = i + 1;
    }
    if line < position.line {
        return None;
    }
    let ghost s = line_start as nat;
    let ghost ch = position.character as nat;
    assert(line_start_from(bytes@, target, 0, 0, 0) == Some(s));
    let mut col: u32 = 0;
    let mut j: usize = line_start;
    while j < len
        invariant
            bytes@ == text.spec_bytes(),
            len == bytes@.len(),
            fits(bytes@),
            line_start <= j <= len,
            ch == position.character as nat,
            s == line_start as nat,
            line_start_from(bytes@, position.line as nat, 0, 0, 0) == Some(s),
            col as nat + units_upto(bytes@, s) <= units_upto(bytes@, j as nat),
            column_offset_from(bytes@, ch, s, 0) == column_offset_from(bytes@, ch, j as nat, col as nat),
        decreases len - j,
    {
        let b = bytes[j];
        proof {
            lemma_units_monotone(bytes@, (j + 1) as nat, bytes@.len());
            assert(units_upto(bytes@, (j + 1) as nat) == units_upto(bytes@, j as nat) + utf16_width(b));
            assert(column_offset_from(bytes@, ch, j as nat, col as nat) == if is_continuation_byte(b) {
                column_offset_from(bytes@, ch, (j + 1) as nat, col as nat)
            } else if col >= ch {
                Some(j as nat)
            } else if b == NEWLINE {
                None
            } else {
                column_offset_from(bytes@, ch, (j + 1) as nat, col as nat + utf16_width(b))
            });
        }
        if !is_continuation(b) {
            if col >= position.character {
                return Some(j as u32);
            }
            if b == NEWLINE {
                return None;
            }
            if is_leading_four(b) {
                col = col + 2;
            } else {
                col = col + 1;
            }
        }
        j = j + 1;
    }
    if col >= position.character {
        Some(len as u32)
    } else {
        None
    }
}

/// Whether the start of a range does not lie after its end, where both exist.
pub open spec fn range_is_ordered(bytes: Seq<u8>, range: Range) -> bool {
    match (spec_position_to_offset(bytes, range.start), spec_position_to_offset(bytes, range.end)) {
        (Some(s), Some(e)) => s <= e,
        _ => true,
    }
}

/// Convert a range of positions to a byte range; `None` when either end is
/// out of bounds.
pub fn try_lsp_range_to_text_range(text: &str, range: &Range) -> (r: Option<TextRange>)
    requires
        fits(text.spec_bytes()),
        range_is_ordered(text.spec_bytes(), *range),
    ensures
        r matches Some(t) ==> {
            &&& spec_position_to_offset(text.spec_bytes(), range.start) == Some(t.start as nat)
            &&& spec_position_to_offset(text.spec_bytes(), range.end) == Some(t.end as nat)
            &&& t.start <= t.end
        },
        r is None ==> spec_position_to_offset(text.spec_bytes(), range.start) is None
            || spec_position_to_offset(text.spec_bytes(), range.end) is None,
{
    let start = match try_position_to_offset(text, range.start) {
        Some(s) => s,
        None => return None,
    };
    let end = match try_position_to_offset(text, range.end) {
        Some(e) => e,
        None => return None,
    };
    Some(TextRange { start, end })
}

/// Where the line holding byte `n` begins: just past the last newline
/// among the first `n` bytes, or the start of the text.
pub open spec fn line_start_before(bytes: Seq<u8>, n: nat) -> nat
    decreases n,
{
    if n == 0 || n > bytes.len() {
        0
    } else if bytes[n - 1] == NEWLINE {
        n
    } else {
        line_start_before(bytes, (n - 1) as nat)
    }
}

proof fn lemma_position_monotone(bytes: Seq<u8>, i: nat, j: nat)
    requires
        i <= j <= bytes.len(),
    ensures
        position_after(bytes, j).0 >= position_after(bytes, i).0,
        position_after(bytes, j).0 == position_after(bytes, i).0 ==> {
            &&& position_after(bytes, j).1 >= position_after(bytes, i).1
            &&& line_start_before(bytes, j) == line_start_before(bytes, i)
            &&& forall|k: int| i <= k < j ==> bytes[k] != NEWLINE
        },
    decreases j - i,
{
    if j > i {
        lemma_position_monotone(bytes, i, (j - 1) as nat);
    }
}

proof fn lemma_line_start_before(bytes: Seq<u8>, n: nat)
    requires
        n <= bytes.len(),
    ensures
        line_start_before(bytes, n) <= n,
        position_after(bytes, line_start_before(bytes, n)).0 == position_after(bytes, n).0,
        position_after(bytes, line_start_before(bytes, n)).1 == 0,
    decreases n,
{
    if n > 0 && bytes[n - 1] != NEWLINE {
        lemma_line_start_before(bytes, (n - 1) as nat);
    }
}

proof fn lemma_find_line(bytes: Seq<u8>, o: nat, i: nat)
    requires
        i <= o <= bytes.len(),
    ensures
        line_start_from(
            bytes,
            position_after(bytes, o).0,
            i,
            position_after(bytes, i).0,
            line_start_before(bytes, i),
        ) == Some(line_start_before(bytes, o)),
    decreases o - i,
{
    lemma_position_monotone(bytes, i, o);
    if position_after(bytes, i).0 < position_after(bytes, o).0 {
        lemma_find_line(bytes, o, i + 1);
    }
}

proof fn lemma_find_column(bytes: Seq<u8>, o: nat, i: nat)
    requires
        line_start_before(bytes, o) <= i <= o <= bytes.len(),
        o == bytes.len() || !is_continuation_byte(bytes[o as int]),
    ensures
        column_offset_from(bytes, position_after(bytes, o).1, i, position_after(bytes, i).1) == Some(
            o,
        ),
    decreases o - i,
{
    let s = line_start_before(bytes, o);
    lemma_line_start_before(bytes, o);
    lemma_position_monotone(bytes, s, i);
    lemma_position_monotone(bytes, i, o);
    if i < o {
        lemma_position_monotone(bytes, i + 1, o);
        lemma_find_column(bytes, o, i + 1);
    }
}

/// A position computed from a character boundary converts back to that
/// boundary.
pub proof fn lemma_position_roundtrip(bytes: Seq<u8>, offset: nat)
    requires
        fits(bytes),
        offset <= bytes.len(),
        offset == bytes.len() || !is_continuation_byte(bytes[offset as int]),
    ensures
        spec_position_to_offset(bytes, spec_offset_to_position(bytes, offset as int)) == Some(offset),
{
    lemma_position_fits(bytes, offset);
    lemma_find_line(bytes, offset, 0);
    lemma_line_start_before(bytes, offset);
    lemma_find_column(bytes, offset, line_start_before(bytes, offset));
}

/// Converting a character boundary of a text to a position and back gives
/// the boundary again.
pub proof fn lemma_text_offset_roundtrip(text: &str, offset: u32)
    requires
        text.spec_bytes().len() <= 0xffff_ffff,
        is_char_boundary(text.spec_bytes(), offset as int),
    ensures
        spec_position_to_offset(
            text.spec_bytes(),
            spec_offset_to_position(text.spec_bytes(), offset as int),
        ) == Some(offset as nat),
{
    let bytes = text.spec_bytes();
    lemma_text_fits(text);
    encode_utf8_valid_utf8(text@);
    if offset as int > bytes.len() {
        assert(false);
    }
    if (offset as int) < bytes.len() {
        is_char_boundary_iff_not_is_continuation_byte(bytes, offset as int);
    }
    lemma_position_roundtrip(bytes, offset as nat);
}

/// Whether position `a` comes no later than position `b`.
pub open spec fn position_le(a: Position, b: Position) -> bool {
    a.line < b.line || (a.line == b.line && a.character <= b.character)
}

/// Whether range `inner` lies within range `outer`.
pub open spec fn range_within(inner: Range, outer: Range) -> bool {
    position_le(outer.start, inner.start) && position_le(inner.end, outer.end)
}

/// A later offset never has an earlier position.
pub proof fn lemma_offset_to_position_monotone(bytes: Seq<u8>, a: int, b: int)
    requires
        fits(bytes),
        a <= b,
    ensures
        position_le(spec_offset_to_position(bytes, a), spec_offset_to_position(bytes, b)),
{
    let na: nat = if a < 0 { 0 } else if a <= bytes.len() { a as nat } else { bytes.len() };
    let nb: nat = if b < 0 { 0 } else if b <= bytes.len() { b as nat } else { bytes.len() };
    lemma_position_monotone(bytes, na, nb);
    lemma_position_fits(bytes, na);
    lemma_position_fits(bytes, nb);
}

/// How many line breaks the text has from byte `i` on.
pub open spec fn newlines_from(bytes: Seq<u8>, i: nat) -> nat
    decreases bytes.len() - i,
{
    if i >= bytes.len() {
        0
    } else {
        newlines_from(bytes, i + 1) + if bytes[i as int] == NEWLINE { 1nat } else { 0nat }
    }
}

/// The UTF-16 width of the line from byte `i` to its end.
pub open spec fn width_from(bytes: Seq<u8>, i: nat) -> nat
    decreases bytes.len() - i,
{
    if i >= bytes.len() || bytes[i as int] == NEWLINE {
        0
    } else {
        utf16_width(bytes[i as int]) + width_from(bytes, i + 1)
    }
}

proof fn lemma_line_start_none(bytes: Seq<u8>, target: nat, i: nat, line: nat, start: nat)
    ensures
        line_start_from(bytes, target, i, line, start) is None <==> line + newlines_from(bytes, i) < target,
    decreases bytes.len() - i,
{
    if line < target && i < bytes.len() {
        if bytes[i as int] == NEWLINE {
            lemma_line_start_none(bytes, target, i + 1, line + 1, i + 1);
        } else {
            lemma_line_start_none(bytes, target, i + 1, line, start);
        }
    }
}

proof fn lemma_column_none(bytes: Seq<u8>, target: nat, i: nat, col: nat)
    ensures
        column_offset_from(bytes, target, i, col) is None <==> col + width_from(bytes, i) < target,
    decreases bytes.len() - i,
{
    if i < bytes.len() {
        let b = bytes[i as int];
        if is_continuation_byte(b) {
            lemma_column_none(bytes, target, i + 1, col);
            assert(b != NEWLINE);
            assert(utf16_width(b) == 0);
        } else if col < target && b != NEWLINE {
            lemma_column_none(bytes, target, i + 1, col + utf16_width(b));
        }
    }
}

/// A position has no offset exactly when the text has fewer line breaks
/// than its line, or its line is narrower (in UTF-16 units) than its column.
pub proof fn lemma_position_to_offset_none(bytes: Seq<u8>, pos: Position)
    ensures
        spec_position_to_offset(bytes, pos) is None <==> (newlines_from(bytes, 0) < pos.line || width_from(
            bytes,
            line_start_from(bytes, pos.line as nat, 0, 0, 0)->0,
        ) < pos.character),
{
    lemma_line_start_none(bytes, pos.line as nat, 0, 0, 0);
    if let Some(s) = line_start_from(bytes, pos.line as nat, 0, 0, 0) {
        lemma_column_none(bytes, pos.character as nat, s, 0);
    }
}

} // verus!
