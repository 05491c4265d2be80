//! Semantic tokens for patch files: file headers, hunk headers and the
//! added, deleted and context lines, each split per line (up to the end of
//! each line) and placed relative to the token before it.
use vstd::prelude::*;
use vstd::string::StringSliceAdditionalSpecFns;
use vstd::wrapping::u32_specs::wrapping_sub;
use crate::lsp::{lemma_filter_map_contains, decode_tokens, lemma_decode_prefix, lemma_decode_relative, lemma_filter_map_all, lemma_flat_map_all, filter_map, flat_map, lemma_filter_map_step, lemma_flat_map_step, lemma_take_full, SemanticToken};
use crate::patch::{hunk_header, hunks, new_file, old_file, patch_files, PatchDocument, ADD_LINE, CONTEXT_LINE, DELETE_LINE, HUNK_HEADER, NEW_FILE, OLD_FILE};
use crate::position::{fits, lemma_offset_to_position_monotone, offset_to_position, position_le, spec_offset_to_position, Position};
use crate::syntax::{children, ElementView};

verus! {

pub const TOKEN_FILE_HEADER: u32 = 0;
pub const TOKEN_HUNK_HEADER: u32 = 1;
pub const TOKEN_ADD_LINE: u32 = 2;
pub const TOKEN_DELETE_LINE: u32 = 3;
pub const TOKEN_CONTEXT_LINE: u32 = 4;

/// A byte span to highlight with a token type.
#[derive(Debug, Clone, Copy, PartialEq, Eq, Structural)]
pub struct TokenItem {
    pub start: u32,
    pub end: u32,
    pub token_type: u32,
}

/// Tokens emitted so far and the line and column of the last one.
pub type EmitState = (Seq<SemanticToken>, u32, u32);

/// The first newline at or after byte `i`, or the end of the text.
pub open spec fn next_newline(bytes: Seq<u8>, i: nat) -> nat
    decreases bytes.len() - i,
{
    if i >= bytes.len() {
        bytes.len()
    } else if bytes[i as int] == 10 {
        i
    } else {
        next_newline(bytes, i + 1)
    }
}

/// Start column and length of a node's token on one of its lines, where that
/// line's piece begins at byte `at`: on the node's only line the span
/// between its ends; on its last line up to its end; on its first line the
/// rest of the line, and on a middle line the whole line, measured up to the
/// line's newline.
pub open spec fn line_piece(bytes: Seq<u8>, s: Position, e: Position, line: nat, at: nat) -> (u32, u32) {
    let col: u32 = if line == s.line {
        s.character
    } else {
        0
    };
    let width = spec_offset_to_position(bytes, next_newline(bytes, at) as int).character;
    let length: u32 = if s.line == e.line {
        wrapping_sub(e.character, s.character)
    } else if line == e.line {
        e.character
    } else if width >= col {
        (width - col) as u32
    } else {
        0
    };
    (col, length)
}

/// Emit the tokens of lines `line ..= e.line` of a node, the first of them
/// beginning at byte `at`.
pub open spec fn emit_lines(bytes: Seq<u8>, s: Position, e: Position, ty: u32, line: nat, at: nat, st: EmitState) -> EmitState
    decreases e.line + 1 - line,
{
    if line > e.line {
        st
    } else {
        let (col, length) = line_piece(bytes, s, e, line, at);
        let next = if length == 0 {
            st
        } else {
            let (toks, prev_line, prev_col) = st;
            let delta_line = wrapping_sub(line as u32, prev_line);
            let delta_start = if delta_line == 0 {
                wrapping_sub(col, prev_col)
            } else {
                col
            };
            (
                toks.push(SemanticToken { delta_line, delta_start, length, token_type: ty }),
                line as u32,
                col,
            )
        };
        emit_lines(bytes, s, e, ty, line + 1, next_newline(bytes, at) + 1, next)
    }
}

pub open spec fn emit_item(bytes: Seq<u8>, st: EmitState, item: TokenItem) -> EmitState {
    let s = spec_offset_to_position(bytes, item.start as int);
    let e = spec_offset_to_position(bytes, item.end as int);
    emit_lines(bytes, s, e, item.token_type, s.line as nat, item.start as nat, st)
}

/// Emit the tokens of items in order, from nothing at line and column 0.
pub open spec fn emit_all(bytes: Seq<u8>, items: Seq<TokenItem>) -> EmitState
    decreases items.len(),
{
    if items.len() == 0 {
        (Seq::empty(), 0, 0)
    } else {
        emit_item(bytes, emit_all(bytes, items.drop_last()), items.last())
    }
}

/// Split a node into per-line tokens, each relative to the previous token.
pub fn emit_node(text: &str, start: u32, end: u32, token_type: u32, tokens: &mut Vec<SemanticToken>, prev_line: &mut u32, prev_col: &mut u32)
    requires
        fits(text.spec_bytes()),
    ensures
        (final(tokens)@, *final(prev_line), *final(prev_col)) == emit_item(
            text.spec_bytes(),
            (old(tokens)@, *old(prev_line), *old(prev_col)),
            TokenItem { start, end, token_type },
        ),
{
    let ghost bytes = text.spec_bytes();
    let s = offset_to_position(text, start);
    let e = offset_to_position(text, end);
    let ghost target = emit_item(bytes, (tokens@, *prev_line, *prev_col), TokenItem { start, end, token_type });
    let mut line: u64 = s.line as u64;
    let mut at: u64 = start as u64;
    let bytes_v = text.as_bytes();
    while line <= e.line as u64
        invariant
            s.line <= line <= 0x1_0000_0000,
            fits(bytes),
            bytes == text.spec_bytes(),
            bytes_v@ == bytes,
            at <= 0x1_0000_0000 + line,
            target == emit_lines(bytes, s, e, token_type, line as nat, at as nat, (tokens@, *prev_line, *prev_col)),
        decreases e.line as u64 + 1 - line,
    {
        let l = line as u32;
        let col: u32 = if l == s.line {
            s.character
        } else {
            0
        };
        let nl = next_newline_exec(bytes_v, at);
        let width = offset_to_position(text, nl as u32).character;
        let length: u32 = if s.line == e.line {
            e.character.wrapping_sub(s.character)
        } else if l == e.line {
            e.character
        } else if width >= col {
            width - col
        } else {
            0
        };
        if length != 0 {
            let delta_line = l.wrapping_sub(*prev_line);
            let delta_start = if delta_line == 0 {
                col.wrapping_sub(*prev_col)
            } else {
                col
            };
            tokens.push(SemanticToken { delta_line, delta_start, length, token_type });
            *prev_line = l;
            *prev_col = col;
        }
        at = nl + 1;
        line = line + 1;
    }
}

/// The first newline at or after byte `i`, or the end of the text.
fn next_newline_exec(bytes: &[u8], i: u64) -> (r: u64)
    requires
        bytes@.len() <= 0xffff_ffff,
    ensures
        r == next_newline(bytes@, i as nat),
        r <= bytes@.len(),
{
    if i >= bytes.len() as u64 {
        return bytes.len() as u64;
    }
    let mut j: usize = i as usize;
    while j < bytes.len() && bytes[j] != 10
        invariant
            i <= j <= bytes@.len(),
            next_newline(bytes@, i as nat) == next_newline(bytes@, j as nat),
        decreases bytes@.len() - j,
    {
        j = j + 1;
    }
    j as u64
}

/// Encode items as semantic tokens.
pub fn encode_items(text: &str, items: &Vec<TokenItem>) -> (r: Vec<SemanticToken>)
    requires
        fits(text.spec_bytes()),
    ensures
        r@ == emit_all(text.spec_bytes(), items@).0,
{
    let mut tokens: Vec<SemanticToken> = Vec::new();
    let mut prev_line: u32 = 0;
    let mut prev_col: u32 = 0;
    let mut i: usize = 0;
    while i < items.len()
        invariant
            fits(text.spec_bytes()),
            i <= items@.len(),
            (tokens@, prev_line, prev_col) == emit_all(text.spec_bytes(), items@.take(i as int)),
        decreases items@.len() - i,
    {
        assert(items@.take(i + 1).drop_last() =~= items@.take(i as int));
        let it = items[i];
        emit_node(text, it.start, it.end, it.token_type, &mut tokens, &mut prev_line, &mut prev_col);
        i = i + 1;
    }
    assert(items@.take(items@.len() as int) =~= items@);
    tokens
}

pub open spec fn item_of(t: Seq<ElementView>, i: nat, ty: u32) -> TokenItem {
    TokenItem { start: t[i as int].start, end: t[i as int].end, token_type: ty }
}

pub open spec fn opt_item(t: Seq<ElementView>, i: Option<nat>, ty: u32) -> Seq<TokenItem> {
    match i {
        Some(n) => seq![item_of(t, n, ty)],
        None => Seq::empty(),
    }
}

/// The token type of a hunk line.
pub open spec fn line_type(kind: u16) -> Option<u32> {
    if kind == ADD_LINE {
        Some(TOKEN_ADD_LINE)
    } else if kind == DELETE_LINE {
        Some(TOKEN_DELETE_LINE)
    } else if kind == CONTEXT_LINE {
        Some(TOKEN_CONTEXT_LINE)
    } else {
        None
    }
}

pub open spec fn hunk_items(t: Seq<ElementView>, h: nat) -> Seq<TokenItem> {
    opt_item(t, hunk_header(t, h), TOKEN_HUNK_HEADER) + filter_map(
        children(t, h),
        |c: nat| match line_type(t[c as int].kind) {
            Some(ty) => Some(item_of(t, c, ty)),
            None => None,
        },
    )
}

pub open spec fn file_items(t: Seq<ElementView>, f: nat) -> Seq<TokenItem> {
    opt_item(t, old_file(t, f), TOKEN_FILE_HEADER) + opt_item(t, new_file(t, f), TOKEN_FILE_HEADER) + flat_map(
        hunks(t, f),
        |h: nat| hunk_items(t, h),
    )
}

/// What a patch highlights, in order: each file's old and new header,
/// then for each hunk its header and its lines.
pub open spec fn token_items(t: Seq<ElementView>) -> Seq<TokenItem> {
    flat_map(patch_files(t), |f: nat| file_items(t, f))
}

fn push_opt_item(items: &mut Vec<TokenItem>, patch: &PatchDocument, i: Option<usize>, ty: u32)
    requires
        i matches Some(n) ==> n < patch.tree@.len(),
    ensures
        final(items)@ == old(items)@ + opt_item(patch.tree@, crate::patch::opt_nat(i), ty),
{
    if let Some(n) = i {
        let r = patch.tree.range_of(n);
        items.push(TokenItem { start: r.start, end: r.end, token_type: ty });
    }
    assert(items@ =~= old(items)@ + opt_item(patch.tree@, crate::patch::opt_nat(i), ty));
}

fn line_type_exec(kind: u16) -> (r: Option<u32>)
    ensures
        r == line_type(kind),
{
    if kind == ADD_LINE {
        Some(TOKEN_ADD_LINE)
    } else if kind == DELETE_LINE {
        Some(TOKEN_DELETE_LINE)
    } else if kind == CONTEXT_LINE {
        Some(TOKEN_CONTEXT_LINE)
    } else {
        None
    }
}

fn push_hunk_items(items: &mut Vec<TokenItem>, patch: &PatchDocument, h: usize)
    ensures
        final(items)@ == old(items)@ + hunk_items(patch.tree@, h as nat),
{
    let ghost t = patch.tree@;
    push_opt_item(items, patch, patch.tree.first_child_of_kind(h, HUNK_HEADER), TOKEN_HUNK_HEADER);
    let ghost base = items@;
    let cs = patch.tree.children(h);
    let ghost cf = children(t, h as nat);
    let ghost g = |c: nat| match line_type(t[c as int].kind) {
        Some(ty) => Some(item_of(t, c, ty)),
        None => None,
    };
    let mut i: usize = 0;
    while i < cs.len()
        invariant
            t == patch.tree@,
            cf == children(t, h as nat),
            cs@.map_values(|c: usize| c as nat) == cf,
            forall|k: int| 0 <= k < cs@.len() ==> #[trigger] cs@[k] < t.len(),
            g == (|c: nat| match line_type(t[c as int].kind) {
                Some(ty) => Some(item_of(t, c, ty)),
                None => None,
            }),
            i <= cs@.len(),
            items@ == base + filter_map(cf.take(i as int), g),
        decreases cs@.len() - i,
    {
        let c = cs[i];
        assert(cf[i as int] == c as nat);
        proof {
            lemma_filter_map_step(cf, g, i as int);
        }
        if let Some(ty) = line_type_exec(patch.tree.kind_of(c)) {
            let r = patch.tree.range_of(c);
            items.push(TokenItem { start: r.start, end: r.end, token_type: ty });
        }
        assert(items@ =~= base + filter_map(cf.take(i + 1), g));
        i = i + 1;
    }
    proof {
        lemma_take_full(cf);
    }
}

/// The spans a patch highlights.
pub fn collect_token_items(patch: &PatchDocument) -> (r: Vec<TokenItem>)
    ensures
        r@ == token_items(patch.tree@),
{
    let ghost t = patch.tree@;
    let ghost ff = |f: nat| file_items(t, f);
    let files = patch.patch_files();
    let ghost pf = patch_files(t);
    let mut items: Vec<TokenItem> = Vec::new();
    let mut fi: usize = 0;
    while fi < files.len()
        invariant
            t == patch.tree@,
            ff == (|f: nat| file_items(t, f)),
            pf == patch_files(t),
            files@.map_values(|c: usize| c as nat) == pf,
            fi <= files@.len(),
            items@ == flat_map(pf.take(fi as int), ff),
        decreases files@.len() - fi,
    {
        let f = files[fi];
        assert(pf[fi as int] == f as nat);
        proof {
            lemma_flat_map_step(pf, ff, fi as int);
        }
        let ghost before = items@;
        push_opt_item(&mut items, patch, patch.tree.first_child_of_kind(f, OLD_FILE), TOKEN_FILE_HEADER);
        push_opt_item(&mut items, patch, patch.tree.first_child_of_kind(f, NEW_FILE), TOKEN_FILE_HEADER);
        let ghost base = items@;
        let hs = patch.hunks(f);
        let ghost hf = hunks(t, f as nat);
        let ghost gh = |h: nat| hunk_items(t, h);
        let mut hi: usize = 0;
        while hi < hs.len()
            invariant
                t == patch.tree@,
                hf == hunks(t, f as nat),
                gh == (|h: nat| hunk_items(t, h)),
                hs@.map_values(|c: usize| c as nat) == hf,
                hi <= hs@.len(),
                items@ == base + flat_map(hf.take(hi as int), gh),
            decreases hs@.len() - hi,
        {
            let h = hs[hi];
            assert(hf[hi as int] == h as nat);
            proof {
                lemma_flat_map_step(hf, gh, hi as int);
            }
            push_hunk_items(&mut items, patch, h);
            assert(items@ =~= base + flat_map(hf.take(hi + 1), gh));
            hi = hi + 1;
        }
        proof {
            lemma_take_full(hf);
        }
        assert(items@ =~= flat_map(pf.take(fi + 1), ff));
        fi = fi + 1;
    }
    proof {
        lemma_take_full(pf);
    }
    items
}

/// Generate semantic tokens for a patch file.
pub fn generate_semantic_tokens(patch: &PatchDocument, source_text: &str) -> (r: Vec<SemanticToken>)
    requires
        fits(source_text.spec_bytes()),
    ensures
        r@ == emit_all(source_text.spec_bytes(), token_items(patch.tree@)).0,
{
    let items = collect_token_items(patch);
    encode_items(source_text, &items)
}

proof fn lemma_emit_lines_decode(bytes: Seq<u8>, s: Position, e: Position, ty: u32, line: nat, at: nat, st: EmitState)
    requires
        decode_tokens(st.0, st.0.len()) == (st.1, st.2),
    ensures
        decode_tokens(emit_lines(bytes, s, e, ty, line, at, st).0, emit_lines(bytes, s, e, ty, line, at, st).0.len()) == (
            emit_lines(bytes, s, e, ty, line, at, st).1,
            emit_lines(bytes, s, e, ty, line, at, st).2,
        ),
    decreases e.line + 1 - line,
{
    if line <= e.line {
        let (col, length) = line_piece(bytes, s, e, line, at);
        if length != 0 {
            lemma_decode_relative(st.0, st.1, st.2, line as u32, col, length, ty);
        }
        let next = if length == 0 {
            st
        } else {
            let delta_line = wrapping_sub(line as u32, st.1);
            let delta_start = if delta_line == 0 {
                wrapping_sub(col, st.2)
            } else {
                col
            };
            (st.0.push(SemanticToken { delta_line, delta_start, length, token_type: ty }), line as u32, col)
        };
        lemma_emit_lines_decode(bytes, s, e, ty, line + 1, next_newline(bytes, at) + 1, next);
    }
}

/// Decoding the tokens of a patch as a client does gives back where the
/// emitter placed the last of them; as this holds after every item, every
/// token decodes to the line and column it was emitted at.
pub proof fn lemma_patch_tokens_decode(bytes: Seq<u8>, items: Seq<TokenItem>)
    ensures
        decode_tokens(emit_all(bytes, items).0, emit_all(bytes, items).0.len()) == (emit_all(bytes, items).1, emit_all(bytes, items).2),
    decreases items.len(),
{
    if items.len() > 0 {
        lemma_patch_tokens_decode(bytes, items.drop_last());
        let it = items.last();
        let s = spec_offset_to_position(bytes, it.start as int);
        let e = spec_offset_to_position(bytes, it.end as int);
        lemma_emit_lines_decode(bytes, s, e, it.token_type, s.line as nat, it.start as nat, emit_all(bytes, items.drop_last()));
    }
}

/// Items whose token types are among the five this server declares.
pub open spec fn typed_items(items: Seq<TokenItem>) -> bool {
    forall|k: int| 0 <= k < items.len() ==> (#[trigger] items[k]).token_type <= TOKEN_CONTEXT_LINE
}

/// Tokens of a declared type and of some length.
pub open spec fn well_formed_tokens(toks: Seq<SemanticToken>) -> bool {
    forall|k: int| 0 <= k < toks.len() ==> (#[trigger] toks[k]).token_type <= TOKEN_CONTEXT_LINE && toks[k].length > 0
}

proof fn lemma_emit_lines_fields(bytes: Seq<u8>, s: Position, e: Position, ty: u32, line: nat, at: nat, st: EmitState)
    requires
        well_formed_tokens(st.0),
        ty <= TOKEN_CONTEXT_LINE,
    ensures
        well_formed_tokens(emit_lines(bytes, s, e, ty, line, at, st).0),
    decreases e.line + 1 - line,
{
    if line <= e.line {
        let (col, length) = line_piece(bytes, s, e, line, at);
        let next = if length == 0 {
            st
        } else {
            let delta_line = wrapping_sub(line as u32, st.1);
            let delta_start = if delta_line == 0 {
                wrapping_sub(col, st.2)
            } else {
                col
            };
            (st.0.push(SemanticToken { delta_line, delta_start, length, token_type: ty }), line as u32, col)
        };
        assert(well_formed_tokens(next.0)) by {
            if length != 0 {
                assert forall|k: int| 0 <= k < next.0.len() implies (#[trigger] next.0[k]).token_type <= TOKEN_CONTEXT_LINE && next.0[k].length > 0 by {
                    if k < st.0.len() {
                        assert(next.0[k] == st.0[k]);
                    }
                }
            }
        }
        lemma_emit_lines_fields(bytes, s, e, ty, line + 1, next_newline(bytes, at) + 1, next);
    }
}

proof fn lemma_emit_all_fields(bytes: Seq<u8>, items: Seq<TokenItem>)
    requires
        typed_items(items),
    ensures
        well_formed_tokens(emit_all(bytes, items).0),
    decreases items.len(),
{
    if items.len() > 0 {
        let init = items.drop_last();
        assert(typed_items(init)) by {
            assert forall|k: int| 0 <= k < init.len() implies (#[trigger] init[k]).token_type <= TOKEN_CONTEXT_LINE by {
                assert(init[k] == items[k]);
            }
        }
        lemma_emit_all_fields(bytes, init);
        let it = items.last();
        assert(it.token_type <= TOKEN_CONTEXT_LINE);
        let s = spec_offset_to_position(bytes, it.start as int);
        let e = spec_offset_to_position(bytes, it.end as int);
        lemma_emit_lines_fields(bytes, s, e, it.token_type, s.line as nat, it.start as nat, emit_all(bytes, init));
    }
}

proof fn lemma_hunk_items_typed(t: Seq<ElementView>, h: nat)
    ensures
        typed_items(hunk_items(t, h)),
{
    let p = |i: TokenItem| i.token_type <= TOKEN_CONTEXT_LINE;
    let f = |c: nat| match line_type(t[c as int].kind) {
        Some(ty) => Some(item_of(t, c, ty)),
        None => None,
    };
    let cs = children(t, h);
    assert forall|k: int| 0 <= k < cs.len() implies (#[trigger] f(cs[k]) matches Some(a) ==> p(a)) by {}
    lemma_filter_map_all(cs, f, p);
    let a = opt_item(t, hunk_header(t, h), TOKEN_HUNK_HEADER);
    let b = filter_map(cs, f);
    assert(hunk_items(t, h) == a + b);
    assert forall|k: int| 0 <= k < (a + b).len() implies (#[trigger] (a + b)[k]).token_type <= TOKEN_CONTEXT_LINE by {
        if k >= a.len() {
            assert((a + b)[k] == b[k - a.len()]);
            assert(p(b[k - a.len()]));
        }
    }
}

proof fn lemma_token_items_typed(t: Seq<ElementView>)
    ensures
        typed_items(token_items(t)),
{
    let p = |i: TokenItem| i.token_type <= TOKEN_CONTEXT_LINE;
    let pf = patch_files(t);
    let ff = |f: nat| file_items(t, f);
    assert forall|k: int, j: int| 0 <= k < pf.len() && 0 <= j < ff(pf[k]).len() implies p(#[trigger] ff(pf[k])[j]) by {
        let f = pf[k];
        let hs = hunks(t, f);
        let hf = |h: nat| hunk_items(t, h);
        assert forall|m: int, q: int| 0 <= m < hs.len() && 0 <= q < hf(hs[m]).len() implies p(#[trigger] hf(hs[m])[q]) by {
            lemma_hunk_items_typed(t, hs[m]);
        }
        lemma_flat_map_all(hs, hf, p);
        let a = opt_item(t, old_file(t, f), TOKEN_FILE_HEADER);
        let b = opt_item(t, new_file(t, f), TOKEN_FILE_HEADER);
        let c = flat_map(hs, hf);
        assert(ff(f) == a + b + c);
        if j >= a.len() + b.len() {
            assert(ff(f)[j] == c[j - a.len() - b.len()]);
        } else if j >= a.len() {
            assert(ff(f)[j] == b[j - a.len()]);
        } else {
            assert(ff(f)[j] == a[j]);
        }
    }
    lemma_flat_map_all(pf, ff, p);
    assert forall|k: int| 0 <= k < token_items(t).len() implies (#[trigger] token_items(t)[k]).token_type <= TOKEN_CONTEXT_LINE by {
        assert(p(flat_map(pf, ff)[k]));
    }
}

/// Every semantic token of a patch has one of the five declared types and a
/// length of at least one.
pub proof fn lemma_patch_tokens_well_formed(t: Seq<ElementView>, bytes: Seq<u8>)
    ensures
        well_formed_tokens(emit_all(bytes, token_items(t)).0),
{
    lemma_token_items_typed(t);
    lemma_emit_all_fields(bytes, token_items(t));
}

/// Whether line and column `a` come strictly before `b`.
pub open spec fn before(a: (u32, u32), b: (u32, u32)) -> bool {
    a.0 < b.0 || (a.0 == b.0 && a.1 < b.1)
}

/// Whether each token decodes to a place strictly after the one before it.
pub open spec fn decoded_increasing(toks: Seq<SemanticToken>) -> bool {
    forall|k: int| 0 <= k < toks.len() - 1 ==> before(#[trigger] decode_tokens(toks, (k + 1) as nat), decode_tokens(toks, (k + 2) as nat))
}

/// Items in document order: each within itself in order, and ending no
/// later than the next one starts.
pub open spec fn items_in_order(items: Seq<TokenItem>) -> bool {
    &&& forall|k: int| 0 <= k < items.len() ==> (#[trigger] items[k]).start <= items[k].end
    &&& forall|k: int| 0 <= k < items.len() - 1 ==> (#[trigger] items[k]).end <= items[k + 1].start
}

/// What holds of an emission state: its tokens decode in increasing order,
/// the last of them to the state's line and column.
pub open spec fn emission_ok(st: EmitState) -> bool {
    &&& decoded_increasing(st.0)
    &&& decode_tokens(st.0, st.0.len()) == (st.1, st.2)
}

/// The position of a `Position` as a pair.
pub open spec fn pair(p: Position) -> (u32, u32) {
    (p.line, p.character)
}

proof fn lemma_push_increasing(st: EmitState, line: u32, col: u32, length: u32, ty: u32)
    requires
        emission_ok(st),
        st.0.len() == 0 || before((st.1, st.2), (line, col)),
    ensures
        ({
            let delta_line = wrapping_sub(line, st.1);
            let delta_start = if delta_line == 0 {
                wrapping_sub(col, st.2)
            } else {
                col
            };
            let next = st.0.push(SemanticToken { delta_line, delta_start, length, token_type: ty });
            emission_ok((next, line, col))
        }),
{
    let delta_line = wrapping_sub(line, st.1);
    let delta_start = if delta_line == 0 {
        wrapping_sub(col, st.2)
    } else {
        col
    };
    let next = st.0.push(SemanticToken { delta_line, delta_start, length, token_type: ty });
    lemma_decode_relative(st.0, st.1, st.2, line, col, length, ty);
    assert forall|k: int| 0 <= k < next.len() - 1 implies before(#[trigger] decode_tokens(next, (k + 1) as nat), decode_tokens(next, (k + 2) as nat)) by {
        lemma_decode_prefix(next, st.0, (k + 1) as nat);
        if k + 2 <= st.0.len() {
            lemma_decode_prefix(next, st.0, (k + 2) as nat);
            assert(before(decode_tokens(st.0, (k + 1) as nat), decode_tokens(st.0, (k + 2) as nat)));
        } else {
            assert(k + 1 == st.0.len());
        }
    }
}

proof fn lemma_emit_lines_increasing(bytes: Seq<u8>, s: Position, e: Position, ty: u32, line: nat, at: nat, st: EmitState)
    requires
        emission_ok(st),
        s.line <= line,
        position_le(s, e),
        line <= e.line ==> (st.0.len() == 0 || before((st.1, st.2), (line as u32, if line == s.line { s.character } else { 0u32 }))),
        line <= e.line + 1,
        line > e.line ==> (st.0.len() == 0 || before((st.1, st.2), pair(e))),
        line <= 0xffff_ffff + 1,
        e.line <= 0xffff_ffff,
    ensures
        emission_ok(emit_lines(bytes, s, e, ty, line, at, st)),
        emit_lines(bytes, s, e, ty, line, at, st).0.len() == 0 || before(
            (emit_lines(bytes, s, e, ty, line, at, st).1, emit_lines(bytes, s, e, ty, line, at, st).2),
            pair(e),
        ),
    decreases e.line + 1 - line,
{
    if line <= e.line {
        let (col, length) = line_piece(bytes, s, e, line, at);
        let next = if length == 0 {
            st
        } else {
            let delta_line = wrapping_sub(line as u32, st.1);
            let delta_start = if delta_line == 0 {
                wrapping_sub(col, st.2)
            } else {
                col
            };
            (st.0.push(SemanticToken { delta_line, delta_start, length, token_type: ty }), line as u32, col)
        };
        if length != 0 {
            lemma_push_increasing(st, line as u32, col, length, ty);
            // The token just emitted lies before the node's end.
            if line == e.line {
                if s.line == e.line {
                    assert(s.character <= e.character);
                    assert(length == wrapping_sub(e.character, s.character));
                    assert(s.character < e.character);
                } else {
                    assert(col == 0 && length == e.character);
                }
            }
        }
        lemma_emit_lines_increasing(bytes, s, e, ty, line + 1, next_newline(bytes, at) + 1, next);
    }
}

proof fn lemma_emit_all_increasing(bytes: Seq<u8>, items: Seq<TokenItem>)
    requires
        fits(bytes),
        items_in_order(items),
    ensures
        emission_ok(emit_all(bytes, items)),
        items.len() > 0 ==> (emit_all(bytes, items).0.len() == 0 || before(
            (emit_all(bytes, items).1, emit_all(bytes, items).2),
            pair(spec_offset_to_position(bytes, items.last().end as int)),
        )),
    decreases items.len(),
{
    if items.len() > 0 {
        let init = items.drop_last();
        assert(items_in_order(init)) by {
            assert forall|k: int| 0 <= k < init.len() implies (#[trigger] init[k]).start <= init[k].end by {
                assert(init[k] == items[k]);
            }
            assert forall|k: int| 0 <= k < init.len() - 1 implies (#[trigger] init[k]).end <= init[k + 1].start by {
                assert(init[k] == items[k]);
                assert(init[k + 1] == items[k + 1]);
            }
        }
        lemma_emit_all_increasing(bytes, init);
        let st = emit_all(bytes, init);
        let it = items.last();
        let s = spec_offset_to_position(bytes, it.start as int);
        let e = spec_offset_to_position(bytes, it.end as int);
        assert(it == items[items.len() - 1]);
        lemma_offset_to_position_monotone(bytes, it.start as int, it.end as int);
        crate::position::lemma_position_fits(bytes, if (it.end as int) <= bytes.len() { it.end as nat } else { bytes.len() });
        if init.len() > 0 {
            let prev = init.last();
            assert(prev == items[items.len() - 2]);
            assert(prev.end <= it.start);
            lemma_offset_to_position_monotone(bytes, prev.end as int, it.start as int);
        }
        if st.0.len() > 0 {
            assert(init.len() > 0) by {
                if init.len() == 0 {
                    assert(st.0.len() == 0);
                }
            }
        }
        if st.0.len() > 0 {
            let prev = init.last();
            let pe = spec_offset_to_position(bytes, prev.end as int);
            assert(before((st.1, st.2), pair(pe)));
            assert(position_le(pe, s));
            assert(before((st.1, st.2), (s.line, s.character)));
        }
        lemma_emit_lines_increasing(bytes, s, e, it.token_type, s.line as nat, it.start as nat, st);
    }
}

/// In document order, every semantic token decodes to a place strictly
/// after the one before it: where each item ends no later than the next one
/// begins (as the lines of a parsed patch do), the tokens run forward through
/// the text.
pub proof fn lemma_tokens_run_forward(bytes: Seq<u8>, items: Seq<TokenItem>)
    requires
        fits(bytes),
        items_in_order(items),
    ensures
        decoded_increasing(emit_all(bytes, items).0),
{
    lemma_emit_all_increasing(bytes, items);
}

/// Whether a token item highlights child `c` with the type its kind calls
/// for: added lines as added, deleted lines as deleted, context lines as
/// context.
pub open spec fn highlights_as_its_kind(t: Seq<ElementView>, c: nat, item: TokenItem) -> bool {
    &&& item.start == t[c as int].start
    &&& item.end == t[c as int].end
    &&& (t[c as int].kind == ADD_LINE && item.token_type == TOKEN_ADD_LINE
        || t[c as int].kind == DELETE_LINE && item.token_type == TOKEN_DELETE_LINE
        || t[c as int].kind == CONTEXT_LINE && item.token_type == TOKEN_CONTEXT_LINE)
}

/// Whether an item highlights one of the hunk's line children as its kind.
pub open spec fn item_of_line_child(t: Seq<ElementView>, h: nat, item: TokenItem) -> bool {
    exists|c: nat| children(t, h).contains(c) && highlights_as_its_kind(t, c, item)
}

/// Each line of a hunk is highlighted by its kind: every added, deleted or
/// context line child gets an item of the added, deleted or context type
/// over its span, and every item of the hunk but its header's is such a
/// line's item.
pub proof fn lemma_hunk_lines_highlighted_by_kind(t: Seq<ElementView>, h: nat)
    ensures
        forall|c: nat|
            children(t, h).contains(c) && t[c as int].kind == CONTEXT_LINE ==> #[trigger] hunk_items(t, h).contains(
                TokenItem { start: t[c as int].start, end: t[c as int].end, token_type: TOKEN_CONTEXT_LINE },
            ),
        forall|c: nat|
            children(t, h).contains(c) && t[c as int].kind == ADD_LINE ==> #[trigger] hunk_items(t, h).contains(
                TokenItem { start: t[c as int].start, end: t[c as int].end, token_type: TOKEN_ADD_LINE },
            ),
        forall|c: nat|
            children(t, h).contains(c) && t[c as int].kind == DELETE_LINE ==> #[trigger] hunk_items(t, h).contains(
                TokenItem { start: t[c as int].start, end: t[c as int].end, token_type: TOKEN_DELETE_LINE },
            ),
        forall|k: int|
            opt_item(t, hunk_header(t, h), TOKEN_HUNK_HEADER).len() <= k < hunk_items(t, h).len() ==> item_of_line_child(
                t,
                h,
                #[trigger] hunk_items(t, h)[k],
            ),
{
    let cs = children(t, h);
    let f = |c: nat| match line_type(t[c as int].kind) {
        Some(ty) => Some(item_of(t, c, ty)),
        None => None,
    };
    let a = opt_item(t, hunk_header(t, h), TOKEN_HUNK_HEADER);
    let b = filter_map(cs, f);
    assert(hunk_items(t, h) == a + b);
    assert forall|c: nat| children(t, h).contains(c) && t[c as int].kind == CONTEXT_LINE implies #[trigger] hunk_items(t, h).contains(
        TokenItem { start: t[c as int].start, end: t[c as int].end, token_type: TOKEN_CONTEXT_LINE },
    ) by {
        let k = choose|k: int| 0 <= k < cs.len() && cs[k] == c;
        assert(f(cs[k]) == Some(TokenItem { start: t[c as int].start, end: t[c as int].end, token_type: TOKEN_CONTEXT_LINE }));
        lemma_filter_map_contains(cs, f, k);
        let j = choose|j: int| 0 <= j < b.len() && b[j] == f(c)->0;
        assert((a + b)[a.len() + j] == b[j]);
    }
    assert forall|c: nat| children(t, h).contains(c) && t[c as int].kind == ADD_LINE implies #[trigger] hunk_items(t, h).contains(
        TokenItem { start: t[c as int].start, end: t[c as int].end, token_type: TOKEN_ADD_LINE },
    ) by {
        let k = choose|k: int| 0 <= k < cs.len() && cs[k] == c;
        assert(f(cs[k]) == Some(TokenItem { start: t[c as int].start, end: t[c as int].end, token_type: TOKEN_ADD_LINE }));
        lemma_filter_map_contains(cs, f, k);
        let j = choose|j: int| 0 <= j < b.len() && b[j] == f(c)->0;
        assert((a + b)[a.len() + j] == b[j]);
    }
    assert forall|c: nat| children(t, h).contains(c) && t[c as int].kind == DELETE_LINE implies #[trigger] hunk_items(t, h).contains(
        TokenItem { start: t[c as int].start, end: t[c as int].end, token_type: TOKEN_DELETE_LINE },
    ) by {
        let k = choose|k: int| 0 <= k < cs.len() && cs[k] == c;
        assert(f(cs[k]) == Some(TokenItem { start: t[c as int].start, end: t[c as int].end, token_type: TOKEN_DELETE_LINE }));
        lemma_filter_map_contains(cs, f, k);
        let j = choose|j: int| 0 <= j < b.len() && b[j] == f(c)->0;
        assert((a + b)[a.len() + j] == b[j]);
    }
    let p = |i: TokenItem| exists|c: nat| cs.contains(c) && highlights_as_its_kind(t, c, i);
    assert forall|k: int| 0 <= k < cs.len() implies (#[trigger] f(cs[k]) matches Some(x) ==> p(x)) by {
        if f(cs[k]) is Some {
            assert(cs.contains(cs[k]));
            assert(highlights_as_its_kind(t, cs[k], f(cs[k])->0));
        }
    }
    lemma_filter_map_all(cs, f, p);
    assert forall|k: int| a.len() <= k < hunk_items(t, h).len() implies item_of_line_child(t, h, #[trigger] hunk_items(t, h)[k]) by {
        assert(hunk_items(t, h)[k] == b[k - a.len()]);
        assert(p(b[k - a.len()]));
        let c = choose|c: nat| cs.contains(c) && highlights_as_its_kind(t, c, b[k - a.len()]);
        assert(children(t, h).contains(c) && highlights_as_its_kind(t, c, hunk_items(t, h)[k]));
    }
}

/// A file diff's highlighting starts with its `---` header, then its `+++`
/// header, both as file headers; a hunk's starts with its header, as a hunk
/// header.
pub proof fn lemma_headers_highlighted(t: Seq<ElementView>, f: nat, h: nat)
    ensures
        old_file(t, f) matches Some(o) ==> file_items(t, f)[0] == (TokenItem {
            start: t[o as int].start,
            end: t[o as int].end,
            token_type: TOKEN_FILE_HEADER,
        }),
        new_file(t, f) matches Some(nf) ==> file_items(t, f)[if old_file(t, f) is Some { 1int } else { 0int }] == (TokenItem {
            start: t[nf as int].start,
            end: t[nf as int].end,
            token_type: TOKEN_FILE_HEADER,
        }),
        hunk_header(t, h) matches Some(hd) ==> hunk_items(t, h)[0] == (TokenItem {
            start: t[hd as int].start,
            end: t[hd as int].end,
            token_type: TOKEN_HUNK_HEADER,
        }),
{
    let a = opt_item(t, old_file(t, f), TOKEN_FILE_HEADER);
    let b = opt_item(t, new_file(t, f), TOKEN_FILE_HEADER);
    let c = flat_map(hunks(t, f), |h: nat| hunk_items(t, h));
    assert(file_items(t, f) == a + b + c);
    if new_file(t, f) is Some {
        assert((a + b + c)[a.len() as int] == b[0]);
    }
    let x = opt_item(t, hunk_header(t, h), TOKEN_HUNK_HEADER);
    let y = filter_map(
        children(t, h),
        |c: nat| match line_type(t[c as int].kind) {
            Some(ty) => Some(item_of(t, c, ty)),
            None => None,
        },
    );
    assert(hunk_items(t, h) == x + y);
}

} // verus!
