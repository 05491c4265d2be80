//! Semantic tokens for quilt series files: patch names, options and
//! comments, each token placed relative to the one before it.
use vstd::prelude::*;
use vstd::string::{StrSliceExecFns, StringSliceAdditionalSpecFns};
use vstd::utf8::encode_utf8;
use vstd::wrapping::u32_specs::wrapping_sub;
use crate::lsp::{decode_tokens, lemma_decode_relative, SemanticToken};
use crate::position::{fits, offset_to_position, spec_offset_to_position};
use crate::series::{SeriesDocument, HASH, OPTION, PATCH_NAME, TEXT};
use crate::syntax::ElementView;

verus! {

// Token type indices of the legend the server announces.
pub const TOKEN_PATCH_NAME: u32 = 5;
pub const TOKEN_OPTION: u32 = 6;
pub const TOKEN_COMMENT: u32 = 7;

/// The token type of a series token kind.
pub open spec fn series_token_type(kind: u16) -> Option<u32> {
    if kind == PATCH_NAME {
        Some(TOKEN_PATCH_NAME)
    } else if kind == OPTION {
        Some(TOKEN_OPTION)
    } else if kind == HASH || kind == TEXT {
        Some(TOKEN_COMMENT)
    } else {
        None
    }
}

/// One token after the state (tokens so far, line and column of the last):
/// its length is its text's length in bytes.
pub open spec fn series_emit(bytes: Seq<u8>, st: (Seq<SemanticToken>, u32, u32), e: ElementView, ty: u32) -> (Seq<SemanticToken>, u32, u32) {
    let pos = spec_offset_to_position(bytes, e.start as int);
    let delta_line = wrapping_sub(pos.line, st.1);
    let delta_start = if delta_line == 0 {
        wrapping_sub(pos.character, st.2)
    } else {
        pos.character
    };
    (
        st.0.push(
            SemanticToken {
                delta_line,
                delta_start,
                length: (encode_utf8(e.text).len() as usize) as u32,
                token_type: ty,
            },
        ),
        pos.line,
        pos.character,
    )
}

/// The tokens of the first `n` elements in tree order: the non-empty
/// tokens that have a token type.
pub open spec fn series_emit_upto(t: Seq<ElementView>, bytes: Seq<u8>, n: nat) -> (Seq<SemanticToken>, u32, u32)
    decreases n,
{
    if n == 0 || n > t.len() {
        (Seq::empty(), 0, 0)
    } else {
        let st = series_emit_upto(t, bytes, (n - 1) as nat);
        let e = t[n - 1];
        if e.is_token && e.text.len() > 0 {
            match series_token_type(e.kind) {
                Some(ty) => series_emit(bytes, st, e, ty),
                None => st,
            }
        } else {
            st
        }
    }
}

pub open spec fn spec_series_semantic_tokens(t: Seq<ElementView>, bytes: Seq<u8>) -> Seq<SemanticToken> {
    series_emit_upto(t, bytes, t.len()).0
}

fn series_token_type_exec(kind: u16) -> (r: Option<u32>)
    ensures
        r == series_token_type(kind),
{
    if kind == PATCH_NAME {
        Some(TOKEN_PATCH_NAME)
    } else if kind == OPTION {
        Some(TOKEN_OPTION)
    } else if kind == HASH || kind == TEXT {
        Some(TOKEN_COMMENT)
    } else {
        None
    }
}

/// Generate semantic tokens for a series file.
pub fn generate_series_semantic_tokens(series: &SeriesDocument, source_text: &str) -> (r: Vec<SemanticToken>)
    requires
        fits(source_text.spec_bytes()),
    ensures
        r@ == spec_series_semantic_tokens(series.tree@, source_text.spec_bytes()),
{
    let ghost t = series.tree@;
    let ghost bytes = source_text.spec_bytes();
    let n = series.tree.len();
    let mut tokens: Vec<SemanticToken> = Vec::new();
    let mut prev_line: u32 = 0;
    let mut prev_col: u32 = 0;
    let mut i: usize = 0;
    while i < n
        invariant
            t == series.tree@,
            bytes == source_text.spec_bytes(),
            fits(bytes),
            n == t.len(),
            i <= n,
            (tokens@, prev_line, prev_col) == series_emit_upto(t, bytes, i as nat),
        decreases n - i,
    {
        let e = &series.tree.elements[i];
        assert(t[i as int] == e@);
        if e.is_token && e.text.as_str().unicode_len() > 0 {
            if let Some(ty) = series_token_type_exec(e.kind) {
                let pos = offset_to_position(source_text, e.start);
                let delta_line = pos.line.wrapping_sub(prev_line);
                let delta_start = if delta_line == 0 {
                    pos.character.wrapping_sub(prev_col)
                } else {
                    pos.character
                };
                let length = e.text.as_str().len() as u32;
                tokens.push(SemanticToken { delta_line, delta_start, length, token_type: ty });
                prev_line = pos.line;
                prev_col = pos.character;
            }
        }
        i = i + 1;
    }
    tokens
}

/// Decoding the tokens as a client does (each relative to the one before)
/// gives back where the emitter placed the last of them; as this holds
/// after every element, every token decodes to the position of its text.
pub proof fn lemma_series_tokens_decode(t: Seq<ElementView>, bytes: Seq<u8>, n: nat)
    ensures
        decode_tokens(series_emit_upto(t, bytes, n).0, series_emit_upto(t, bytes, n).0.len()) == (
            series_emit_upto(t, bytes, n).1,
            series_emit_upto(t, bytes, n).2,
        ),
    decreases n,
{
    if n > 0 && n <= t.len() {
        lemma_series_tokens_decode(t, bytes, (n - 1) as nat);
        let st = series_emit_upto(t, bytes, (n - 1) as nat);
        let e = t[n - 1];
        if e.is_token && e.text.len() > 0 {
            if let Some(ty) = series_token_type(e.kind) {
                let pos = spec_offset_to_position(bytes, e.start as int);
                lemma_decode_relative(st.0, st.1, st.2, pos.line, pos.character, (encode_utf8(e.text).len() as usize) as u32, ty);
            }
        }
    }
}

/// A token that series highlighting marks: a non-empty patch name, option,
/// `#` or comment text.
pub open spec fn series_highlighted(e: ElementView) -> bool {
    e.is_token && e.text.len() > 0 && (e.kind == PATCH_NAME || e.kind == OPTION || e.kind == HASH || e.kind == TEXT)
}

/// How many of the elements before index `n` series highlighting marks.
pub open spec fn highlighted_before(t: Seq<ElementView>, n: int) -> nat
    decreases n,
{
    if n <= 0 || n > t.len() {
        0
    } else {
        highlighted_before(t, n - 1) + if series_highlighted(t[n - 1]) {
            1nat
        } else {
            0nat
        }
    }
}

proof fn lemma_highlighted_before_grows(t: Seq<ElementView>, i: int, m: int)
    requires
        0 <= i < m <= t.len(),
        series_highlighted(t[i]),
    ensures
        highlighted_before(t, i) + 1 <= highlighted_before(t, m),
    decreases m,
{
    if m > i + 1 {
        lemma_highlighted_before_grows(t, i, m - 1);
    }
}

/// Among the first `n` elements, each marked token gives one token, in
/// order: a patch name is highlighted as a patch name, an option as an
/// option, `#` and comment text as a comment, and its length is its
/// text's length in bytes. Nothing else gives a token.
pub proof fn lemma_series_tokens_by_kind(t: Seq<ElementView>, bytes: Seq<u8>, n: int)
    requires
        0 <= n <= t.len(),
    ensures
        series_emit_upto(t, bytes, n as nat).0.len() == highlighted_before(t, n),
        forall|i: int|
            0 <= i < n && #[trigger] series_highlighted(t[i]) ==> {
                let tok = series_emit_upto(t, bytes, n as nat).0[highlighted_before(t, i) as int];
                &&& tok.token_type == if t[i].kind == PATCH_NAME {
                    TOKEN_PATCH_NAME
                } else if t[i].kind == OPTION {
                    TOKEN_OPTION
                } else {
                    TOKEN_COMMENT
                }
                &&& tok.length == (encode_utf8(t[i].text).len() as usize) as u32
            },
    decreases n,
{
    if n > 0 {
        lemma_series_tokens_by_kind(t, bytes, n - 1);
        let prev = series_emit_upto(t, bytes, (n - 1) as nat).0;
        let cur = series_emit_upto(t, bytes, n as nat).0;
        let e = t[n - 1];
        if series_highlighted(e) {
            assert(cur =~= prev.push(cur[prev.len() as int]));
        } else {
            assert(cur == prev);
        }
        assert forall|i: int| 0 <= i < n && #[trigger] series_highlighted(t[i]) implies {
            let tok = cur[highlighted_before(t, i) as int];
            &&& tok.token_type == if t[i].kind == PATCH_NAME {
                TOKEN_PATCH_NAME
            } else if t[i].kind == OPTION {
                TOKEN_OPTION
            } else {
                TOKEN_COMMENT
            }
            &&& tok.length == (encode_utf8(t[i].text).len() as usize) as u32
        } by {
            if i < n - 1 {
                lemma_highlighted_before_grows(t, i, n - 1);
                assert(cur[highlighted_before(t, i) as int] == prev[highlighted_before(t, i) as int]);
            }
        }
    }
}

} // verus!
