//! The outline of a quilt series file: each patch entry a symbol, its
//! options as the symbol's detail.
use vstd::prelude::*;
use vstd::string::StringSliceAdditionalSpecFns;
use crate::lsp::{filter_map, lemma_filter_map_step, lemma_take_full, DocumentSymbol, SymbolKind, SymbolLeafView};
use crate::position::fits;
use crate::series::{entry_name, entry_options, listed_names, option_strings, patch_entries, SeriesDocument, OPTIONS};
use crate::syntax::{lsp_range, ElementView};
use crate::text::push_str;

verus! {

/// The first `n` words joined by single spaces.
pub open spec fn join_spaced(ws: Seq<Seq<char>>, n: nat) -> Seq<char>
    decreases n,
{
    if n == 0 || n > ws.len() {
        Seq::empty()
    } else if n == 1 {
        ws[0]
    } else {
        join_spaced(ws, (n - 1) as nat) + seq![' '] + ws[n - 1]
    }
}

/// The symbol of a named patch entry.
pub open spec fn entry_symbol(t: Seq<ElementView>, bytes: Seq<u8>, pe: nat) -> Option<SymbolLeafView> {
    match entry_name(t, pe) {
        None => None,
        Some(name) => Some(
            SymbolLeafView {
                name,
                detail: match entry_options(t, pe) {
                    Some(o) => Some(join_spaced(option_strings(t, o), option_strings(t, o).len())),
                    None => None,
                },
                kind: SymbolKind::File,
                range: lsp_range(bytes, t[pe as int]),
                selection_range: lsp_range(bytes, t[pe as int]),
            },
        ),
    }
}

pub open spec fn spec_series_symbols(t: Seq<ElementView>, bytes: Seq<u8>) -> Seq<SymbolLeafView> {
    filter_map(patch_entries(t), |pe: nat| entry_symbol(t, bytes, pe))
}

/// Words joined by single spaces.
pub fn join_words(ws: &Vec<String>) -> (r: String)
    ensures
        r@ == join_spaced(ws@.map_values(|s: String| s@), ws@.len()),
{
    let ghost wv = ws@.map_values(|s: String| s@);
    let mut out = String::new();
    let mut i: usize = 0;
    while i < ws.len()
        invariant
            wv == ws@.map_values(|s: String| s@),
            i <= ws@.len(),
            out@ == join_spaced(wv, i as nat),
        decreases ws@.len() - i,
    {
        if i > 0 {
            out.push(' ');
        }
        push_str(&mut out, ws[i].as_str());
        assert(out@ =~= join_spaced(wv, (i + 1) as nat));
        i = i + 1;
    }
    out
}

/// Generate document symbols for a series file: each named patch entry a
/// top-level symbol of kind file, without children.
pub fn generate_series_symbols(series: &SeriesDocument, source_text: &str) -> (r: Vec<DocumentSymbol>)
    requires
        fits(source_text.spec_bytes()),
    ensures
        r@.map_values(|s: DocumentSymbol| s.leaf()) == spec_series_symbols(series.tree@, source_text.spec_bytes()),
        forall|k: int| 0 <= k < r@.len() ==> #[trigger] r@[k].children@.len() == 0,
{
    let ghost t = series.tree@;
    let ghost bytes = source_text.spec_bytes();
    let pes = series.patch_entries();
    let ghost pf = patch_entries(t);
    let ghost g = |pe: nat| entry_symbol(t, bytes, pe);
    let mut out: Vec<DocumentSymbol> = Vec::new();
    let mut i: usize = 0;
    while i < pes.len()
        invariant
            t == series.tree@,
            bytes == source_text.spec_bytes(),
            fits(bytes),
            pf == patch_entries(t),
            pes@.map_values(|c: usize| c as nat) == pf,
            forall|k: int| 0 <= k < pes@.len() ==> #[trigger] pes@[k] < t.len(),
            g == (|pe: nat| entry_symbol(t, bytes, pe)),
            i <= pes@.len(),
            out@.map_values(|s: DocumentSymbol| s.leaf()) == filter_map(pf.take(i as int), g),
            forall|k: int| 0 <= k < out@.len() ==> #[trigger] out@[k].children@.len() == 0,
        decreases pes@.len() - i,
    {
        proof {
            lemma_filter_map_step(pf, g, i as int);
        }
        let pe = pes[i];
        assert(pf[i as int] == pe as nat);
        if let Some(name) = series.entry_name(pe) {
            let detail = match series.tree.first_child_of_kind(pe, OPTIONS) {
                Some(o) => Some(join_words(&series.option_strings(o))),
                None => None,
            };
            let range = series.tree.lsp_range_of(source_text, pe);
            let sym = DocumentSymbol { name, detail, kind: SymbolKind::File, range, selection_range: range, children: Vec::new() };
            let ghost before = out@;
            out.push(sym);
            assert(out@.map_values(|s: DocumentSymbol| s.leaf()) =~= before.map_values(|s: DocumentSymbol| s.leaf()).push(sym.leaf()));
        }
        i = i + 1;
    }
    proof {
        lemma_take_full(pf);
    }
    out
}

proof fn lemma_symbols_follow_names(s: Seq<nat>, f: spec_fn(nat) -> Option<SymbolLeafView>, g: spec_fn(nat) -> Option<Seq<char>>)
    requires
        forall|x: nat| (#[trigger] f(x) is Some) <==> g(x) is Some,
        forall|x: nat| #[trigger] f(x) matches Some(a) ==> a.name == g(x)->0 && a.kind == SymbolKind::File,
    ensures
        filter_map(s, f).len() == filter_map(s, g).len(),
        forall|k: int|
            0 <= k < filter_map(s, f).len() ==> (#[trigger] filter_map(s, f)[k]).name == filter_map(s, g)[k]
                && filter_map(s, f)[k].kind == SymbolKind::File,
    decreases s.len(),
{
    if s.len() > 0 {
        lemma_symbols_follow_names(s.drop_last(), f, g);
        let x = s.last();
        assert(f(x) is Some <==> g(x) is Some);
        assert(f(x) matches Some(a) ==> a.name == g(x)->0 && a.kind == SymbolKind::File);
    }
}

/// The outline of a series file lists its patch names in order, one symbol
/// of kind file per named entry, and nothing else.
pub proof fn lemma_series_symbols_list_names(t: Seq<ElementView>, bytes: Seq<u8>)
    ensures
        spec_series_symbols(t, bytes).len() == listed_names(t).len(),
        forall|k: int|
            0 <= k < listed_names(t).len() ==> (#[trigger] spec_series_symbols(t, bytes)[k]).name == listed_names(t)[k]
                && spec_series_symbols(t, bytes)[k].kind == SymbolKind::File,
{
    let f = |pe: nat| entry_symbol(t, bytes, pe);
    let g = |pe: nat| entry_name(t, pe);
    assert forall|x: nat| (#[trigger] f(x) is Some) <==> g(x) is Some by {}
    assert forall|x: nat| #[trigger] f(x) is Some implies f(x)->0.name == g(x)->0 && f(x)->0.kind == SymbolKind::File by {}
    lemma_symbols_follow_names(patch_entries(t), f, g);
}

} // verus!
