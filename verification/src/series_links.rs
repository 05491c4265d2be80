//! Document links for quilt series files: each patch name links to the
//! file of that name beside the series file.
use vstd::prelude::*;
use vstd::string::StringSliceAdditionalSpecFns;
use crate::document_links::{link_dir, link_dir_of};
use crate::lsp::{filter_map, lemma_filter_map_all, lemma_filter_map_step, lemma_take_full, DocumentLink, DocumentLinkView};
use crate::position::fits;
use crate::series::{name_token, patch_entries, SeriesDocument, PATCH_NAME};
use crate::syntax::{is_child, lemma_children_bounds, lsp_range, ElementView};
use crate::text::{chars_of, string_of};
use crate::uri::{spec_uri_parses, uri_parses};

verus! {

/// The link of a patch entry's name: to the document's directory joined
/// with the name, when that target parses as a URI.
pub open spec fn name_link(t: Seq<ElementView>, bytes: Seq<u8>, uri: Seq<char>, pe: nat) -> Option<DocumentLinkView> {
    match name_token(t, pe) {
        None => None,
        Some(n) => {
            let name = t[n as int].text;
            let target = link_dir(uri) + seq!['/'] + name;
            if spec_uri_parses(target) {
                Some(DocumentLinkView { range: lsp_range(bytes, t[n as int]), target, tooltip: name })
            } else {
                None
            }
        },
    }
}

pub open spec fn spec_series_links(t: Seq<ElementView>, bytes: Seq<u8>, uri: Seq<char>) -> Seq<DocumentLinkView> {
    filter_map(patch_entries(t), |pe: nat| name_link(t, bytes, uri, pe))
}

/// Generate document links for patch names in a series file.
pub fn get_document_links(series: &SeriesDocument, source_text: &str, document_uri: &str) -> (r: Vec<DocumentLink>)
    requires
        fits(source_text.spec_bytes()),
    ensures
        r@.map_values(|l: DocumentLink| l@) == spec_series_links(series.tree@, source_text.spec_bytes(), document_uri@),
{
    let ghost t = series.tree@;
    let ghost bytes = source_text.spec_bytes();
    let dir = link_dir_of(document_uri);
    let pes = series.patch_entries();
    let ghost pf = patch_entries(t);
    let ghost g = |pe: nat| name_link(t, bytes, document_uri@, pe);
    let mut out: Vec<DocumentLink> = Vec::new();
    let mut i: usize = 0;
    while i < pes.len()
        invariant
            t == series.tree@,
            bytes == source_text.spec_bytes(),
            fits(bytes),
            dir@ == link_dir(document_uri@),
            pf == patch_entries(t),
            pes@.map_values(|c: usize| c as nat) == pf,
            forall|k: int| 0 <= k < pes@.len() ==> #[trigger] pes@[k] < t.len(),
            g == (|pe: nat| name_link(t, bytes, document_uri@, pe)),
            i <= pes@.len(),
            out@.map_values(|l: DocumentLink| l@) == filter_map(pf.take(i as int), g),
        decreases pes@.len() - i,
    {
        proof {
            lemma_filter_map_step(pf, g, i as int);
        }
        let pe = pes[i];
        assert(pf[i as int] == pe as nat);
        if let Some(n) = series.tree.first_child_of_kind(pe, PATCH_NAME) {
            let name = series.tree.text_of(n);
            let mut target_chars = crate::text::slice_chars(dir.as_slice(), 0, dir.len());
            target_chars.push('/');
            let nc = chars_of(name.as_str());
            let mut k: usize = 0;
            let ghost base = target_chars@;
            while k < nc.len()
                invariant
                    k <= nc@.len(),
                    target_chars@ == base + nc@.take(k as int),
                decreases nc@.len() - k,
            {
                target_chars.push(nc[k]);
                k = k + 1;
                assert(target_chars@ =~= base + nc@.take(k as int));
            }
            assert(nc@.take(nc@.len() as int) =~= nc@);
            let target = string_of(target_chars.as_slice());
            assert(target@ =~= link_dir(document_uri@) + seq!['/'] + name@);
            if uri_parses(target.as_str()) {
                let link = DocumentLink { range: series.tree.lsp_range_of(source_text, n), target, tooltip: string_of(nc.as_slice()) };
                let ghost before = out@;
                out.push(link);
                assert(out@.map_values(|l: DocumentLink| l@) =~= before.map_values(|l: DocumentLink| l@).push(link@));
            }
        }
        i = i + 1;
    }
    proof {
        lemma_take_full(pf);
    }
    out
}

/// A link over a patch name: it spans a patch name token of a patch entry,
/// shows that name, and points at the name inside the series file's
/// directory.
pub open spec fn links_patch_name(t: Seq<ElementView>, bytes: Seq<u8>, uri: Seq<char>, l: DocumentLinkView) -> bool {
    exists|pe: nat, n: nat|
        #![trigger is_child(t, pe, n)]
        is_child(t, pe, n) && t[n as int].kind == PATCH_NAME && l.range == lsp_range(bytes, t[n as int]) && l.tooltip
            == t[n as int].text && l.target == link_dir(uri) + seq!['/'] + t[n as int].text
}

/// Every link of a series file goes from a patch name to the file of that
/// name beside the series file, and a named entry gets its link exactly
/// when that target parses as a URI.
pub proof fn lemma_series_links_name_files(t: Seq<ElementView>, bytes: Seq<u8>, uri: Seq<char>)
    ensures
        forall|j: int|
            0 <= j < spec_series_links(t, bytes, uri).len() ==> links_patch_name(t, bytes, uri, #[trigger] spec_series_links(t, bytes, uri)[j]),
        forall|pe: nat|
            #![trigger name_link(t, bytes, uri, pe)]
            name_token(t, pe) matches Some(n) ==> (name_link(t, bytes, uri, pe) is Some <==> spec_uri_parses(
                link_dir(uri) + seq!['/'] + t[n as int].text,
            )),
{
    let g = |pe: nat| name_link(t, bytes, uri, pe);
    let p = |l: DocumentLinkView| links_patch_name(t, bytes, uri, l);
    let pf = patch_entries(t);
    assert forall|k: int| 0 <= k < pf.len() implies (#[trigger] g(pf[k]) matches Some(a) ==> p(a)) by {
        let pe = pf[k];
        lemma_children_bounds(t, pe, PATCH_NAME, t.len());
        if let Some(n) = name_token(t, pe) {
            assert(is_child(t, pe, n));
        }
    }
    lemma_filter_map_all(pf, g, p);
}

} // verus!
