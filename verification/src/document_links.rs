//! Links from the paths in `---`/`+++` headers to the files they name,
//! resolved against the patch's own directory.
use vstd::prelude::*;
use vstd::string::StringSliceAdditionalSpecFns;
use crate::lsp::{flat_map, lemma_flat_map_step, lemma_take_full, DocumentLink, DocumentLinkView};
use crate::patch::{new_file, old_file, patch_files, path_token, PatchDocument, NEW_FILE, OLD_FILE, PATH};
use crate::position::fits;
use crate::scip::{spec_strip_ab_prefix, strip_ab_prefix};
use crate::syntax::{lsp_range, ElementView};
use crate::text::{chars_eq, chars_of, push_str, slice_chars, string_of};
use crate::uri::{spec_uri_parses, uri_parses};

verus! {

pub open spec fn dev_null() -> Seq<char> {
    seq!['/', 'd', 'e', 'v', '/', 'n', 'u', 'l', 'l']
}

pub fn is_dev_null(s: &str) -> (r: bool)
    ensures
        r == (s@ == dev_null()),
{
    let d = vec!['/', 'd', 'e', 'v', '/', 'n', 'u', 'l', 'l'];
    assert(d@ =~= dev_null());
    chars_eq(chars_of(s).as_slice(), d.as_slice())
}

/// The index of the last `/` among the first `n` characters.
pub open spec fn last_slash_upto(s: Seq<char>, n: nat) -> Option<nat>
    decreases n,
{
    if n == 0 || n > s.len() {
        None
    } else if s[n - 1] == '/' {
        Some((n - 1) as nat)
    } else {
        last_slash_upto(s, (n - 1) as nat)
    }
}

/// What precedes the last `/` of a URI, or the whole URI without one
/// (`rsplit_once('/')`).
pub open spec fn link_dir(uri: Seq<char>) -> Seq<char> {
    match last_slash_upto(uri, uri.len()) {
        Some(i) => uri.take(i as int),
        None => uri,
    }
}

pub fn link_dir_of(uri: &str) -> (r: Vec<char>)
    ensures
        r@ == link_dir(uri@),
{
    let u = chars_of(uri);
    let mut n = u.len();
    while n > 0 && u[n - 1] != '/'
        invariant
            n <= u@.len(),
            u@ == uri@,
            last_slash_upto(u@, u@.len()) == last_slash_upto(u@, n as nat),
        decreases n,
    {
        n = n - 1;
    }
    if n == 0 {
        slice_chars(u.as_slice(), 0, u.len())
    } else {
        slice_chars(u.as_slice(), 0, n - 1)
    }
}

/// The link of a file header: from its path token (unless it is
/// `/dev/null`) to the document's directory joined with the path without
/// its `a/` or `b/`, when that target parses as a URI.
pub open spec fn path_link(t: Seq<ElementView>, bytes: Seq<u8>, uri: Seq<char>, header: nat) -> Option<DocumentLinkView> {
    match path_token(t, header) {
        None => None,
        Some(p) => {
            let pt = t[p as int].text;
            let clean = spec_strip_ab_prefix(pt);
            let target = link_dir(uri) + seq!['/'] + clean;
            if pt == dev_null() || !spec_uri_parses(target) {
                None
            } else {
                Some(DocumentLinkView { range: lsp_range(bytes, t[p as int]), target, tooltip: clean })
            }
        },
    }
}

pub open spec fn opt_link(t: Seq<ElementView>, bytes: Seq<u8>, uri: Seq<char>, header: Option<nat>) -> Seq<DocumentLinkView> {
    match header {
        Some(h) => match path_link(t, bytes, uri, h) {
            Some(l) => seq![l],
            None => Seq::empty(),
        },
        None => Seq::empty(),
    }
}

pub open spec fn file_links(t: Seq<ElementView>, bytes: Seq<u8>, uri: Seq<char>, f: nat) -> Seq<DocumentLinkView> {
    opt_link(t, bytes, uri, old_file(t, f)) + opt_link(t, bytes, uri, new_file(t, f))
}

/// The links of a patch: the old then the new path of each file.
pub open spec fn spec_document_links(t: Seq<ElementView>, bytes: Seq<u8>, uri: Seq<char>) -> Seq<DocumentLinkView> {
    flat_map(patch_files(t), |f: nat| file_links(t, bytes, uri, f))
}

fn path_link_exec(patch: &PatchDocument, source_text: &str, header: Option<usize>, document_uri: &str) -> (r: Option<DocumentLink>)
    requires
        fits(source_text.spec_bytes()),
        header matches Some(h) ==> h < patch.tree@.len(),
    ensures
        r matches Some(l) ==> opt_link(patch.tree@, source_text.spec_bytes(), document_uri@, crate::patch::opt_nat(header)) == seq![l@],
        r is None ==> opt_link(patch.tree@, source_text.spec_bytes(), document_uri@, crate::patch::opt_nat(header)) == Seq::<DocumentLinkView>::empty(),
{
    let h = match header {
        None => return None,
        Some(h) => h,
    };
    let p = match patch.tree.first_child_of_kind(h, PATH) {
        None => return None,
        Some(p) => p,
    };
    let pt = patch.tree.text_of(p);
    if is_dev_null(pt.as_str()) {
        return None;
    }
    let clean = strip_ab_prefix(pt.as_str());
    let mut target = string_of(link_dir_of(document_uri).as_slice());
    target.push('/');
    push_str(&mut target, clean.as_str());
    assert(target@ =~= link_dir(document_uri@) + seq!['/'] + spec_strip_ab_prefix(pt@));
    if !uri_parses(target.as_str()) {
        return None;
    }
    let range = patch.tree.lsp_range_of(source_text, p);
    Some(DocumentLink { range, target, tooltip: clean })
}

/// Generate document links for file paths in `---` / `+++` headers.
pub fn get_document_links(patch: &PatchDocument, source_text: &str, document_uri: &str) -> (r: Vec<DocumentLink>)
    requires
        fits(source_text.spec_bytes()),
    ensures
        r@.map_values(|l: DocumentLink| l@) == spec_document_links(patch.tree@, source_text.spec_bytes(), document_uri@),
{
    let ghost t = patch.tree@;
    let ghost bytes = source_text.spec_bytes();
    let ghost uri = document_uri@;
    let ghost ff = |f: nat| file_links(t, bytes, uri, f);
    let files = patch.patch_files();
    let ghost pf = patch_files(t);
    let mut out: Vec<DocumentLink> = Vec::new();
    let mut fi: usize = 0;
    while fi < files.len()
        invariant
            t == patch.tree@,
            bytes == source_text.spec_bytes(),
            uri == document_uri@,
            fits(bytes),
            ff == (|f: nat| file_links(t, bytes, uri, f)),
            pf == patch_files(t),
            files@.map_values(|c: usize| c as nat) == pf,
            fi <= files@.len(),
            out@.map_values(|l: DocumentLink| l@) == flat_map(pf.take(fi as int), ff),
        decreases files@.len() - fi,
    {
        let f = files[fi];
        assert(pf[fi as int] == f as nat);
        proof {
            lemma_flat_map_step(pf, ff, fi as int);
        }
        let ghost before = out@.map_values(|l: DocumentLink| l@);
        let of = patch.tree.first_child_of_kind(f, OLD_FILE);
        let nf = patch.tree.first_child_of_kind(f, NEW_FILE);
        let ghost mid = before + opt_link(t, bytes, uri, crate::patch::opt_nat(of));
        if let Some(l) = path_link_exec(patch, source_text, of, document_uri) {
            out.push(l);
        }
        assert(out@.map_values(|l: DocumentLink| l@) =~= mid);
        if let Some(l) = path_link_exec(patch, source_text, nf, document_uri) {
            out.push(l);
        }
        assert(out@.map_values(|l: DocumentLink| l@) =~= mid + opt_link(t, bytes, uri, crate::patch::opt_nat(nf)));
        fi = fi + 1;
    }
    proof {
        lemma_take_full(pf);
    }
    out
}

/// A header's link points into the patch's directory at the header's path
/// with its `a/` or `b/` prefix taken off: the target is the directory, `/`
/// and the tooltip, and the tooltip is the path text after a leading `a/` or
/// `b/`, or the whole path text without one. A header gets a link exactly
/// when it has a path that is not `/dev/null` and the target parses.
pub proof fn lemma_link_target_strips_prefix(t: Seq<ElementView>, bytes: Seq<u8>, uri: Seq<char>, header: nat)
    ensures
        path_link(t, bytes, uri, header) matches Some(l) ==> {
            let pt = t[path_token(t, header)->0 as int].text;
            &&& l.target == link_dir(uri) + seq!['/'] + l.tooltip
            &&& l.range == lsp_range(bytes, t[path_token(t, header)->0 as int])
            &&& (pt.len() >= 2 && (pt[0] == 'a' || pt[0] == 'b') && pt[1] == '/') ==> l.tooltip == pt.skip(2)
            &&& !(pt.len() >= 2 && (pt[0] == 'a' || pt[0] == 'b') && pt[1] == '/') ==> l.tooltip == pt
        },
        path_link(t, bytes, uri, header) is Some <==> (path_token(t, header) is Some && t[path_token(t, header)->0 as int].text
            != dev_null() && spec_uri_parses(link_dir(uri) + seq!['/'] + spec_strip_ab_prefix(
            t[path_token(t, header)->0 as int].text,
        ))),
{
    if let Some(p) = path_token(t, header) {
        let pt = t[p as int].text;
        if pt.len() >= 2 && (pt[0] == 'a' || pt[0] == 'b') && pt[1] == '/' {
            assert(pt.take(2) =~= seq!['a', '/'] || pt.take(2) =~= seq!['b', '/']);
        } else {
            if pt.len() >= 2 {
                assert(pt.take(2)[0] == pt[0] && pt.take(2)[1] == pt[1]);
            }
            assert(!crate::text::has_prefix(pt, seq!['a', '/']));
            assert(!crate::text::has_prefix(pt, seq!['b', '/']));
        }
    }
}

/// Every link of a patch points at its tooltip inside the patch's directory.
pub proof fn lemma_links_point_into_directory(t: Seq<ElementView>, bytes: Seq<u8>, uri: Seq<char>)
    ensures
        forall|k: int|
            0 <= k < spec_document_links(t, bytes, uri).len() ==> (#[trigger] spec_document_links(t, bytes, uri)[k]).target
                == link_dir(uri) + seq!['/'] + spec_document_links(t, bytes, uri)[k].tooltip,
{
    let p = |l: DocumentLinkView| l.target == link_dir(uri) + seq!['/'] + l.tooltip;
    let pf = patch_files(t);
    let ff = |f: nat| file_links(t, bytes, uri, f);
    assert forall|k: int, j: int| 0 <= k < pf.len() && 0 <= j < ff(pf[k]).len() implies p(#[trigger] ff(pf[k])[j]) by {
        let f = pf[k];
        let a = opt_link(t, bytes, uri, old_file(t, f));
        let b = opt_link(t, bytes, uri, new_file(t, f));
        assert(ff(f) == a + b);
        if let Some(h) = old_file(t, f) {
            lemma_link_target_strips_prefix(t, bytes, uri, h);
        }
        if let Some(h) = new_file(t, f) {
            lemma_link_target_strips_prefix(t, bytes, uri, h);
        }
        if j < a.len() {
            assert(ff(f)[j] == a[j]);
        } else {
            assert(ff(f)[j] == b[j - a.len()]);
        }
    }
    crate::lsp::lemma_flat_map_all(pf, ff, p);
    assert forall|k: int| 0 <= k < spec_document_links(t, bytes, uri).len() implies (#[trigger] spec_document_links(t, bytes, uri)[k]).target
        == link_dir(uri) + seq!['/'] + spec_document_links(t, bytes, uri)[k].tooltip by {
        assert(p(flat_map(pf, ff)[k]));
    }
}

} // verus!
