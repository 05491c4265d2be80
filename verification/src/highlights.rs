//! Document highlights for patch files: from a file header or a hunk, the
//! headers of every section for the same file.
use vstd::prelude::*;
use vstd::string::StringSliceAdditionalSpecFns;
use crate::lsp::{flat_map, filter_map, lemma_filter_map_step, lemma_flat_map_all, lemma_flat_map_step, lemma_take_full, DocumentHighlight, HighlightKind};
use crate::patch::{file_path, hunk_header, hunks, HUNK, new_file, old_file, patch_files, PatchDocument, HUNK_HEADER, NEW_FILE, OLD_FILE, PATCH_FILE, ROOT};
use crate::position::{fits, spec_position_to_offset, try_position_to_offset, Position};
use crate::syntax::{ancestors, children_of_kind, first_of_kinds, is_child, lemma_children_bounds, lsp_range, token_at, wf, ElementView};
use crate::text::str_eq;

verus! {

/// The file diff that holds an offset: the nearest enclosing node that is
/// a file diff or the root, when it is a file diff.
pub open spec fn file_at(t: Seq<ElementView>, bytes: Seq<u8>, position: Position) -> Option<nat> {
    match spec_position_to_offset(bytes, position) {
        None => None,
        Some(off) => match token_at(t, off) {
            None => None,
            Some(tok) => match first_of_kinds(t, ancestors(t, tok), seq![PATCH_FILE, ROOT], 0) {
                Some(n) => if t[n as int].kind == PATCH_FILE {
                    Some(n)
                } else {
                    None
                },
                None => None,
            },
        },
    }
}

pub open spec fn opt_highlight(bytes: Seq<u8>, t: Seq<ElementView>, e: Option<nat>, kind: HighlightKind) -> Seq<DocumentHighlight> {
    match e {
        Some(i) => seq![DocumentHighlight { range: lsp_range(bytes, t[i as int]), kind }],
        None => Seq::empty(),
    }
}

/// The highlights of one file diff: its headers as writes, its hunk
/// headers as reads.
pub open spec fn file_highlights(t: Seq<ElementView>, bytes: Seq<u8>, f: nat) -> Seq<DocumentHighlight> {
    opt_highlight(bytes, t, old_file(t, f), HighlightKind::Write) + opt_highlight(bytes, t, new_file(t, f), HighlightKind::Write)
        + flat_map(hunks(t, f), |h: nat| opt_highlight(bytes, t, hunk_header(t, h), HighlightKind::Read))
}

/// From the file diff under the cursor, the highlights of every file diff
/// with the same path.
pub open spec fn spec_highlights(t: Seq<ElementView>, bytes: Seq<u8>, position: Position) -> Seq<DocumentHighlight> {
    match file_at(t, bytes, position) {
        None => Seq::empty(),
        Some(f) => match file_path(t, f) {
            None => Seq::empty(),
            Some(target) => flat_map(
                patch_files(t),
                |g: nat| if file_path(t, g) == Some(target) {
                    file_highlights(t, bytes, g)
                } else {
                    Seq::empty()
                },
            ),
        },
    }
}

impl PatchDocument {
    /// The path of a file diff, the new one preferred.
    pub fn file_path(&self, f: usize) -> (r: Option<String>)
        ensures
            r matches Some(p) ==> file_path(self.tree@, f as nat) == Some(p@),
            r is None ==> file_path(self.tree@, f as nat) is None,
    {
        match self.header_path(self.tree.first_child_of_kind(f, NEW_FILE)) {
            Some(p) => Some(p),
            None => self.header_path(self.tree.first_child_of_kind(f, OLD_FILE)),
        }
    }

    /// The file diff that holds a position.
    pub fn file_at(&self, source_text: &str, position: Position) -> (r: Option<usize>)
        requires
            fits(source_text.spec_bytes()),
            wf(self.tree@),
        ensures
            r matches Some(f) ==> file_at(self.tree@, source_text.spec_bytes(), position) == Some(f as nat) && f < self.tree@.len(),
            r is None ==> file_at(self.tree@, source_text.spec_bytes(), position) is None,
    {
        let off = match try_position_to_offset(source_text, position) {
            None => return None,
            Some(o) => o,
        };
        let tok = match self.tree.token_at(off) {
            None => return None,
            Some(t) => t,
        };
        let anc = self.tree.ancestors(tok);
        let kinds = [PATCH_FILE, ROOT];
        assert(kinds@ =~= seq![PATCH_FILE, ROOT]);
        match self.tree.first_of_kinds(&anc, &kinds) {
            Some(n) => if self.tree.kind_of(n) == PATCH_FILE {
                Some(n)
            } else {
                None
            },
            None => None,
        }
    }
}

fn push_opt(out: &mut Vec<DocumentHighlight>, patch: &PatchDocument, text: &str, e: Option<usize>, kind: HighlightKind)
    requires
        fits(text.spec_bytes()),
        e matches Some(i) ==> i < patch.tree@.len(),
    ensures
        final(out)@ == old(out)@ + opt_highlight(text.spec_bytes(), patch.tree@, crate::patch::opt_nat(e), kind),
{
    if let Some(i) = e {
        let r = patch.tree.lsp_range_of(text, i);
        out.push(DocumentHighlight { range: r, kind });
    }
    assert(out@ =~= old(out)@ + opt_highlight(text.spec_bytes(), patch.tree@, crate::patch::opt_nat(e), kind));
}

/// Get document highlights at the given position.
pub fn get_highlights(patch: &PatchDocument, source_text: &str, position: Position) -> (r: Vec<DocumentHighlight>)
    requires
        fits(source_text.spec_bytes()),
        wf(patch.tree@),
    ensures
        r@ == spec_highlights(patch.tree@, source_text.spec_bytes(), position),
{
    let ghost t = patch.tree@;
    let ghost bytes = source_text.spec_bytes();
    let f = match patch.file_at(source_text, position) {
        None => return Vec::new(),
        Some(f) => f,
    };
    let target = match patch.file_path(f) {
        None => return Vec::new(),
        Some(p) => p,
    };
    let ghost tg = target@;
    let ghost ff = |g: nat| if file_path(t, g) == Some(tg) {
        file_highlights(t, bytes, g)
    } else {
        Seq::empty()
    };
    let files = patch.patch_files();
    let ghost pf = patch_files(t);
    let mut out: Vec<DocumentHighlight> = Vec::new();
    let mut fi: usize = 0;
    while fi < files.len()
        invariant
            t == patch.tree@,
            bytes == source_text.spec_bytes(),
            fits(bytes),
            tg == target@,
            ff == (|g: nat| if file_path(t, g) == Some(tg) {
                file_highlights(t, bytes, g)
            } else {
                Seq::empty()
            }),
            pf == patch_files(t),
            files@.map_values(|c: usize| c as nat) == pf,
            forall|k: int| 0 <= k < files@.len() ==> #[trigger] files@[k] < t.len(),
            fi <= files@.len(),
            out@ == flat_map(pf.take(fi as int), ff),
        decreases files@.len() - fi,
    {
        let g = files[fi];
        assert(pf[fi as int] == g as nat);
        proof {
            lemma_flat_map_step(pf, ff, fi as int);
        }
        let same = match patch.file_path(g) {
            Some(p) => str_eq(p.as_str(), target.as_str()),
            None => false,
        };
        if same {
            let ghost before = out@;
            push_opt(&mut out, patch, source_text, patch.tree.first_child_of_kind(g, OLD_FILE), HighlightKind::Write);
            push_opt(&mut out, patch, source_text, patch.tree.first_child_of_kind(g, NEW_FILE), HighlightKind::Write);
            let ghost base = out@;
            let hs = patch.hunks(g);
            let ghost hf = hunks(t, g as nat);
            let ghost gh = |h: nat| opt_highlight(bytes, t, hunk_header(t, h), HighlightKind::Read);
            let mut hi: usize = 0;
            while hi < hs.len()
                invariant
                    t == patch.tree@,
                    bytes == source_text.spec_bytes(),
                    fits(bytes),
                    hf == hunks(t, g as nat),
                    gh == (|h: nat| opt_highlight(bytes, t, hunk_header(t, h), HighlightKind::Read)),
                    hs@.map_values(|c: usize| c as nat) == hf,
                    hi <= hs@.len(),
                    out@ == base + flat_map(hf.take(hi as int), gh),
                decreases hs@.len() - hi,
            {
                let h = hs[hi];
                assert(hf[hi as int] == h as nat);
                proof {
                    lemma_flat_map_step(hf, gh, hi as int);
                }
                push_opt(&mut out, patch, source_text, patch.tree.first_child_of_kind(h, HUNK_HEADER), HighlightKind::Read);
                assert(out@ =~= base + flat_map(hf.take(hi + 1), gh));
                hi = hi + 1;
            }
            proof {
                lemma_take_full(hf);
            }
            assert(out@ =~= before + file_highlights(t, bytes, g as nat));
        }
        assert(out@ =~= flat_map(pf.take(fi + 1), ff));
        fi = fi + 1;
    }
    proof {
        lemma_take_full(pf);
    }
    out
}

/// A highlight of a section for the file at `target`: a write over one of
/// its `---`/`+++` headers, or a read over the header of one of its hunks.
pub open spec fn marks_file_section(t: Seq<ElementView>, bytes: Seq<u8>, target: Seq<char>, h: DocumentHighlight) -> bool {
    ||| h.kind == HighlightKind::Write && exists|g: nat, i: nat|
        #![trigger is_child(t, g, i)]
        is_child(t, g, i) && file_path(t, g) == Some(target) && (t[i as int].kind == OLD_FILE || t[i as int].kind == NEW_FILE)
            && h.range == lsp_range(bytes, t[i as int])
    ||| h.kind == HighlightKind::Read && exists|g: nat, k: nat, i: nat|
        #![trigger is_child(t, g, k), is_child(t, k, i)]
        is_child(t, g, k) && t[k as int].kind == HUNK && is_child(t, k, i) && t[i as int].kind == HUNK_HEADER
            && file_path(t, g) == Some(target) && h.range == lsp_range(bytes, t[i as int])
}

proof fn lemma_file_highlights_mark(t: Seq<ElementView>, bytes: Seq<u8>, target: Seq<char>, g: nat)
    requires
        file_path(t, g) == Some(target),
    ensures
        forall|j: int| 0 <= j < file_highlights(t, bytes, g).len() ==> marks_file_section(t, bytes, target, #[trigger] file_highlights(t, bytes, g)[j]),
{
    lemma_children_bounds(t, g, OLD_FILE, t.len());
    lemma_children_bounds(t, g, NEW_FILE, t.len());
    lemma_children_bounds(t, g, HUNK, t.len());
    let a = opt_highlight(bytes, t, old_file(t, g), HighlightKind::Write);
    let b = opt_highlight(bytes, t, new_file(t, g), HighlightKind::Write);
    let hs = hunks(t, g);
    let gh = |h: nat| opt_highlight(bytes, t, hunk_header(t, h), HighlightKind::Read);
    let p = |x: DocumentHighlight| marks_file_section(t, bytes, target, x);
    if let Some(i) = old_file(t, g) {
        assert(is_child(t, g, i));
        assert(p(a[0]));
    }
    if let Some(i) = new_file(t, g) {
        assert(is_child(t, g, i));
        assert(p(b[0]));
    }
    assert forall|k: int, j: int| 0 <= k < hs.len() && 0 <= j < gh(hs[k]).len() implies p(#[trigger] gh(hs[k])[j]) by {
        let hk = hs[k];
        assert(is_child(t, g, hk));
        lemma_children_bounds(t, hk, HUNK_HEADER, t.len());
        let i = hunk_header(t, hk)->0;
        assert(is_child(t, hk, i));
    }
    lemma_flat_map_all(hs, gh, p);
    let c = flat_map(hs, gh);
    assert forall|j: int| 0 <= j < file_highlights(t, bytes, g).len() implies marks_file_section(t, bytes, target, #[trigger] file_highlights(t, bytes, g)[j]) by {
        let all = file_highlights(t, bytes, g);
        assert(all =~= a + b + c);
        if j < a.len() {
            assert(all[j] == a[j]);
        } else if j < a.len() + b.len() {
            assert(all[j] == b[j - a.len()]);
        } else {
            assert(all[j] == c[j - a.len() - b.len()]);
            assert(p(c[j - a.len() - b.len()]));
        }
    }
}

/// Every highlight marks a section of the file under the cursor: its
/// `---` and `+++` headers as writes, the headers of its hunks as reads, in
/// every file diff with the same path.
pub proof fn lemma_highlights_mark_same_file(t: Seq<ElementView>, bytes: Seq<u8>, position: Position)
    ensures
        forall|j: int|
            0 <= j < spec_highlights(t, bytes, position).len() ==> (file_at(t, bytes, position) matches Some(f) && file_path(t, f) matches Some(target)
                && marks_file_section(t, bytes, target, #[trigger] spec_highlights(t, bytes, position)[j])),
{
    if let Some(f) = file_at(t, bytes, position) {
        if let Some(target) = file_path(t, f) {
            let ff = |g: nat| if file_path(t, g) == Some(target) {
                file_highlights(t, bytes, g)
            } else {
                Seq::empty()
            };
            let p = |x: DocumentHighlight| marks_file_section(t, bytes, target, x);
            let pf = patch_files(t);
            assert forall|k: int, j: int| 0 <= k < pf.len() && 0 <= j < ff(pf[k]).len() implies p(#[trigger] ff(pf[k])[j]) by {
                lemma_file_highlights_mark(t, bytes, target, pf[k]);
            }
            lemma_flat_map_all(pf, ff, p);
            assert(spec_highlights(t, bytes, position) == flat_map(pf, ff));
        }
    }
}

} // verus!
