//! Diagnostics of a patch file: its parse errors, hunks whose header
//! counts do not match their lines, and file paths that occur twice.
use vstd::prelude::*;
use vstd::string::{StringExecFns, StringSliceAdditionalSpecFns};
use crate::code_actions::positions;
use crate::hunk_header::counts_mismatch;
use crate::lsp::{filter_map, flat_map, lemma_filter_map_step, lemma_flat_map_step, lemma_take_full, Diagnostic, DiagnosticView, Severity};
use crate::patch::{file_path, hunk_header, hunks, patch_files, PatchDocument, HUNK_HEADER};
use crate::position::{fits, spec_offset_to_position, text_range_to_lsp_range, Range, TextRange};
use crate::syntax::{lsp_range, ElementView, ParseErrorInfo};
use crate::text::{push_str, str_eq};

verus! {

/// A diagnostic with the given parts.
pub fn make_diagnostic(range: Range, severity: Severity, code: &str, message: String) -> (r: Diagnostic)
    ensures
        r@ == (DiagnosticView { range, severity, code: code@, message: message@ }),
{
    Diagnostic { range, severity, code: String::from_str(code), message }
}

/// The diagnostic of a parse error.
pub open spec fn error_diagnostic(bytes: Seq<u8>, e: (u32, u32, Seq<char>)) -> DiagnosticView {
    DiagnosticView {
        range: Range {
            start: spec_offset_to_position(bytes, e.0 as int),
            end: spec_offset_to_position(bytes, e.1 as int),
        },
        severity: Severity::Error,
        code: "parse-error"@,
        message: e.2,
    }
}

/// The warning on a hunk whose header counts do not match its lines, placed
/// on the header.
pub open spec fn count_diagnostic(t: Seq<ElementView>, bytes: Seq<u8>, h: nat) -> Option<DiagnosticView> {
    match hunk_header(t, h) {
        Some(hd) => if counts_mismatch(t, h) {
            Some(DiagnosticView {
                range: lsp_range(bytes, t[hd as int]),
                severity: Severity::Warning,
                code: "hunk-count-mismatch"@,
                message: "Hunk line counts do not match the header"@,
            })
        } else {
            None
        },
        None => None,
    }
}

/// The count warnings of the hunks of one file diff, in order.
pub open spec fn file_count_diagnostics(t: Seq<ElementView>, bytes: Seq<u8>, f: nat) -> Seq<DiagnosticView> {
    let hs = hunks(t, f);
    filter_map(positions(hs.len()), |k: nat| count_diagnostic(t, bytes, hs[k as int]))
}

/// The count warnings of all hunks, in document order.
pub open spec fn count_diagnostics(t: Seq<ElementView>, bytes: Seq<u8>) -> Seq<DiagnosticView> {
    let pf = patch_files(t);
    flat_map(positions(pf.len()), |fi: nat| file_count_diagnostics(t, bytes, pf[fi as int]))
}

/// Whether one of the first `n` file diffs has path `p`.
pub open spec fn path_listed_before(t: Seq<ElementView>, n: nat, p: Seq<char>) -> bool {
    exists|g: int| 0 <= g < n && file_path(t, #[trigger] patch_files(t)[g]) == Some(p)
}

/// The warning on a file diff whose path an earlier file diff has, placed
/// on the file diff.
pub open spec fn duplicate_diagnostic(t: Seq<ElementView>, bytes: Seq<u8>, fi: nat) -> Option<DiagnosticView> {
    let f = patch_files(t)[fi as int];
    match file_path(t, f) {
        Some(p) => if path_listed_before(t, fi, p) {
            Some(DiagnosticView {
                range: lsp_range(bytes, t[f as int]),
                severity: Severity::Warning,
                code: "duplicate-file"@,
                message: "Duplicate file path: "@ + p,
            })
        } else {
            None
        },
        None => None,
    }
}

/// The duplicate-path warnings, in document order.
pub open spec fn duplicate_diagnostics(t: Seq<ElementView>, bytes: Seq<u8>) -> Seq<DiagnosticView> {
    filter_map(positions(patch_files(t).len()), |fi: nat| duplicate_diagnostic(t, bytes, fi))
}

/// The diagnostics of a patch: one error per parse error, then one warning
/// per hunk whose header counts are wrong, then one per file diff whose path
/// an earlier one has.
pub fn get_diagnostics(source_text: &str, parsed: &PatchDocument) -> (r: Vec<Diagnostic>)
    requires
        fits(source_text.spec_bytes()),
    ensures
        r@.map_values(|d: Diagnostic| d@) == parsed.errors@.map_values(
            |e: ParseErrorInfo| error_diagnostic(source_text.spec_bytes(), (e.start, e.end, e.message@)),
        ) + count_diagnostics(parsed.tree@, source_text.spec_bytes()) + duplicate_diagnostics(
            parsed.tree@,
            source_text.spec_bytes(),
        ),
{
    let mut out = errors_to_diagnostics(source_text, &parsed.errors);
    let mut counts = count_warnings(source_text, parsed);
    let mut dups = duplicate_warnings(source_text, parsed);
    let ghost a = out@;
    let ghost b = counts@;
    let ghost c = dups@;
    out.append(&mut counts);
    out.append(&mut dups);
    assert(out@ =~= a + b + c);
    assert(out@.map_values(|d: Diagnostic| d@) =~= a.map_values(|d: Diagnostic| d@) + b.map_values(|d: Diagnostic| d@) + c.map_values(|d: Diagnostic| d@));
    out
}

/// The count warnings of a patch, in document order.
pub fn count_warnings(source_text: &str, parsed: &PatchDocument) -> (r: Vec<Diagnostic>)
    requires
        fits(source_text.spec_bytes()),
    ensures
        r@.map_values(|d: Diagnostic| d@) == count_diagnostics(parsed.tree@, source_text.spec_bytes()),
{
    let ghost t = parsed.tree@;
    let ghost bytes = source_text.spec_bytes();
    let files = parsed.patch_files();
    let ghost pf = patch_files(t);
    let ghost ff = |fi: nat| file_count_diagnostics(t, bytes, pf[fi as int]);
    let mut out: Vec<Diagnostic> = Vec::new();
    let mut fi: usize = 0;
    while fi < files.len()
        invariant
            t == parsed.tree@,
            bytes == source_text.spec_bytes(),
            fits(bytes),
            pf == patch_files(t),
            ff == (|fi: nat| file_count_diagnostics(t, bytes, pf[fi as int])),
            files@.map_values(|c: usize| c as nat) == pf,
            forall|k: int| 0 <= k < files@.len() ==> #[trigger] files@[k] < t.len(),
            fi <= files@.len(),
            out@.map_values(|d: Diagnostic| d@) == flat_map(positions(pf.len()).take(fi as int), ff),
        decreases files@.len() - fi,
    {
        let f = files[fi];
        assert(pf[fi as int] == f as nat);
        let hs = parsed.hunks(f);
        let ghost hf = hunks(t, f as nat);
        let ghost gh = |k: nat| count_diagnostic(t, bytes, hf[k as int]);
        let ghost base = out@.map_values(|d: Diagnostic| d@);
        let mut hi: usize = 0;
        while hi < hs.len()
            invariant
                t == parsed.tree@,
                bytes == source_text.spec_bytes(),
                fits(bytes),
                hf == hunks(t, f as nat),
                gh == (|k: nat| count_diagnostic(t, bytes, hf[k as int])),
                hs@.map_values(|c: usize| c as nat) == hf,
                forall|k: int| 0 <= k < hs@.len() ==> #[trigger] hs@[k] < t.len(),
                hi <= hs@.len(),
                out@.map_values(|d: Diagnostic| d@) == base + filter_map(positions(hf.len()).take(hi as int), gh),
            decreases hs@.len() - hi,
        {
            let h = hs[hi];
            assert(hf[hi as int] == h as nat);
            proof {
                lemma_filter_map_step(positions(hf.len()), gh, hi as int);
            }
            let ghost before = out@.map_values(|d: Diagnostic| d@);
            if let Some(hd) = parsed.tree.first_child_of_kind(h, HUNK_HEADER) {
                if parsed.counts_mismatch(h) {
                    let range = parsed.tree.lsp_range_of(source_text, hd);
                    let d = make_diagnostic(
                        range,
                        Severity::Warning,
                        "hunk-count-mismatch",
                        String::from_str("Hunk line counts do not match the header"),
                    );
                    out.push(d);
                    assert(out@.map_values(|d: Diagnostic| d@) =~= before.push(d@));
                }
            }
            hi = hi + 1;
        }
        proof {
            lemma_take_full(positions(hf.len()));
            lemma_flat_map_step(positions(pf.len()), ff, fi as int);
        }
        fi = fi + 1;
    }
    proof {
        lemma_take_full(positions(pf.len()));
    }
    out
}

/// Whether one of the first `n` paths is `p`.
fn listed_before(paths: &Vec<Option<String>>, n: usize, p: &str) -> (r: bool)
    requires
        n <= paths@.len(),
    ensures
        r == exists|g: int| 0 <= g < n && (#[trigger] paths@[g] matches Some(q) && q@ == p@),
{
    let mut i: usize = 0;
    while i < n
        invariant
            n <= paths@.len(),
            i <= n,
            forall|g: int| 0 <= g < i ==> !(#[trigger] paths@[g] matches Some(q) && q@ == p@),
        decreases n - i,
    {
        if let Some(q) = &paths[i] {
            if str_eq(q.as_str(), p) {
                assert(paths@[i as int] matches Some(q) && q@ == p@);
                return true;
            }
        }
        i = i + 1;
    }
    false
}

/// The duplicate-path warnings of a patch, in document order.
pub fn duplicate_warnings(source_text: &str, parsed: &PatchDocument) -> (r: Vec<Diagnostic>)
    requires
        fits(source_text.spec_bytes()),
    ensures
        r@.map_values(|d: Diagnostic| d@) == duplicate_diagnostics(parsed.tree@, source_text.spec_bytes()),
{
    let ghost t = parsed.tree@;
    let ghost bytes = source_text.spec_bytes();
    let files = parsed.patch_files();
    let ghost pf = patch_files(t);
    let ghost g = |fi: nat| duplicate_diagnostic(t, bytes, fi);
    let mut paths: Vec<Option<String>> = Vec::new();
    let mut out: Vec<Diagnostic> = Vec::new();
    let mut fi: usize = 0;
    while fi < files.len()
        invariant
            t == parsed.tree@,
            bytes == source_text.spec_bytes(),
            fits(bytes),
            pf == patch_files(t),
            g == (|fi: nat| duplicate_diagnostic(t, bytes, fi)),
            files@.map_values(|c: usize| c as nat) == pf,
            forall|k: int| 0 <= k < files@.len() ==> #[trigger] files@[k] < t.len(),
            fi <= files@.len(),
            paths@.len() == fi,
            forall|k: int| 0 <= k < fi ==> match #[trigger] paths@[k] {
                Some(q) => file_path(t, pf[k]) == Some(q@),
                None => file_path(t, pf[k]) is None,
            },
            out@.map_values(|d: Diagnostic| d@) == filter_map(positions(pf.len()).take(fi as int), g),
        decreases files@.len() - fi,
    {
        let f = files[fi];
        assert(pf[fi as int] == f as nat);
        proof {
            lemma_filter_map_step(positions(pf.len()), g, fi as int);
        }
        let ghost before = out@.map_values(|d: Diagnostic| d@);
        let path = parsed.file_path(f);
        if let Some(p) = &path {
            let dup = listed_before(&paths, fi, p.as_str());
            assert(dup == path_listed_before(t, fi as nat, p@)) by {
                if dup {
                    let k = choose|k: int| 0 <= k < fi && (#[trigger] paths@[k] matches Some(q) && q@ == p@);
                    assert(file_path(t, patch_files(t)[k]) == Some(p@));
                }
                if path_listed_before(t, fi as nat, p@) {
                    let k = choose|k: int| 0 <= k < fi && file_path(t, #[trigger] patch_files(t)[k]) == Some(p@);
                    assert(paths@[k] matches Some(q) && q@ == p@);
                }
            }
            if dup {
                let mut msg = String::from_str("Duplicate file path: ");
                push_str(&mut msg, p.as_str());
                let range = parsed.tree.lsp_range_of(source_text, f);
                let d = make_diagnostic(range, Severity::Warning, "duplicate-file", msg);
                out.push(d);
                assert(out@.map_values(|d: Diagnostic| d@) =~= before.push(d@));
            }
        }
        paths.push(path);
        fi = fi + 1;
    }
    proof {
        lemma_take_full(positions(pf.len()));
    }
    out
}

/// One error diagnostic per parse error.
pub fn errors_to_diagnostics(source_text: &str, errors: &Vec<ParseErrorInfo>) -> (r: Vec<Diagnostic>)
    requires
        fits(source_text.spec_bytes()),
    ensures
        r@.map_values(|d: Diagnostic| d@) == errors@.map_values(
            |e: ParseErrorInfo| error_diagnostic(source_text.spec_bytes(), (e.start, e.end, e.message@)),
        ),
{
    let ghost bytes = source_text.spec_bytes();
    let mut out: Vec<Diagnostic> = Vec::new();
    let mut i: usize = 0;
    while i < errors.len()
        invariant
            bytes == source_text.spec_bytes(),
            fits(bytes),
            i <= errors@.len(),
            out@.map_values(|d: Diagnostic| d@) == errors@.take(i as int).map_values(
                |e: ParseErrorInfo| error_diagnostic(bytes, (e.start, e.end, e.message@)),
            ),
        decreases errors@.len() - i,
    {
        let e = &errors[i];
        let range = text_range_to_lsp_range(source_text, TextRange { start: e.start, end: e.end });
        let d = make_diagnostic(range, Severity::Error, "parse-error", e.message.clone());
        assert(d@ == error_diagnostic(bytes, (e.start, e.end, e.message@)));
        let ghost before = out@;
        out.push(d);
        assert(out@.map_values(|d: Diagnostic| d@) =~= before.map_values(|d: Diagnostic| d@).push(d@));
        assert(errors@.take(i + 1) =~= errors@.take(i as int).push(errors@[i as int]));
        assert(out@.map_values(|d: Diagnostic| d@) =~= errors@.take(i + 1).map_values(
            |e: ParseErrorInfo| error_diagnostic(bytes, (e.start, e.end, e.message@)),
        ));
        i = i + 1;
    }
    assert(errors@.take(errors@.len() as int) =~= errors@);
    out
}

/// A hunk gets a count warning, on its header, exactly when it has a header
/// and its declared counts are wrong.
pub proof fn lemma_count_warning_on_header(t: Seq<ElementView>, bytes: Seq<u8>, h: nat)
    ensures
        count_diagnostic(t, bytes, h) is Some <==> (hunk_header(t, h) is Some && counts_mismatch(t, h)),
        count_diagnostic(t, bytes, h) matches Some(d) ==> {
            &&& d.range == lsp_range(bytes, t[hunk_header(t, h)->0 as int])
            &&& d.severity == Severity::Warning
            &&& d.code == "hunk-count-mismatch"@
        },
{
}

/// A file diff whose path an earlier file diff also has is warned about,
/// naming the path; the first file diff with a path never is.
pub proof fn lemma_duplicate_path_warned(t: Seq<ElementView>, bytes: Seq<u8>, g: nat, fi: nat)
    requires
        g < fi < patch_files(t).len(),
        file_path(t, patch_files(t)[g as int]) is Some,
        file_path(t, patch_files(t)[g as int]) == file_path(t, patch_files(t)[fi as int]),
    ensures
        duplicate_diagnostic(t, bytes, fi) == Some(DiagnosticView {
            range: lsp_range(bytes, t[patch_files(t)[fi as int] as int]),
            severity: Severity::Warning,
            code: "duplicate-file"@,
            message: "Duplicate file path: "@ + file_path(t, patch_files(t)[fi as int])->0,
        }),
{
    assert(path_listed_before(t, fi, file_path(t, patch_files(t)[fi as int])->0)) by {
        assert(0 <= g < fi && file_path(t, patch_files(t)[g as int]) == Some(file_path(t, patch_files(t)[fi as int])->0));
    }
}

/// Only a file diff whose path comes earlier too is warned about as a
/// duplicate.
pub proof fn lemma_duplicate_warning_has_earlier(t: Seq<ElementView>, bytes: Seq<u8>, fi: nat)
    requires
        duplicate_diagnostic(t, bytes, fi) is Some,
    ensures
        exists|g: int| 0 <= g < fi && #[trigger] file_path(t, patch_files(t)[g]) == file_path(t, patch_files(t)[fi as int]),
{
    let p = file_path(t, patch_files(t)[fi as int])->0;
    let g = choose|g: int| 0 <= g < fi && file_path(t, #[trigger] patch_files(t)[g]) == Some(p);
    assert(file_path(t, patch_files(t)[g]) == file_path(t, patch_files(t)[fi as int]));
}

} // verus!
