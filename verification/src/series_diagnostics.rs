//! Diagnostics for quilt series files: patches listed twice, listed
//! patches missing from the patches directory, and files of that directory
//! the series does not list.
use vstd::prelude::*;
use vstd::string::{StringExecFns, StringSliceAdditionalSpecFns};
use crate::code_actions::positions;
use crate::diagnostics::make_diagnostic;
use crate::lsp::{lemma_filter_map_same_len, filter_map, lemma_filter_map_step, lemma_take_full, Diagnostic, DiagnosticView, Severity};
use crate::names::{is_patch_candidate, lemma_sorted_unlisted, sorted_unlisted, unlisted_sorted};
use crate::paths::{parent_dir, parent_of};
use crate::position::{fits, lemma_position_bounds, offset_to_position, spec_offset_to_position, Position, Range};
use crate::series::{entry_name, listed_names, named_entries, patch_entries, SeriesDocument};
use crate::syntax::{lsp_range, ElementView};
use crate::text::{chars_of, decimal, push_decimal, push_str, str_eq, string_of};
use crate::uri::{spec_uri_to_file_path, uri_to_file_path};

verus! {

/// The patches directory of a series file: the directory of its file path.
pub open spec fn spec_diagnostics_dir(uri: Seq<char>) -> Option<Seq<char>> {
    match spec_uri_to_file_path(uri) {
        Some(p) => parent_dir(p),
        None => None,
    }
}

/// Extract the patches directory path from a series file URI.
pub fn patches_dir_from_uri(uri: &str) -> (r: Option<String>)
    ensures
        r matches Some(d) ==> spec_diagnostics_dir(uri@) == Some(d@),
        r is None ==> spec_diagnostics_dir(uri@) is None,
{
    let p = match uri_to_file_path(uri) {
        Some(p) => p,
        None => return None,
    };
    match parent_of(chars_of(p.as_str()).as_slice()) {
        Some(d) => Some(string_of(d.as_slice())),
        None => None,
    }
}

/// What the patches directory holds: the names of its regular files, and
/// for each named patch entry of the series, in order, whether the entry's
/// name is a regular file there.
pub struct PatchesDir {
    pub files: Vec<String>,
    pub present: Vec<bool>,
}

/// The first of the first `n` names equal to `name`.
pub open spec fn first_with(names: Seq<Seq<char>>, name: Seq<char>, n: nat) -> Option<nat>
    decreases n,
{
    if n == 0 {
        None
    } else {
        match first_with(names, name, (n - 1) as nat) {
            Some(j) => Some(j),
            None => if names[n - 1] == name {
                Some((n - 1) as nat)
            } else {
                None
            },
        }
    }
}

pub proof fn lemma_first_with_stable(names: Seq<Seq<char>>, name: Seq<char>, n: nat, m: nat)
    requires
        n <= m,
        first_with(names, name, n) is Some,
    ensures
        first_with(names, name, m) == first_with(names, name, n),
    decreases m,
{
    if m > n {
        lemma_first_with_stable(names, name, n, (m - 1) as nat);
    }
}

/// The error on the `k`-th named entry when an earlier one has its name.
pub open spec fn duplicate_diagnostic(t: Seq<ElementView>, bytes: Seq<u8>, k: nat) -> Option<DiagnosticView> {
    let ids = named_entries(t);
    let names = listed_names(t);
    match first_with(names, names[k as int], k) {
        None => None,
        Some(j) => Some(
            DiagnosticView {
                range: lsp_range(bytes, t[ids[k as int] as int]),
                severity: Severity::Error,
                code: "duplicate-series-entry"@,
                message: "patch '"@ + names[k as int] + "' already listed on line "@ + decimal(
                    (lsp_range(bytes, t[ids[j as int] as int]).start.line + 1) as nat,
                ),
            },
        ),
    }
}

/// The warning on the `k`-th named entry when its file is not there.
pub open spec fn missing_diagnostic(t: Seq<ElementView>, bytes: Seq<u8>, present: Seq<bool>, k: nat) -> Option<DiagnosticView> {
    if present[k as int] {
        None
    } else {
        Some(
            DiagnosticView {
                range: lsp_range(bytes, t[named_entries(t)[k as int] as int]),
                severity: Severity::Warning,
                code: "missing-patch-file"@,
                message: "patch file '"@ + listed_names(t)[k as int] + "' not found"@,
            },
        )
    }
}

/// The hint on a file the series does not list, at the end of the text.
pub open spec fn unlisted_diagnostic(bytes: Seq<u8>, name: Seq<char>) -> DiagnosticView {
    let end = spec_offset_to_position(bytes, bytes.len() as int);
    DiagnosticView {
        range: Range { start: end, end },
        severity: Severity::Hint,
        code: "unlisted-patch-file"@,
        message: "patch file '"@ + name + "' exists but is not listed in series"@,
    }
}

pub open spec fn spec_duplicates(t: Seq<ElementView>, bytes: Seq<u8>) -> Seq<DiagnosticView> {
    filter_map(positions(named_entries(t).len()), |k: nat| duplicate_diagnostic(t, bytes, k))
}

pub open spec fn spec_missing(t: Seq<ElementView>, bytes: Seq<u8>, present: Seq<bool>) -> Seq<DiagnosticView> {
    filter_map(positions(named_entries(t).len()), |k: nat| missing_diagnostic(t, bytes, present, k))
}

pub open spec fn spec_unlisted(t: Seq<ElementView>, bytes: Seq<u8>, files: Seq<Seq<char>>) -> Seq<DiagnosticView> {
    sorted_unlisted(files, listed_names(t), true).map_values(|n: Seq<char>| unlisted_diagnostic(bytes, n))
}

/// All diagnostics: duplicates, then, where the patches directory exists,
/// missing files and unlisted files.
pub open spec fn spec_series_diagnostics(t: Seq<ElementView>, bytes: Seq<u8>, dir: Option<(Seq<Seq<char>>, Seq<bool>)>) -> Seq<DiagnosticView> {
    match dir {
        None => spec_duplicates(t, bytes),
        Some((files, present)) => spec_duplicates(t, bytes) + spec_missing(t, bytes, present) + spec_unlisted(t, bytes, files),
    }
}

/// `<a><name><b>`.
fn message(a: &str, name: &str, b: &str) -> (r: String)
    ensures
        r@ == a@ + name@ + b@,
{
    let mut s = String::new();
    push_str(&mut s, a);
    push_str(&mut s, name);
    push_str(&mut s, b);
    s
}

/// Error about each patch name listed a second time.
pub fn check_duplicate_entries(source_text: &str, series: &SeriesDocument) -> (r: Vec<Diagnostic>)
    requires
        fits(source_text.spec_bytes()),
    ensures
        r@.map_values(|d: Diagnostic| d@) == spec_duplicates(series.tree@, source_text.spec_bytes()),
{
    let ghost t = series.tree@;
    let ghost bytes = source_text.spec_bytes();
    let (ids, names) = series.named_entries();
    let ghost nv = names@.map_values(|s: String| s@);
    let ghost g = |k: nat| duplicate_diagnostic(t, bytes, k);
    let mut out: Vec<Diagnostic> = Vec::new();
    let mut k: usize = 0;
    while k < ids.len()
        invariant
            t == series.tree@,
            bytes == source_text.spec_bytes(),
            fits(bytes),
            ids@.map_values(|c: usize| c as nat) == named_entries(t),
            nv == names@.map_values(|s: String| s@),
            nv == listed_names(t),
            ids@.len() == names@.len(),
            forall|i: int| 0 <= i < ids@.len() ==> #[trigger] ids@[i] < t.len(),
            g == (|k: nat| duplicate_diagnostic(t, bytes, k)),
            k <= ids@.len(),
            out@.map_values(|d: Diagnostic| d@) == filter_map(positions(ids@.len() as nat).take(k as int), g),
        decreases ids@.len() - k,
    {
        proof {
            lemma_filter_map_step(positions(ids@.len() as nat), g, k as int);
        }
        let ghost name = nv[k as int];
        let mut j: usize = 0;
        while j < k && !str_eq(names[j].as_str(), names[k].as_str())
            invariant
                nv == names@.map_values(|s: String| s@),
                name == nv[k as int],
                j <= k < names@.len(),
                first_with(nv, name, j as nat) is None,
            decreases k - j,
        {
            j = j + 1;
        }
        assert(ids@[k as int] as nat == named_entries(t)[k as int]);
        if j < k {
            proof {
                assert(first_with(nv, name, (j + 1) as nat) == Some(j as nat));
                lemma_first_with_stable(nv, name, (j + 1) as nat, k as nat);
            }
            assert(ids@[j as int] as nat == named_entries(t)[j as int]);
            let first = series.tree.lsp_range_of(source_text, ids[j]);
            proof {
                lemma_position_bounds(bytes, if (t[ids@[j as int] as int].start as int) <= bytes.len() { t[ids@[j as int] as int].start as nat } else { bytes.len() });
            }
            let mut text = message("patch '", names[k].as_str(), "' already listed on line ");
            push_decimal(&mut text, first.start.line as u64 + 1);
            let d = make_diagnostic(series.tree.lsp_range_of(source_text, ids[k]), Severity::Error, "duplicate-series-entry", text);
            let ghost before = out@;
            out.push(d);
            assert(out@.map_values(|d: Diagnostic| d@) =~= before.map_values(|d: Diagnostic| d@).push(d@));
        }
        k = k + 1;
    }
    proof {
        lemma_take_full(positions(ids@.len() as nat));
    }
    out
}

/// Warning about each listed patch whose file is not in the directory.
pub fn check_missing_patches(source_text: &str, series: &SeriesDocument, present: &Vec<bool>) -> (r: Vec<Diagnostic>)
    requires
        fits(source_text.spec_bytes()),
        present@.len() == named_entries(series.tree@).len(),
    ensures
        r@.map_values(|d: Diagnostic| d@) == spec_missing(series.tree@, source_text.spec_bytes(), present@),
{
    let ghost t = series.tree@;
    let ghost bytes = source_text.spec_bytes();
    let (ids, names) = series.named_entries();
    let ghost g = |k: nat| missing_diagnostic(t, bytes, present@, k);
    let mut out: Vec<Diagnostic> = Vec::new();
    let mut k: usize = 0;
    while k < ids.len()
        invariant
            t == series.tree@,
            bytes == source_text.spec_bytes(),
            fits(bytes),
            ids@.map_values(|c: usize| c as nat) == named_entries(t),
            names@.map_values(|s: String| s@) == listed_names(t),
            ids@.len() == names@.len(),
            present@.len() == ids@.len(),
            forall|i: int| 0 <= i < ids@.len() ==> #[trigger] ids@[i] < t.len(),
            g == (|k: nat| missing_diagnostic(t, bytes, present@, k)),
            k <= ids@.len(),
            out@.map_values(|d: Diagnostic| d@) == filter_map(positions(ids@.len() as nat).take(k as int), g),
        decreases ids@.len() - k,
    {
        proof {
            lemma_filter_map_step(positions(ids@.len() as nat), g, k as int);
        }
        assert(ids@[k as int] as nat == named_entries(t)[k as int]);
        assert(names@[k as int]@ == listed_names(t)[k as int]);
        if !present[k] {
            let text = message("patch file '", names[k].as_str(), "' not found");
            let d = make_diagnostic(series.tree.lsp_range_of(source_text, ids[k]), Severity::Warning, "missing-patch-file", text);
            let ghost before = out@;
            out.push(d);
            assert(out@.map_values(|d: Diagnostic| d@) =~= before.map_values(|d: Diagnostic| d@).push(d@));
        }
        k = k + 1;
    }
    proof {
        lemma_take_full(positions(ids@.len() as nat));
    }
    out
}

/// Hint about each file of the directory that may be a patch and is not
/// listed, sorted, at the end of the text.
pub fn check_unlisted_patches(source_text: &str, series: &SeriesDocument, files: &Vec<String>) -> (r: Vec<Diagnostic>)
    requires
        fits(source_text.spec_bytes()),
    ensures
        r@.map_values(|d: Diagnostic| d@) == spec_unlisted(series.tree@, source_text.spec_bytes(), files@.map_values(|s: String| s@)),
{
    let ghost bytes = source_text.spec_bytes();
    let (_, listed) = series.named_entries();
    let names = unlisted_sorted(files, &listed, true);
    let ghost nv = names@.map_values(|s: String| s@);
    let end = offset_to_position(source_text, source_text.len() as u32);
    assert(source_text.len() as u32 as int == bytes.len());
    let mut out: Vec<Diagnostic> = Vec::new();
    let mut i: usize = 0;
    while i < names.len()
        invariant
            bytes == source_text.spec_bytes(),
            nv == names@.map_values(|s: String| s@),
            end == spec_offset_to_position(bytes, bytes.len() as int),
            i <= names@.len(),
            out@.map_values(|d: Diagnostic| d@) == nv.take(i as int).map_values(|n: Seq<char>| unlisted_diagnostic(bytes, n)),
        decreases names@.len() - i,
    {
        let text = message("patch file '", names[i].as_str(), "' exists but is not listed in series");
        let d = make_diagnostic(Range { start: end, end }, Severity::Hint, "unlisted-patch-file", text);
        assert(names@[i as int]@ == nv[i as int]);
        assert(d@ == unlisted_diagnostic(bytes, nv[i as int]));
        let ghost before = out@;
        out.push(d);
        assert(out@.map_values(|d: Diagnostic| d@) =~= before.map_values(|d: Diagnostic| d@).push(d@));
        assert(nv.take(i + 1) =~= nv.take(i as int).push(nv[i as int]));
        assert(out@.map_values(|d: Diagnostic| d@) =~= nv.take(i + 1).map_values(|n: Seq<char>| unlisted_diagnostic(bytes, n)));
        i = i + 1;
    }
    assert(nv.take(names@.len() as int) =~= nv);
    out
}

/// Collect all diagnostics for a series file, given what its patches
/// directory holds (`None` when there is no such directory).
pub fn get_series_diagnostics(source_text: &str, series: &SeriesDocument, dir: Option<&PatchesDir>) -> (r: Vec<Diagnostic>)
    requires
        fits(source_text.spec_bytes()),
        dir matches Some(d) ==> d.present@.len() == named_entries(series.tree@).len(),
    ensures
        r@.map_values(|d: Diagnostic| d@) == spec_series_diagnostics(
            series.tree@,
            source_text.spec_bytes(),
            match dir {
                Some(d) => Some((d.files@.map_values(|s: String| s@), d.present@)),
                None => None,
            },
        ),
{
    let mut out = check_duplicate_entries(source_text, series);
    if let Some(d) = dir {
        let mut missing = check_missing_patches(source_text, series, &d.present);
        let mut unlisted = check_unlisted_patches(source_text, series, &d.files);
        let ghost a = out@;
        let ghost b = missing@;
        let ghost c = unlisted@;
        out.append(&mut missing);
        out.append(&mut unlisted);
        assert(out@.map_values(|d: Diagnostic| d@) =~= a.map_values(|d: Diagnostic| d@) + b.map_values(|d: Diagnostic| d@) + c.map_values(|d: Diagnostic| d@));
    }
    out
}

proof fn lemma_first_with_exists(names: Seq<Seq<char>>, name: Seq<char>, n: nat)
    requires
        n <= names.len(),
    ensures
        first_with(names, name, n) is Some <==> exists|j: int| 0 <= j < n && names[j] == name,
        first_with(names, name, n) matches Some(j) ==> j < n && names[j as int] == name,
    decreases n,
{
    if n > 0 {
        lemma_first_with_exists(names, name, (n - 1) as nat);
    }
}

/// There are as many named patch entries as names.
pub proof fn lemma_named_entries_len(t: Seq<ElementView>)
    ensures
        named_entries(t).len() == listed_names(t).len(),
{
    let f = |pe: nat| match entry_name(t, pe) {
        Some(_) => Some(pe),
        None => None,
    };
    let g = |pe: nat| entry_name(t, pe);
    assert forall|x: nat| (#[trigger] f(x)) is Some <==> g(x) is Some by {}
    lemma_filter_map_same_len(patch_entries(t), f, g);
}

/// A listing of a patch is reported as a duplicate exactly when an earlier
/// entry lists the same name, and the report points at the first such line.
pub proof fn lemma_duplicate_iff_listed_before(t: Seq<ElementView>, bytes: Seq<u8>, k: nat)
    requires
        k < listed_names(t).len(),
    ensures
        duplicate_diagnostic(t, bytes, k) is Some <==> exists|j: int| 0 <= j < k && listed_names(t)[j] == listed_names(t)[k as int],
        duplicate_diagnostic(t, bytes, k) matches Some(d) ==> d.severity == Severity::Error && d.range == lsp_range(
            bytes,
            t[named_entries(t)[k as int] as int],
        ),
{
    lemma_first_with_exists(listed_names(t), listed_names(t)[k as int], k);
}

/// A listed patch gets a `missing-patch-file` warning on its entry exactly
/// when its file is not there, and the warning names it.
pub proof fn lemma_missing_iff_absent(t: Seq<ElementView>, bytes: Seq<u8>, present: Seq<bool>, k: nat)
    requires
        k < present.len(),
    ensures
        missing_diagnostic(t, bytes, present, k) is Some <==> !present[k as int],
        missing_diagnostic(t, bytes, present, k) matches Some(d) ==> d.severity == Severity::Warning && d.code == "missing-patch-file"@
            && d.range == lsp_range(bytes, t[named_entries(t)[k as int] as int]) && d.message == "patch file '"@
            + listed_names(t)[k as int] + "' not found"@,
{
}

/// Each `unlisted-patch-file` hint names a file of the patches directory
/// that the series does not list and that may be a patch, sits at the end
/// of the text, and the hints come in the order of the names.
pub proof fn lemma_unlisted_hints_name_unlisted_files(t: Seq<ElementView>, bytes: Seq<u8>, files: Seq<Seq<char>>)
    ensures
        spec_unlisted(t, bytes, files).len() == sorted_unlisted(files, listed_names(t), true).len(),
        forall|k: int|
            0 <= k < spec_unlisted(t, bytes, files).len() ==> {
                let n = sorted_unlisted(files, listed_names(t), true)[k];
                let d = #[trigger] spec_unlisted(t, bytes, files)[k];
                &&& d.severity == Severity::Hint
                &&& d.code == "unlisted-patch-file"@
                &&& d.message == "patch file '"@ + n + "' exists but is not listed in series"@
                &&& d.range.start == spec_offset_to_position(bytes, bytes.len() as int)
                &&& d.range.end == d.range.start
                &&& files.contains(n)
                &&& !listed_names(t).contains(n)
                &&& is_patch_candidate(n, true)
            },
{
    let u = sorted_unlisted(files, listed_names(t), true);
    lemma_sorted_unlisted(files, listed_names(t), true);
    crate::names::lemma_unlisted_from_files(files, listed_names(t), true);
    u.to_multiset_ensures();
    crate::names::unlisted_upto(files, listed_names(t), true, files.len()).to_multiset_ensures();
    assert forall|k: int| 0 <= k < spec_unlisted(t, bytes, files).len() implies files.contains(#[trigger] u[k]) by {
        assert(u.contains(u[k]));
        assert(u.to_multiset().count(u[k]) > 0);
    }
}

} // verus!
