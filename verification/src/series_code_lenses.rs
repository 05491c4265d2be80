//! Code lenses for quilt series files: whether each listed patch is
//! applied, by what quilt's `.pc/applied-patches` says.
use vstd::prelude::*;
use vstd::string::StringSliceAdditionalSpecFns;
use crate::code_actions::positions;
use crate::lsp::{filter_map, lemma_filter_map_step, lemma_take_full, CodeLens, CodeLensView};
use crate::position::fits;
use crate::quilt::{applied_patches, names_contain, nonempty_lines};
use crate::series::{entry_name, patch_entries, SeriesDocument};
use crate::syntax::{lsp_range, ElementView};
use crate::text::{decimal, push_decimal, push_str, str_eq};

verus! {

/// `"<index>/<total>)"`.
pub open spec fn counts_text(index: nat, total: nat) -> Seq<char> {
    decimal(index) + "/"@ + decimal(total) + ")"@
}

/// The status of a patch: the top one applied, another applied one, or one
/// not applied.
pub open spec fn status_label(name: Seq<char>, applied: Seq<Seq<char>>, index: nat, total: nat) -> Seq<char> {
    if applied.len() > 0 && applied.last() == name {
        "applied (top, "@ + counts_text(index, total)
    } else if applied.contains(name) {
        "applied ("@ + counts_text(index, total)
    } else {
        "unapplied ("@ + counts_text(index, total)
    }
}

/// The lens of the `k`-th patch entry, when it has a name.
pub open spec fn entry_lens(t: Seq<ElementView>, bytes: Seq<u8>, applied: Seq<Seq<char>>, k: nat) -> Option<CodeLensView> {
    let pes = patch_entries(t);
    match entry_name(t, pes[k as int]) {
        None => None,
        Some(name) => Some(
            CodeLensView {
                range: lsp_range(bytes, t[pes[k as int] as int]),
                title: status_label(name, applied, k + 1, pes.len()),
            },
        ),
    }
}

/// The lenses of a series file: none without an `applied-patches` file.
pub open spec fn spec_series_code_lenses(t: Seq<ElementView>, bytes: Seq<u8>, applied_content: Option<Seq<char>>) -> Seq<CodeLensView> {
    match applied_content {
        None => Seq::empty(),
        Some(c) => filter_map(
            positions(patch_entries(t).len()),
            |k: nat| entry_lens(t, bytes, nonempty_lines(c), k),
        ),
    }
}

/// The status label of a patch.
pub fn status_label_exec(name: &str, applied: &Vec<String>, index: u64, total: u64) -> (r: String)
    ensures
        r@ == status_label(name@, applied@.map_values(|s: String| s@), index as nat, total as nat),
{
    let ghost av = applied@.map_values(|s: String| s@);
    let n = applied.len();
    let is_top = n > 0 && str_eq(applied[n - 1].as_str(), name);
    proof {
        if n > 0 {
            assert(av.last() == applied@[n - 1]@);
        }
    }
    let mut s = String::new();
    if is_top {
        push_str(&mut s, "applied (top, ");
    } else if names_contain(applied, name) {
        push_str(&mut s, "applied (");
    } else {
        push_str(&mut s, "unapplied (");
    }
    push_decimal(&mut s, index);
    push_str(&mut s, "/");
    push_decimal(&mut s, total);
    push_str(&mut s, ")");
    assert(s@ =~= status_label(name@, av, index as nat, total as nat));
    s
}

/// Generate code lenses showing applied/unapplied status for series
/// entries, given the text of `.pc/applied-patches` if there is one.
pub fn get_series_code_lenses(series: &SeriesDocument, source_text: &str, applied_content: Option<&str>) -> (r: Vec<CodeLens>)
    requires
        fits(source_text.spec_bytes()),
    ensures
        r@.map_values(|l: CodeLens| l@) == spec_series_code_lenses(
            series.tree@,
            source_text.spec_bytes(),
            match applied_content {
                Some(c) => Some(c@),
                None => None,
            },
        ),
{
    let content = match applied_content {
        None => return Vec::new(),
        Some(c) => c,
    };
    let ghost t = series.tree@;
    let ghost bytes = source_text.spec_bytes();
    let applied = applied_patches(content);
    let ghost av = nonempty_lines(content@);
    let pes = series.patch_entries();
    let ghost pf = patch_entries(t);
    let ghost g = |k: nat| entry_lens(t, bytes, av, k);
    let total = pes.len();
    let mut out: Vec<CodeLens> = Vec::new();
    let mut i: usize = 0;
    while i < pes.len()
        invariant
            t == series.tree@,
            bytes == source_text.spec_bytes(),
            fits(bytes),
            av == nonempty_lines(content@),
            applied@.map_values(|s: String| s@) == av,
            pf == patch_entries(t),
            pes@.map_values(|c: usize| c as nat) == pf,
            forall|k: int| 0 <= k < pes@.len() ==> #[trigger] pes@[k] < t.len(),
            total == pes@.len(),
            g == (|k: nat| entry_lens(t, bytes, av, k)),
            i <= pes@.len(),
            out@.map_values(|l: CodeLens| l@) == filter_map(positions(pf.len()).take(i as int), g),
        decreases pes@.len() - i,
    {
        proof {
            lemma_filter_map_step(positions(pf.len()), g, i as int);
        }
        let pe = pes[i];
        assert(pf[i as int] == pe as nat);
        if let Some(name) = series.entry_name(pe) {
            let title = status_label_exec(name.as_str(), &applied, (i + 1) as u64, total as u64);
            let lens = CodeLens { range: series.tree.lsp_range_of(source_text, pe), title };
            let ghost before = out@;
            out.push(lens);
            assert(out@.map_values(|l: CodeLens| l@) =~= before.map_values(|l: CodeLens| l@).push(lens@));
        }
        i = i + 1;
    }
    proof {
        lemma_take_full(positions(pf.len()));
    }
    out
}

/// A patch's lens reads `applied (top, i/n)` when it is the last applied
/// patch, `applied (i/n)` when it is applied but not last, and
/// `unapplied (i/n)` when it is not applied, where `i` is its position in
/// the series counted from 1 and `n` the number of patches.
pub proof fn lemma_status_follows_applied(name: Seq<char>, applied: Seq<Seq<char>>, index: nat, total: nat)
    ensures
        applied.len() > 0 && applied[applied.len() - 1] == name ==> status_label(name, applied, index, total)
            == "applied (top, "@ + decimal(index) + "/"@ + decimal(total) + ")"@,
        !(applied.len() > 0 && applied[applied.len() - 1] == name) && (exists|j: int| 0 <= j < applied.len() && applied[j] == name)
            ==> status_label(name, applied, index, total) == "applied ("@ + decimal(index) + "/"@ + decimal(total) + ")"@,
        (forall|j: int| 0 <= j < applied.len() ==> applied[j] != name) ==> status_label(name, applied, index, total)
            == "unapplied ("@ + decimal(index) + "/"@ + decimal(total) + ")"@,
{
    if applied.len() > 0 && applied[applied.len() - 1] == name {
        assert(applied.last() == name);
    } else if exists|j: int| 0 <= j < applied.len() && applied[j] == name {
        let j = choose|j: int| 0 <= j < applied.len() && applied[j] == name;
        assert(applied.contains(name));
    } else {
        assert(!applied.contains(name));
    }
    assert(status_label(name, applied, index, total) =~= status_label(name, applied, index, total));
    assert("applied (top, "@ + counts_text(index, total) =~= "applied (top, "@ + decimal(index) + "/"@ + decimal(total) + ")"@);
    assert("applied ("@ + counts_text(index, total) =~= "applied ("@ + decimal(index) + "/"@ + decimal(total) + ")"@);
    assert("unapplied ("@ + counts_text(index, total) =~= "unapplied ("@ + decimal(index) + "/"@ + decimal(total) + ")"@);
}

/// The lens of the `k`-th patch entry counts it as the `k + 1`-th of all the
/// patch entries, spans the entry, and exists exactly when the entry names
/// a patch.
pub proof fn lemma_entry_lens_position(t: Seq<ElementView>, bytes: Seq<u8>, applied: Seq<Seq<char>>, k: nat)
    requires
        k < patch_entries(t).len(),
    ensures
        entry_lens(t, bytes, applied, k) is Some <==> entry_name(t, patch_entries(t)[k as int]) is Some,
        entry_name(t, patch_entries(t)[k as int]) matches Some(name) ==> entry_lens(t, bytes, applied, k) == Some(
            CodeLensView {
                range: lsp_range(bytes, t[patch_entries(t)[k as int] as int]),
                title: status_label(name, applied, k + 1, patch_entries(t).len()),
            },
        ),
{
}

} // verus!
