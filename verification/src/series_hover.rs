//! Hover for quilt series files: over a patch entry, the patch's
//! description (the text before its first diff) and its change counts.
use vstd::prelude::*;
use vstd::string::{StringExecFns, StringSliceAdditionalSpecFns};
use crate::hover::{lemma_totals_count_lines, lines_in_hunks, total};
use crate::lsp::Hover;
use crate::patch::{hunks, parse_patch, ADD_LINE, DELETE_LINE, patch_files, spec_patch_events};
use crate::paths::{parent_dir, parent_of};
use crate::position::{fits, spec_position_to_offset, try_position_to_offset, Position, Range};
use crate::series::{entry_name, patch_entries, SeriesDocument};
use crate::syntax::{lsp_range, spec_build_tree, ElementView};
use crate::text::{blank, chars_of, chars_start_with, decimal, has_prefix, is_blank, lines_of, push_chars, push_decimal, push_str, split_lines, string_of};
use crate::uri::{spec_uri_path, uri_path};

verus! {

/// A count kept within `u64`.
pub open spec fn capped(n: nat) -> nat {
    if n > u64::MAX {
        u64::MAX as nat
    } else {
        n
    }
}

/// The added (or deleted, `add` false) lines of the first `n` files.
pub open spec fn files_total(t: Seq<ElementView>, fs: Seq<nat>, n: nat, add: bool) -> nat
    decreases n,
{
    if n == 0 || n > fs.len() {
        0
    } else {
        files_total(t, fs, (n - 1) as nat, add) + total(t, hunks(t, fs[n - 1]), hunks(t, fs[n - 1]).len(), add)
    }
}

/// The added lines, deleted lines and files of a patch text.
pub open spec fn change_stats(content: Seq<char>) -> (nat, nat, nat) {
    let t = spec_build_tree(spec_patch_events(content));
    let fs = patch_files(t);
    (capped(files_total(t, fs, fs.len(), true)), capped(files_total(t, fs, fs.len(), false)), fs.len())
}

/// `"<n> file(s), +<a> −<d>"`.
pub open spec fn stats_text(files: nat, a: nat, d: nat) -> Seq<char> {
    decimal(files) + " file"@ + (if files == 1 {
        Seq::empty()
    } else {
        seq!['s']
    }) + ", +"@ + decimal(a) + " −"@ + decimal(d)
}

fn add_capped(acc: u64, x: u64) -> (r: u64)
    ensures
        r == capped((acc + x) as nat),
{
    if acc > u64::MAX - x {
        u64::MAX
    } else {
        acc + x
    }
}

/// Compute change statistics from patch content: added lines, deleted
/// lines, files.
pub fn compute_stats(content: &str) -> (r: (u64, u64, usize))
    requires
        fits(content.spec_bytes()),
    ensures
        (r.0 as nat, r.1 as nat, r.2 as nat) == change_stats(content@),
{
    let patch = parse_patch(content);
    let ghost t = patch.tree@;
    let files = patch.patch_files();
    let ghost fs = patch_files(t);
    let mut adds: u64 = 0;
    let mut dels: u64 = 0;
    let mut fi: usize = 0;
    while fi < files.len()
        invariant
            t == patch.tree@,
            fs == patch_files(t),
            files@.map_values(|c: usize| c as nat) == fs,
            fi <= files@.len(),
            adds as nat == capped(files_total(t, fs, fi as nat, true)),
            dels as nat == capped(files_total(t, fs, fi as nat, false)),
        decreases files@.len() - fi,
    {
        let f = files[fi];
        assert(fs[fi as int] == f as nat);
        let hs = patch.hunks(f);
        let ghost hf = hunks(t, f as nat);
        let ghost a0 = files_total(t, fs, fi as nat, true);
        let ghost d0 = files_total(t, fs, fi as nat, false);
        let mut hi: usize = 0;
        while hi < hs.len()
            invariant
                t == patch.tree@,
                hf == hunks(t, f as nat),
                hs@.map_values(|c: usize| c as nat) == hf,
                hi <= hs@.len(),
                adds as nat == capped(a0 + total(t, hf, hi as nat, true)),
                dels as nat == capped(d0 + total(t, hf, hi as nat, false)),
            decreases hs@.len() - hi,
        {
            assert(hf[hi as int] == hs@[hi as int] as nat);
            let st = patch.stats(hs[hi]);
            adds = add_capped(adds, st.additions);
            dels = add_capped(dels, st.deletions);
            hi = hi + 1;
        }
        assert(hf.len() == hs@.len());
        fi = fi + 1;
    }
    assert(fs.len() == files@.len());
    (adds, dels, files.len())
}

/// Append `"<n> file(s), +<a> −<d>"`.
pub fn push_stats(s: &mut String, files: usize, a: u64, d: u64)
    ensures
        final(s)@ == old(s)@ + stats_text(files as nat, a as nat, d as nat),
{
    push_decimal(s, files as u64);
    push_str(s, " file");
    if files != 1 {
        s.push('s');
    }
    push_str(s, ", +");
    push_decimal(s, a);
    push_str(s, " −");
    push_decimal(s, d);
    assert(s@ =~= old(s)@ + stats_text(files as nat, a as nat, d as nat));
}

/// A line where the diff of a patch begins.
pub open spec fn is_diff_start(line: Seq<char>) -> bool {
    has_prefix(line, "--- "@) || has_prefix(line, "+++ "@) || has_prefix(line, "diff --git"@)
        || has_prefix(line, "Index: "@) || has_prefix(line, "@@ "@)
}

/// The index of the first line, from `i` on, where the diff begins (the
/// number of lines when there is none).
pub open spec fn first_diff_start(ls: Seq<Seq<char>>, i: nat) -> nat
    decreases ls.len() - i,
{
    if i >= ls.len() {
        ls.len()
    } else if is_diff_start(ls[i as int]) {
        i
    } else {
        first_diff_start(ls, i + 1)
    }
}

/// The first `n` lines without the blank lines at their end.
pub open spec fn without_blank_tail(ls: Seq<Seq<char>>, n: nat) -> nat
    decreases n,
{
    if n > 0 && n <= ls.len() && is_blank(ls[n - 1]) {
        without_blank_tail(ls, (n - 1) as nat)
    } else {
        n
    }
}

/// The first `n` lines joined by newlines.
pub open spec fn join_lines(ls: Seq<Seq<char>>, n: nat) -> Seq<char>
    decreases n,
{
    if n == 0 || n > ls.len() {
        Seq::empty()
    } else if n == 1 {
        ls[0]
    } else {
        join_lines(ls, (n - 1) as nat) + seq!['\n'] + ls[n - 1]
    }
}

/// The description of a patch: its lines before the diff, without blank
/// lines at the end, at most ten of them and then `...` if there are more;
/// none when no line is left.
pub open spec fn description(content: Seq<char>) -> Option<Seq<char>> {
    let ls = lines_of(content);
    let n = without_blank_tail(ls, first_diff_start(ls, 0));
    if n == 0 {
        None
    } else if n > 10 {
        Some(join_lines(ls, 10) + "\n..."@)
    } else {
        Some(join_lines(ls, n))
    }
}

proof fn lemma_first_diff_start_bound(ls: Seq<Seq<char>>, i: nat)
    ensures
        first_diff_start(ls, i) <= ls.len(),
        i <= ls.len() ==> i <= first_diff_start(ls, i),
    decreases ls.len() - i,
{
    if i < ls.len() && !is_diff_start(ls[i as int]) {
        lemma_first_diff_start_bound(ls, i + 1);
    }
}

proof fn lemma_blank_tail_bound(ls: Seq<Seq<char>>, n: nat)
    ensures
        without_blank_tail(ls, n) <= n,
    decreases n,
{
    if n > 0 && n <= ls.len() && is_blank(ls[n - 1]) {
        lemma_blank_tail_bound(ls, (n - 1) as nat);
    }
}

/// Extract the description (preamble) from patch file content.
pub fn extract_description(content: &str) -> (r: Option<String>)
    ensures
        r matches Some(d) ==> description(content@) == Some(d@),
        r is None ==> description(content@) is None,
{
    let cs = chars_of(content);
    let lines = split_lines(cs.as_slice());
    let ghost ls = lines_of(content@);
    let m1 = chars_of("--- ");
    let m2 = chars_of("+++ ");
    let m3 = chars_of("diff --git");
    let m4 = chars_of("Index: ");
    let m5 = chars_of("@@ ");
    let mut p: usize = 0;
    while p < lines.len()
        && !(chars_start_with(lines[p].as_slice(), m1.as_slice()) || chars_start_with(lines[p].as_slice(), m2.as_slice())
            || chars_start_with(lines[p].as_slice(), m3.as_slice()) || chars_start_with(lines[p].as_slice(), m4.as_slice())
            || chars_start_with(lines[p].as_slice(), m5.as_slice()))
        invariant
            ls == lines_of(content@),
            lines@.len() == ls.len(),
            forall|k: int| 0 <= k < lines@.len() ==> #[trigger] lines@[k]@ == ls[k],
            m1@ == "--- "@,
            m2@ == "+++ "@,
            m3@ == "diff --git"@,
            m4@ == "Index: "@,
            m5@ == "@@ "@,
            p <= lines@.len(),
            first_diff_start(ls, 0) == first_diff_start(ls, p as nat),
        decreases lines@.len() - p,
    {
        assert(lines@[p as int]@ == ls[p as int]);
        p = p + 1;
    }
    if p < lines.len() {
        assert(lines@[p as int]@ == ls[p as int]);
    }
    assert(first_diff_start(ls, 0) == p as nat);
    let mut n: usize = p;
    while n > 0 && blank(lines[n - 1].as_slice())
        invariant
            ls == lines_of(content@),
            lines@.len() == ls.len(),
            forall|k: int| 0 <= k < lines@.len() ==> #[trigger] lines@[k]@ == ls[k],
            n <= p <= lines@.len(),
            without_blank_tail(ls, p as nat) == without_blank_tail(ls, n as nat),
        decreases n,
    {
        assert(lines@[n - 1]@ == ls[n - 1]);
        n = n - 1;
    }
    if n > 0 {
        assert(lines@[n - 1]@ == ls[n - 1]);
    }
    assert(without_blank_tail(ls, p as nat) == n as nat);
    if n == 0 {
        return None;
    }
    let shown: usize = if n > 10 { 10 } else { n };
    let mut out = String::new();
    let mut i: usize = 0;
    while i < shown
        invariant
            ls == lines_of(content@),
            lines@.len() == ls.len(),
            forall|k: int| 0 <= k < lines@.len() ==> #[trigger] lines@[k]@ == ls[k],
            shown <= n <= lines@.len(),
            i <= shown,
            out@ == join_lines(ls, i as nat),
        decreases shown - i,
    {
        if i > 0 {
            out.push('\n');
        }
        push_chars(&mut out, lines[i].as_slice());
        assert(lines@[i as int]@ == ls[i as int]);
        assert(out@ =~= join_lines(ls, (i + 1) as nat));
        i = i + 1;
    }
    if n > 10 {
        push_str(&mut out, "\n...");
    }
    Some(out)
}

/// The hover text of a patch: its name in bold, its description, and when
/// it changes files, a rule and its change counts.
pub open spec fn hover_text(name: Seq<char>, content: Seq<char>) -> Seq<char> {
    let (a, d, files) = change_stats(content);
    "**"@ + name + "**"@ + match description(content) {
        Some(desc) => seq!['\n'] + desc,
        None => Seq::empty(),
    } + if files > 0 {
        "\n---\n"@ + stats_text(files, a, d)
    } else {
        Seq::empty()
    }
}

/// Build the hover markdown text from a patch name and its content.
pub fn build_hover_text(name: &str, content: &str) -> (r: String)
    requires
        fits(content.spec_bytes()),
    ensures
        r@ == hover_text(name@, content@),
{
    let mut s = String::from_str("**");
    push_str(&mut s, name);
    push_str(&mut s, "**");
    let ghost head = s@;
    match extract_description(content) {
        Some(desc) => {
            s.push('\n');
            push_str(&mut s, desc.as_str());
        },
        None => {},
    }
    let ghost mid = s@;
    let (a, d, files) = compute_stats(content);
    if files > 0 {
        push_str(&mut s, "\n---\n");
        push_stats(&mut s, files, a, d);
    }
    assert(s@ =~= hover_text(name@, content@));
    s
}

/// The first of the first `n` patch entries whose span holds the offset,
/// both ends included.
pub open spec fn entry_touching(t: Seq<ElementView>, pes: Seq<nat>, off: nat, n: nat) -> Option<nat>
    decreases n,
{
    if n == 0 || n > pes.len() {
        None
    } else {
        match entry_touching(t, pes, off, (n - 1) as nat) {
            Some(pe) => Some(pe),
            None => if t[pes[n - 1] as int].start <= off <= t[pes[n - 1] as int].end {
                Some(pes[n - 1])
            } else {
                None
            },
        }
    }
}

proof fn lemma_touching_stable(t: Seq<ElementView>, pes: Seq<nat>, off: nat, n: nat, m: nat)
    requires
        n <= m <= pes.len(),
        entry_touching(t, pes, off, n) is Some,
    ensures
        entry_touching(t, pes, off, m) == entry_touching(t, pes, off, n),
    decreases m,
{
    if m > n {
        lemma_touching_stable(t, pes, off, n, (m - 1) as nat);
    }
}

/// The named patch entry a position lies on, and its name.
pub open spec fn hovered_entry(t: Seq<ElementView>, bytes: Seq<u8>, position: Position) -> Option<(nat, Seq<char>)> {
    let pes = patch_entries(t);
    match spec_position_to_offset(bytes, position) {
        None => None,
        Some(off) => match entry_touching(t, pes, off, pes.len()) {
            None => None,
            Some(pe) => match entry_name(t, pe) {
                Some(name) => Some((pe, name)),
                None => None,
            },
        },
    }
}

/// The patch entry at a position and its name.
pub fn hovered_patch(series: &SeriesDocument, source_text: &str, position: Position) -> (r: Option<(usize, String)>)
    requires
        fits(source_text.spec_bytes()),
    ensures
        r matches Some((pe, name)) ==> hovered_entry(series.tree@, source_text.spec_bytes(), position)
            == Some((pe as nat, name@)) && pe < series.tree@.len(),
        r is None ==> hovered_entry(series.tree@, source_text.spec_bytes(), position) is None,
{
    let ghost t = series.tree@;
    let offset = match try_position_to_offset(source_text, position) {
        None => return None,
        Some(o) => o,
    };
    let pes = series.patch_entries();
    let ghost pf = patch_entries(t);
    let mut i: usize = 0;
    let mut found: Option<usize> = None;
    while i < pes.len() && found.is_none()
        invariant
            t == series.tree@,
            pf == patch_entries(t),
            pes@.map_values(|c: usize| c as nat) == pf,
            forall|k: int| 0 <= k < pes@.len() ==> #[trigger] pes@[k] < t.len(),
            i <= pes@.len(),
            found is None ==> entry_touching(t, pf, offset as nat, i as nat) is None,
            found matches Some(pe) ==> entry_touching(t, pf, offset as nat, i as nat) == Some(pe as nat)
                && pe < t.len(),
        decreases pes@.len() - i,
    {
        let pe = pes[i];
        assert(pf[i as int] == pe as nat);
        let span = series.tree.range_of(pe);
        if span.start <= offset && offset <= span.end {
            found = Some(pe);
        }
        i = i + 1;
    }
    proof {
        if found is Some {
            lemma_touching_stable(t, pf, offset as nat, i as nat, pf.len());
        }
    }
    let pe = match found {
        None => return None,
        Some(pe) => pe,
    };
    match series.entry_name(pe) {
        None => None,
        Some(name) => Some((pe, name)),
    }
}

/// The patches directory of a series file: the directory of the URI's path.
pub open spec fn spec_hover_dir(uri: Seq<char>) -> Option<Seq<char>> {
    match spec_uri_path(uri) {
        Some(p) => parent_dir(p),
        None => None,
    }
}

/// Extract the patches directory from a series file URI.
pub fn patches_dir_from_uri(uri: &str) -> (r: Option<String>)
    ensures
        r matches Some(d) ==> spec_hover_dir(uri@) == Some(d@),
        r is None ==> spec_hover_dir(uri@) is None,
{
    let p = match uri_path(uri) {
        Some(p) => p,
        None => return None,
    };
    match parent_of(chars_of(p.as_str()).as_slice()) {
        Some(d) => Some(string_of(d.as_slice())),
        None => None,
    }
}

/// The hover over a series file: over a named patch entry whose file could
/// be read, the patch's hover text, for the entry's span.
pub open spec fn spec_series_hover(t: Seq<ElementView>, bytes: Seq<u8>, position: Position, uri: Seq<char>, content: Option<Seq<char>>) -> Option<(Seq<char>, Range)> {
    match hovered_entry(t, bytes, position) {
        None => None,
        Some((pe, name)) => match (spec_hover_dir(uri), content) {
            (Some(_), Some(c)) => Some((hover_text(name, c), lsp_range(bytes, t[pe as int]))),
            _ => None,
        },
    }
}

/// Get hover information for a position in a series file, given the text
/// of the hovered patch's file (`None` when it could not be read).
pub fn get_series_hover(series: &SeriesDocument, source_text: &str, position: Position, uri: &str, content: Option<&str>) -> (r: Option<Hover>)
    requires
        fits(source_text.spec_bytes()),
        content matches Some(c) ==> fits(c.spec_bytes()),
    ensures
        r matches Some(h) ==> spec_series_hover(series.tree@, source_text.spec_bytes(), position, uri@, match content {
            Some(c) => Some(c@),
            None => None,
        }) == Some((h.contents@, h.range.unwrap())) && h.range is Some,
        r is None ==> spec_series_hover(series.tree@, source_text.spec_bytes(), position, uri@, match content {
            Some(c) => Some(c@),
            None => None,
        }) is None,
{
    let (pe, name) = match hovered_patch(series, source_text, position) {
        None => return None,
        Some(x) => x,
    };
    let range = series.tree.lsp_range_of(source_text, pe);
    if patches_dir_from_uri(uri).is_none() {
        return None;
    }
    let c = match content {
        None => return None,
        Some(c) => c,
    };
    Some(Hover { contents: build_hover_text(name.as_str(), c), range: Some(range) })
}

/// The lines of the kind in the hunks of the first `n` files.
pub open spec fn lines_in_files(t: Seq<ElementView>, fs: Seq<nat>, n: nat, kind: u16) -> nat
    decreases n,
{
    if n == 0 || n > fs.len() {
        0
    } else {
        lines_in_files(t, fs, (n - 1) as nat, kind) + lines_in_hunks(t, hunks(t, fs[n - 1]), hunks(t, fs[n - 1]).len(), kind)
    }
}

pub(crate) proof fn lemma_files_total_counts_lines(t: Seq<ElementView>, fs: Seq<nat>, n: nat)
    ensures
        files_total(t, fs, n, true) == lines_in_files(t, fs, n, ADD_LINE),
        files_total(t, fs, n, false) == lines_in_files(t, fs, n, DELETE_LINE),
    decreases n,
{
    if n > 0 && n <= fs.len() {
        lemma_files_total_counts_lines(t, fs, (n - 1) as nat);
        lemma_totals_count_lines(t, hunks(t, fs[n - 1]), hunks(t, fs[n - 1]).len());
    }
}

/// The hover of a patch shows its name in bold and its description; when
/// the patch changes files, a rule follows, then the number of files, after
/// `+` the number of lines its hunks add and after `−` the number they
/// delete (each kept within `u64`).
pub proof fn lemma_patch_hover_counts(name: Seq<char>, content: Seq<char>)
    ensures
        ({
            let t = spec_build_tree(spec_patch_events(content));
            let fs = patch_files(t);
            let head = "**"@ + name + "**"@ + match description(content) {
                Some(desc) => seq!['\n'] + desc,
                None => Seq::empty(),
            };
            &&& fs.len() == 0 ==> hover_text(name, content) == head
            &&& fs.len() > 0 ==> hover_text(name, content) == head + "\n---\n"@ + decimal(fs.len()) + " file"@ + (
                if fs.len() == 1 {
                    Seq::<char>::empty()
                } else {
                    seq!['s']
                }) + ", +"@ + decimal(capped(lines_in_files(t, fs, fs.len(), ADD_LINE))) + " −"@ + decimal(
                capped(lines_in_files(t, fs, fs.len(), DELETE_LINE)),
            )
        }),
{
    let t = spec_build_tree(spec_patch_events(content));
    let fs = patch_files(t);
    lemma_files_total_counts_lines(t, fs, fs.len());
    let head = "**"@ + name + "**"@ + match description(content) {
        Some(desc) => seq!['\n'] + desc,
        None => Seq::empty(),
    };
    if fs.len() > 0 {
        assert(hover_text(name, content) =~= head + "\n---\n"@ + decimal(fs.len()) + " file"@ + (
            if fs.len() == 1 {
                Seq::<char>::empty()
            } else {
                seq!['s']
            }) + ", +"@ + decimal(capped(lines_in_files(t, fs, fs.len(), ADD_LINE))) + " −"@ + decimal(
            capped(lines_in_files(t, fs, fs.len(), DELETE_LINE)),
        ));
    } else {
        assert(hover_text(name, content) =~= head);
    }
}

} // verus!
