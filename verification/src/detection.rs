//! Telling patch files from quilt series files by their path.
use vstd::prelude::*;
use crate::paths::{components, file_name, file_name_of, path_components, prefix_path, rebuild};
use crate::text::{chars_end_with, chars_eq, chars_of, has_suffix, string_of};
use crate::uri::{spec_uri_path, uri_path};

verus! {

/// The type of file being edited.
#[derive(Debug, Clone, Copy, PartialEq, Eq, Structural)]
pub enum FileKind {
    /// A patch/diff file.
    Patch,
    /// A quilt series file.
    Series,
}

/// Whether a name is one that quilt gives its series file.
pub open spec fn is_series_name(name: Seq<char>) -> bool {
    name == seq!['s', 'e', 'r', 'i', 'e', 's'] || name == seq![
        's',
        'e',
        'r',
        'i',
        'e',
        's',
        '.',
        'c',
        'o',
        'n',
        'f',
    ]
}

fn series_name() -> (r: Vec<char>)
    ensures
        r@ == seq!['s', 'e', 'r', 'i', 'e', 's'],
{
    vec!['s', 'e', 'r', 'i', 'e', 's']
}

fn series_conf_name() -> (r: Vec<char>)
    ensures
        r@ == seq!['s', 'e', 'r', 'i', 'e', 's', '.', 'c', 'o', 'n', 'f'],
{
    vec!['s', 'e', 'r', 'i', 'e', 's', '.', 'c', 'o', 'n', 'f']
}

pub fn is_series_name_exec(name: &[char]) -> (r: bool)
    ensures
        r == is_series_name(name@),
{
    let a = series_name();
    let b = series_conf_name();
    chars_eq(name, a.as_slice()) || chars_eq(name, b.as_slice())
}

/// The kind a bare URI path gets: a series file when it ends in `/series`
/// or `/series.conf`, a patch otherwise.
pub open spec fn spec_detect_from_uri_path(path: Seq<char>) -> FileKind {
    if has_suffix(path, seq!['/'] + seq!['s', 'e', 'r', 'i', 'e', 's']) || has_suffix(
        path,
        seq!['/'] + seq!['s', 'e', 'r', 'i', 'e', 's', '.', 'c', 'o', 'n', 'f'],
    ) {
        FileKind::Series
    } else {
        FileKind::Patch
    }
}

/// The kind a file path gets: a series file when its file name is `series`
/// or `series.conf`, a patch otherwise.
pub open spec fn spec_detect_from_path(path: Seq<char>) -> FileKind {
    match file_name(path) {
        Some(n) => if is_series_name(n) {
            FileKind::Series
        } else {
            FileKind::Patch
        },
        None => FileKind::Patch,
    }
}

pub fn detect_from_uri_path(path: &str) -> (r: FileKind)
    ensures
        r == spec_detect_from_uri_path(path@),
{
    let p = chars_of(path);
    let mut a = vec!['/'];
    a.append(&mut series_name());
    let mut b = vec!['/'];
    b.append(&mut series_conf_name());
    assert(a@ =~= seq!['/'] + seq!['s', 'e', 'r', 'i', 'e', 's']);
    assert(b@ =~= seq!['/'] + seq!['s', 'e', 'r', 'i', 'e', 's', '.', 'c', 'o', 'n', 'f']);
    if chars_end_with(p.as_slice(), a.as_slice()) || chars_end_with(p.as_slice(), b.as_slice()) {
        FileKind::Series
    } else {
        FileKind::Patch
    }
}

/// Detect the kind of a file from its path.
///
/// Series files go by name; every other file, whatever its extension or
/// place, is handled as a patch.
pub fn detect_from_path(path: &str) -> (r: FileKind)
    ensures
        r == spec_detect_from_path(path@),
{
    let p = chars_of(path);
    match file_name_of(p.as_slice()) {
        Some(n) => if is_series_name_exec(n.as_slice()) {
            FileKind::Series
        } else {
            FileKind::Patch
        },
        None => FileKind::Patch,
    }
}

/// The directories, nearest first, that hold an ancestor of `path` named
/// `patches`: quilt keeps `.pc/` (or Debian `debian/`) beside such a
/// directory.
pub open spec fn quilt_candidates_upto(path: Seq<char>, n: nat) -> Seq<Seq<char>>
    decreases n,
{
    let c = components(path);
    if n == 0 || n >= c.len() {
        Seq::empty()
    } else {
        let j = (c.len() - 1 - n) as nat;
        let rest = quilt_candidates_upto(path, (n - 1) as nat);
        if c[j as int] == seq!['p', 'a', 't', 'c', 'h', 'e', 's'] {
            rest.push(rebuild(path, j))
        } else {
            rest
        }
    }
}

pub open spec fn quilt_candidates(path: Seq<char>) -> Seq<Seq<char>> {
    let c = components(path);
    if c.len() == 0 {
        Seq::empty()
    } else {
        quilt_candidates_upto(path, (c.len() - 1) as nat)
    }
}

/// The directories to look into for quilt's `.pc/` or `debian/`, nearest
/// first: the parent of every proper ancestor of `path` named `patches`.
pub fn quilt_patches_parents(path: &str) -> (r: Vec<String>)
    ensures
        r@.len() == quilt_candidates(path@).len(),
        forall|k: int| 0 <= k < r@.len() ==> #[trigger] r@[k]@ == quilt_candidates(path@)[k],
{
    let p = chars_of(path);
    let comps = path_components(p.as_slice());
    let patches = vec!['p', 'a', 't', 'c', 'h', 'e', 's'];
    let mut out: Vec<String> = Vec::new();
    if comps.len() == 0 {
        return out;
    }
    let mut n: usize = 1;
    while n < comps.len()
        invariant
            p@ == path@,
            1 <= n <= comps@.len(),
            comps@.len() == components(p@).len(),
            forall|j: int| 0 <= j < comps@.len() ==> #[trigger] comps@[j]@ == components(p@)[j],
            patches@ == seq!['p', 'a', 't', 'c', 'h', 'e', 's'],
            out@.len() == quilt_candidates_upto(p@, (n - 1) as nat).len(),
            forall|k: int|
                0 <= k < out@.len() ==> #[trigger] out@[k]@ == quilt_candidates_upto(
                    p@,
                    (n - 1) as nat,
                )[k],
        decreases comps@.len() - n,
    {
        let j = comps.len() - 1 - n;
        if chars_eq(comps[j].as_slice(), patches.as_slice()) {
            let d = prefix_path(p.as_slice(), &comps, j);
            out.push(string_of(d.as_slice()));
        }
        n = n + 1;
    }
    out
}

/// Whether `path` lies in a quilt `patches/` directory, given for each
/// directory of [`quilt_patches_parents`] whether it holds `.pc/` or
/// `debian/`.
pub fn is_under_quilt_patches(path: &str, has_quilt_marker: &Vec<bool>) -> (r: bool)
    requires
        has_quilt_marker@.len() == quilt_candidates(path@).len(),
    ensures
        r == exists|k: int| 0 <= k < has_quilt_marker@.len() && has_quilt_marker@[k],
{
    let mut i: usize = 0;
    while i < has_quilt_marker.len()
        invariant
            i <= has_quilt_marker@.len(),
            forall|k: int| 0 <= k < i ==> !has_quilt_marker@[k],
        decreases has_quilt_marker@.len() - i,
    {
        if has_quilt_marker[i] {
            return true;
        }
        i = i + 1;
    }
    false
}

/// The kind of the document at a URI: from its file path when the URI path
/// is absolute, from the bare URI path otherwise (`Patch` for a URI that
/// does not parse).
pub open spec fn spec_detect_file_kind(uri: Seq<char>) -> FileKind {
    match spec_uri_path(uri) {
        None => FileKind::Patch,
        Some(p) => if p.len() > 0 && p[0] == '/' {
            spec_detect_from_path(p)
        } else {
            spec_detect_from_uri_path(p)
        },
    }
}

/// Detect the kind of the document at a URI.
pub fn detect_file_kind(uri: &str) -> (r: FileKind)
    ensures
        r == spec_detect_file_kind(uri@),
{
    match uri_path(uri) {
        None => FileKind::Patch,
        Some(p) => {
            let c = chars_of(p.as_str());
            if c.len() > 0 && c[0] == '/' {
                detect_from_path(p.as_str())
            } else {
                detect_from_uri_path(p.as_str())
            }
        },
    }
}

/// A URI path ending in `/series` or `/series.conf` is a series file
/// wherever it lies, and one ending in `.patch` or `.diff` is a patch.
pub proof fn lemma_uri_path_kinds(dir: Seq<char>, path: Seq<char>)
    ensures
        spec_detect_from_uri_path(dir + "/series"@) == FileKind::Series,
        spec_detect_from_uri_path(dir + "/series.conf"@) == FileKind::Series,
        (path.len() >= 6 && path.subrange(path.len() - 6, path.len() as int) == ".patch"@) || (path.len() >= 5 && path.subrange(
            path.len() - 5,
            path.len() as int,
        ) == ".diff"@) ==> spec_detect_from_uri_path(path) == FileKind::Patch,
{
    reveal_strlit("/series");
    reveal_strlit("/series.conf");
    reveal_strlit(".patch");
    reveal_strlit(".diff");
    let a = dir + "/series"@;
    let b = dir + "/series.conf"@;
    assert(a.skip(a.len() - 7) =~= seq!['/'] + seq!['s', 'e', 'r', 'i', 'e', 's']);
    assert(b.skip(b.len() - 12) =~= seq!['/'] + seq!['s', 'e', 'r', 'i', 'e', 's', '.', 'c', 'o', 'n', 'f']);
    let s1 = seq!['/'] + seq!['s', 'e', 'r', 'i', 'e', 's'];
    let s2 = seq!['/'] + seq!['s', 'e', 'r', 'i', 'e', 's', '.', 'c', 'o', 'n', 'f'];
    if path.len() >= 6 && path.subrange(path.len() - 6, path.len() as int) == ".patch"@ {
        assert(path[path.len() - 1] == path.subrange(path.len() - 6, path.len() as int)[5]);
        if has_suffix(path, s1) {
            assert(path[path.len() - 1] == path.skip(path.len() - s1.len())[s1.len() - 1]);
        }
        if has_suffix(path, s2) {
            assert(path[path.len() - 1] == path.skip(path.len() - s2.len())[s2.len() - 1]);
        }
    } else if path.len() >= 5 && path.subrange(path.len() - 5, path.len() as int) == ".diff"@ {
        assert(path[path.len() - 1] == path.subrange(path.len() - 5, path.len() as int)[4]);
        assert(path[path.len() - 2] == path.subrange(path.len() - 5, path.len() as int)[3]);
        if has_suffix(path, s1) {
            assert(path[path.len() - 1] == path.skip(path.len() - s1.len())[s1.len() - 1]);
        }
        if has_suffix(path, s2) {
            assert(path[path.len() - 2] == path.skip(path.len() - s2.len())[s2.len() - 2]);
        }
    }
}

} // verus!
