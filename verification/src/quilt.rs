//! What quilt's own files say: the applied patches (`.pc/applied-patches`),
//! the patch names a series text lists, and the directories quilt works in.
use vstd::prelude::*;
use crate::paths::{join, join_path, parent_dir, parent_of};
use crate::text::{chars_eq, chars_of, first_word, first_word_of, lines_of, split_lines, string_of};
use crate::uri::{spec_uri_path, spec_uri_to_file_path, uri_path, uri_to_file_path};

verus! {

/// The non-empty lines among the first `n` lines.
pub open spec fn nonempty_upto(ls: Seq<Seq<char>>, n: nat) -> Seq<Seq<char>>
    decreases n,
{
    if n == 0 || n > ls.len() {
        Seq::empty()
    } else {
        let rest = nonempty_upto(ls, (n - 1) as nat);
        if ls[n - 1].len() > 0 {
            rest.push(ls[n - 1])
        } else {
            rest
        }
    }
}

/// The non-empty lines of a text: the patches that quilt's
/// `applied-patches` file lists, bottom first.
pub open spec fn nonempty_lines(s: Seq<char>) -> Seq<Seq<char>> {
    nonempty_upto(lines_of(s), lines_of(s).len())
}

/// A series line that names a patch: not empty and not a `#` comment.
pub open spec fn is_listing_line(line: Seq<char>) -> bool {
    line.len() > 0 && line[0] != '#'
}

/// The patch name of a listing line: its first word, or the whole line when
/// it has no word.
pub open spec fn line_patch_name(line: Seq<char>) -> Seq<char> {
    match first_word(line) {
        Some(w) => w,
        None => line,
    }
}

pub open spec fn series_names_upto(ls: Seq<Seq<char>>, n: nat) -> Seq<Seq<char>>
    decreases n,
{
    if n == 0 || n > ls.len() {
        Seq::empty()
    } else {
        let rest = series_names_upto(ls, (n - 1) as nat);
        if is_listing_line(ls[n - 1]) {
            rest.push(line_patch_name(ls[n - 1]))
        } else {
            rest
        }
    }
}

/// The patch names a series text lists, in order.
pub open spec fn series_names(s: Seq<char>) -> Seq<Seq<char>> {
    series_names_upto(lines_of(s), lines_of(s).len())
}

/// Whether a series text lists a patch: some listing line has the name as
/// its first word.
pub open spec fn lists_patch(s: Seq<char>, name: Seq<char>) -> bool {
    exists|k: int|
        0 <= k < lines_of(s).len() && is_listing_line(#[trigger] lines_of(s)[k]) && first_word(
            lines_of(s)[k],
        ) == Some(name)
}

/// The patches an `applied-patches` text lists, bottom first.
pub fn applied_patches(content: &str) -> (r: Vec<String>)
    ensures
        r@.map_values(|s: String| s@) == nonempty_lines(content@),
{
    let cs = chars_of(content);
    let lines = split_lines(cs.as_slice());
    let ghost ls = lines_of(content@);
    let mut out: Vec<String> = Vec::new();
    let mut i: usize = 0;
    while i < lines.len()
        invariant
            ls == lines_of(content@),
            lines@.len() == ls.len(),
            forall|k: int| 0 <= k < lines@.len() ==> #[trigger] lines@[k]@ == ls[k],
            i <= lines@.len(),
            out@.map_values(|s: String| s@) == nonempty_upto(ls, i as nat),
        decreases lines@.len() - i,
    {
        assert(lines@[i as int]@ == ls[i as int]);
        if lines[i].len() > 0 {
            let s = string_of(lines[i].as_slice());
            let ghost before = out@;
            out.push(s);
            assert(out@.map_values(|s: String| s@) =~= before.map_values(|s: String| s@).push(s@));
        }
        i = i + 1;
    }
    out
}

/// The top applied patch: the last one `applied-patches` lists.
pub fn top_applied(content: &str) -> (r: Option<String>)
    ensures
        nonempty_lines(content@).len() == 0 ==> r is None,
        nonempty_lines(content@).len() > 0 ==> (r matches Some(t) && t@ == nonempty_lines(content@).last()),
{
    let mut all = applied_patches(content);
    proof {
        assert(all@.map_values(|s: String| s@).len() == all@.len());
    }
    let n = all.len();
    if n == 0 {
        None
    } else {
        let ghost v = all@;
        let top = all.pop();
        proof {
            assert(v.map_values(|s: String| s@)[n - 1] == v[n - 1]@);
        }
        top
    }
}

/// The patch names a series text lists, in order.
pub fn series_names_of(content: &str) -> (r: Vec<String>)
    ensures
        r@.map_values(|s: String| s@) == series_names(content@),
{
    let cs = chars_of(content);
    let lines = split_lines(cs.as_slice());
    let ghost ls = lines_of(content@);
    let mut out: Vec<String> = Vec::new();
    let mut i: usize = 0;
    while i < lines.len()
        invariant
            ls == lines_of(content@),
            lines@.len() == ls.len(),
            forall|k: int| 0 <= k < lines@.len() ==> #[trigger] lines@[k]@ == ls[k],
            i <= lines@.len(),
            out@.map_values(|s: String| s@) == series_names_upto(ls, i as nat),
        decreases lines@.len() - i,
    {
        let line = &lines[i];
        assert(line@ == ls[i as int]);
        if line.len() > 0 && line[0] != '#' {
            let name = match first_word_of(line.as_slice()) {
                Some(w) => string_of(w.as_slice()),
                None => string_of(line.as_slice()),
            };
            let ghost before = out@;
            out.push(name);
            assert(out@.map_values(|s: String| s@) =~= before.map_values(|s: String| s@).push(name@));
        }
        i = i + 1;
    }
    out
}

/// Whether a series text lists the named patch.
pub fn series_lists(content: &str, name: &str) -> (r: bool)
    ensures
        r == lists_patch(content@, name@),
{
    let cs = chars_of(content);
    let lines = split_lines(cs.as_slice());
    let ghost ls = lines_of(content@);
    let target = chars_of(name);
    let mut i: usize = 0;
    while i < lines.len()
        invariant
            ls == lines_of(content@),
            lines@.len() == ls.len(),
            forall|k: int| 0 <= k < lines@.len() ==> #[trigger] lines@[k]@ == ls[k],
            target@ == name@,
            i <= lines@.len(),
            forall|k: int|
                0 <= k < i ==> !(is_listing_line(#[trigger] ls[k]) && first_word(ls[k]) == Some(name@)),
        decreases lines@.len() - i,
    {
        let line = &lines[i];
        assert(line@ == ls[i as int]);
        if line.len() > 0 && line[0] != '#' {
            if let Some(w) = first_word_of(line.as_slice()) {
                if chars_eq(w.as_slice(), target.as_slice()) {
                    return true;
                }
            }
        }
        i = i + 1;
    }
    false
}

/// Whether a list of names holds a name.
pub fn names_contain(names: &Vec<String>, name: &str) -> (r: bool)
    ensures
        r == names@.map_values(|s: String| s@).contains(name@),
{
    let ghost v = names@.map_values(|s: String| s@);
    let mut i: usize = 0;
    while i < names.len()
        invariant
            v == names@.map_values(|s: String| s@),
            i <= names@.len(),
            forall|k: int| 0 <= k < i ==> v[k] != name@,
        decreases names@.len() - i,
    {
        if crate::text::str_eq(names[i].as_str(), name) {
            assert(v[i as int] == name@);
            return true;
        }
        i = i + 1;
    }
    false
}

/// The directory quilt runs in for a series file: the parent of its
/// `patches/` directory.
pub open spec fn spec_quilt_working_dir(series_uri: Seq<char>) -> Option<Seq<char>> {
    match spec_uri_path(series_uri) {
        Some(p) => match parent_dir(p) {
            Some(d) => parent_dir(d),
            None => None,
        },
        None => None,
    }
}

/// Find the working directory for quilt commands given a series file URI.
///
/// Quilt expects to be run from the project root (parent of `patches/`).
pub fn find_quilt_working_dir(series_uri: &str) -> (r: Option<String>)
    ensures
        r matches Some(d) ==> spec_quilt_working_dir(series_uri@) == Some(d@),
        r is None ==> spec_quilt_working_dir(series_uri@) is None,
{
    let p = match uri_path(series_uri) {
        Some(p) => p,
        None => return None,
    };
    let pc = chars_of(p.as_str());
    let d = match parent_of(pc.as_slice()) {
        Some(d) => d,
        None => return None,
    };
    match parent_of(d.as_slice()) {
        Some(w) => Some(string_of(w.as_slice())),
        None => None,
    }
}

/// `<project>/.pc/applied-patches` for a project directory.
pub open spec fn applied_patches_path(project: Seq<char>) -> Seq<char> {
    join_path(join_path(project, ".pc"@), "applied-patches"@)
}

/// The `applied-patches` file of the project a directory belongs to.
pub fn applied_patches_file(project: &str) -> (r: String)
    ensures
        r@ == applied_patches_path(project@),
{
    let p = chars_of(project);
    let pc = chars_of(".pc");
    let name = chars_of("applied-patches");
    let d = join(p.as_slice(), pc.as_slice());
    let f = join(d.as_slice(), name.as_slice());
    string_of(f.as_slice())
}

/// The directory of the file a `file:` URI names.
pub open spec fn spec_file_dir(uri: Seq<char>) -> Option<Seq<char>> {
    match spec_uri_to_file_path(uri) {
        Some(p) => parent_dir(p),
        None => None,
    }
}

fn file_dir(uri: &str) -> (r: Option<Vec<char>>)
    ensures
        r matches Some(d) ==> spec_file_dir(uri@) == Some(d@),
        r is None ==> spec_file_dir(uri@) is None,
{
    match uri_to_file_path(uri) {
        Some(p) => parent_of(chars_of(p.as_str()).as_slice()),
        None => None,
    }
}

/// The `series` file beside the patch file a URI names.
pub open spec fn spec_sibling_series(uri: Seq<char>) -> Option<Seq<char>> {
    match spec_file_dir(uri) {
        Some(d) => Some(join_path(d, "series"@)),
        None => None,
    }
}

/// The `series` file beside the patch file a URI names.
pub fn sibling_series_file(uri: &str) -> (r: Option<String>)
    ensures
        r matches Some(f) ==> spec_sibling_series(uri@) == Some(f@),
        r is None ==> spec_sibling_series(uri@) is None,
{
    match file_dir(uri) {
        Some(d) => Some(string_of(join(d.as_slice(), chars_of("series").as_slice()).as_slice())),
        None => None,
    }
}

/// The `applied-patches` file of the quilt project of the patch file a URI
/// names: `.pc/` beside the patch's directory.
pub open spec fn spec_patch_applied_file(uri: Seq<char>) -> Option<Seq<char>> {
    match spec_file_dir(uri) {
        Some(d) => match parent_dir(d) {
            Some(project) => Some(applied_patches_path(project)),
            None => None,
        },
        None => None,
    }
}

/// The `applied-patches` file of the quilt project of a patch file.
pub fn patch_applied_file(uri: &str) -> (r: Option<String>)
    ensures
        r matches Some(f) ==> spec_patch_applied_file(uri@) == Some(f@),
        r is None ==> spec_patch_applied_file(uri@) is None,
{
    match file_dir(uri) {
        Some(d) => match parent_of(d.as_slice()) {
            Some(project) => Some(applied_patches_file(string_of(project.as_slice()).as_str())),
            None => None,
        },
        None => None,
    }
}

/// The `applied-patches` file of the quilt project of a series file.
pub fn series_applied_file(series_uri: &str) -> (r: Option<String>)
    ensures
        r matches Some(f) ==> (spec_quilt_working_dir(series_uri@) matches Some(w) && f@ == applied_patches_path(w)),
        r is None ==> spec_quilt_working_dir(series_uri@) is None,
{
    match find_quilt_working_dir(series_uri) {
        Some(w) => Some(applied_patches_file(w.as_str())),
        None => None,
    }
}

} // verus!
