//! Completions for quilt series files: the files of the patches directory
//! that the series does not list yet.
use vstd::prelude::*;
use crate::lsp::CompletionItem;
use crate::names::{sorted_unlisted, unlisted_sorted};
use crate::paths::{parent_dir, parent_of};
use crate::series::{listed_names, SeriesDocument};
use crate::text::{chars_of, string_of};
use crate::uri::{spec_uri_path, uri_path};

verus! {

/// The patches directory of a series file: the directory of the URI's path.
pub open spec fn spec_completion_dir(uri: Seq<char>) -> Option<Seq<char>> {
    match spec_uri_path(uri) {
        Some(p) => parent_dir(p),
        None => None,
    }
}

/// Extract the patches directory from a series file URI.
pub fn patches_dir_from_uri(uri: &str) -> (r: Option<String>)
    ensures
        r matches Some(d) ==> spec_completion_dir(uri@) == Some(d@),
        r is None ==> spec_completion_dir(uri@) is None,
{
    let p = match uri_path(uri) {
        Some(p) => p,
        None => return None,
    };
    match parent_of(chars_of(p.as_str()).as_slice()) {
        Some(d) => Some(string_of(d.as_slice())),
        None => None,
    }
}

/// The completion labels: nothing without a patches directory, else its
/// `.patch` and `.diff` files that are not listed, sorted.
pub open spec fn spec_series_completions(t: Seq<crate::syntax::ElementView>, dir_files: Option<Seq<Seq<char>>>) -> Seq<Seq<char>> {
    match dir_files {
        None => Seq::empty(),
        Some(files) => sorted_unlisted(files, listed_names(t), false),
    }
}

/// Get completion items for a series file, given the names of the regular
/// files in its patches directory (`None` when that is not a directory).
pub fn get_series_completions(series: &SeriesDocument, dir_files: Option<&Vec<String>>) -> (r: Vec<CompletionItem>)
    ensures
        r@.map_values(|c: CompletionItem| c.label@) == spec_series_completions(
            series.tree@,
            match dir_files {
                Some(f) => Some(f@.map_values(|s: String| s@)),
                None => None,
            },
        ),
{
    let files = match dir_files {
        None => return Vec::new(),
        Some(f) => f,
    };
    let (_, listed) = series.named_entries();
    let names = unlisted_sorted(files, &listed, false);
    let ghost nv = names@.map_values(|s: String| s@);
    let mut i: usize = 0;
    let mut items: Vec<CompletionItem> = Vec::new();
    while i < names.len()
        invariant
            nv == names@.map_values(|s: String| s@),
            i <= names@.len(),
            items@.map_values(|c: CompletionItem| c.label@) == nv.take(i as int),
        decreases names@.len() - i,
    {
        let label = string_of(chars_of(names[i].as_str()).as_slice());
        let ghost before = items@;
        items.push(CompletionItem { label });
        assert(items@.map_values(|c: CompletionItem| c.label@) =~= before.map_values(|c: CompletionItem| c.label@).push(nv[i as int]));
        assert(nv.take(i + 1) =~= nv.take(i as int).push(nv[i as int]));
        i = i + 1;
    }
    assert(nv.take(names@.len() as int) =~= nv);
    items
}

} // verus!
