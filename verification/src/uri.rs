//! What the library needs to know of URIs, which it keeps as their text.
use vstd::prelude::*;
use tower_lsp_server::ls_types::Uri;

verus! {

/// The raw (still percent-encoded) path of the URI that a text parses to,
/// if it parses.
pub uninterp spec fn spec_uri_path(uri: Seq<char>) -> Option<Seq<char>>;

/// The percent-decoded path of the URI that a text parses to, if it parses.
pub uninterp spec fn spec_uri_decoded_path(uri: Seq<char>) -> Option<Seq<char>>;

/// Whether a text parses as a URI.
pub uninterp spec fn spec_uri_parses(uri: Seq<char>) -> bool;

/// Calls `Uri::from_str` and then `path().as_str()` of `fluent_uri`: the
/// result is named by `spec_uri_path`, a function of the text alone.
#[verifier::external_body]
pub(crate) fn uri_path(uri: &str) -> (r: Option<String>)
    ensures
        r matches Some(p) ==> spec_uri_path(uri@) == Some(p@),
        r is None ==> spec_uri_path(uri@) is None,
{
    uri.parse::<Uri>().ok().map(|u| u.path().as_str().to_string())
}

/// Calls `Uri::from_str` and then `path().decode().to_string_lossy()` of
/// `fluent_uri`: the result is named by `spec_uri_decoded_path`, a function
/// of the text alone.
#[verifier::external_body]
pub(crate) fn uri_decoded_path(uri: &str) -> (r: Option<String>)
    ensures
        r matches Some(p) ==> spec_uri_decoded_path(uri@) == Some(p@),
        r is None ==> spec_uri_decoded_path(uri@) is None,
{
    uri.parse::<Uri>().ok().map(|u| u.path().decode().to_string_lossy().into_owned())
}

/// Calls `Uri::from_str`: whether it succeeds is named by `spec_uri_parses`.
#[verifier::external_body]
pub(crate) fn uri_parses(uri: &str) -> (r: bool)
    ensures
        r == spec_uri_parses(uri@),
{
    uri.parse::<Uri>().is_ok()
}

/// The `file:` URI text that `Uri::from_file_path` makes of an absolute
/// path, if it parses.
pub uninterp spec fn spec_file_path_uri(path: Seq<char>) -> Option<Seq<char>>;

/// Calls `Uri::from_file_path` of `ls_types` and writes the URI out with
/// `to_string`. For an absolute path (on Unix, one starting with `/`) the
/// crate percent-encodes the path after `file://` and parses that, so the
/// result depends on the path alone and is named by `spec_file_path_uri`.
/// For a relative path the crate first canonicalizes it against the file
/// system, and nothing is stated of the result.
#[verifier::external_body]
pub(crate) fn file_path_uri(path: &str) -> (r: Option<String>)
    ensures
        path@.len() > 0 && path@[0] == '/' ==> (r matches Some(u) ==> spec_file_path_uri(path@) == Some(u@)),
        path@.len() > 0 && path@[0] == '/' ==> (r is None ==> spec_file_path_uri(path@) is None),
{
    Uri::from_file_path(std::path::Path::new(path)).map(|u| u.to_string())
}

/// The file path of a `file:` URI as an editor on Unix sees it: the decoded
/// URI path, when that is not empty.
pub open spec fn spec_uri_to_file_path(uri: Seq<char>) -> Option<Seq<char>> {
    match spec_uri_decoded_path(uri) {
        Some(p) => if p.len() > 0 {
            Some(p)
        } else {
            None
        },
        None => None,
    }
}

/// The file path that a URI names.
pub fn uri_to_file_path(uri: &str) -> (r: Option<String>)
    ensures
        r matches Some(p) ==> spec_uri_to_file_path(uri@) == Some(p@),
        r is None ==> spec_uri_to_file_path(uri@) is None,
{
    match uri_decoded_path(uri) {
        Some(p) => {
            if p.as_str().is_empty() {
                None
            } else {
                Some(p)
            }
        },
        None => None,
    }
}

} // verus!
