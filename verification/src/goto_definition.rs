//! Go-to-definition from the paths in `---`/`+++` headers to the files
//! they name, resolved against the project root that holds the patch.
use vstd::prelude::*;
use vstd::string::{StringExecFns, StringSliceAdditionalSpecFns};
use crate::document_links::{dev_null, is_dev_null};
use crate::patch::{PatchDocument, NEW_FILE, OLD_FILE, PATH};
use crate::paths::{components, join, join_path, parent_dir, parent_of, path_components, prefix_path, rebuild};
use crate::position::{fits, spec_position_to_offset, try_position_to_offset, Position};
use crate::scip::{spec_strip_ab_prefix, strip_ab_prefix};
use crate::syntax::{token_at, wf, ElementView};
use crate::text::{chars_eq, chars_of, push_str, string_of};
use crate::uri::{spec_uri_parses, spec_uri_path, uri_parses, uri_path};

verus! {

/// The path a go-to-definition at a position follows: the path token there,
/// inside a file header, unless it is `/dev/null`, without its `a/` or `b/`.
pub open spec fn spec_definition_path(t: Seq<ElementView>, bytes: Seq<u8>, position: Position) -> Option<Seq<char>> {
    match spec_position_to_offset(bytes, position) {
        None => None,
        Some(off) => match token_at(t, off) {
            None => None,
            Some(tok) => {
                let p = t[tok as int].parent;
                if t[tok as int].kind != PATH || p >= tok || !(t[p as int].kind == OLD_FILE || t[p as int].kind
                    == NEW_FILE) || t[tok as int].text == dev_null() {
                    None
                } else {
                    Some(spec_strip_ab_prefix(t[tok as int].text))
                }
            },
        },
    }
}

/// The path under the cursor that go-to-definition resolves.
pub fn definition_path_at(patch: &PatchDocument, source_text: &str, position: Position) -> (r: Option<String>)
    requires
        fits(source_text.spec_bytes()),
        wf(patch.tree@),
    ensures
        r matches Some(p) ==> spec_definition_path(patch.tree@, source_text.spec_bytes(), position) == Some(p@),
        r is None ==> spec_definition_path(patch.tree@, source_text.spec_bytes(), position) is None,
{
    let off = match try_position_to_offset(source_text, position) {
        None => return None,
        Some(o) => o,
    };
    let tok = match patch.tree.token_at(off) {
        None => return None,
        Some(t) => t,
    };
    assert(patch.tree@[tok as int] == patch.tree.elements@[tok as int]@);
    let p = patch.tree.elements[tok].parent;
    if patch.tree.kind_of(tok) != PATH || p >= tok {
        return None;
    }
    let pk = patch.tree.kind_of(p);
    if !(pk == OLD_FILE || pk == NEW_FILE) {
        return None;
    }
    let text = patch.tree.text_of(tok);
    if is_dev_null(text.as_str()) {
        return None;
    }
    Some(strip_ab_prefix(text.as_str()))
}

pub open spec fn patches_name() -> Seq<char> {
    seq!['p', 'a', 't', 'c', 'h', 'e', 's']
}

/// A directory that may be the project root.
pub struct RootProbe {
    /// An ancestor of the patch: the root when it holds `.git`.
    pub dir: String,
    /// When that ancestor is named `patches`, its parent: the root when it
    /// holds `.pc/` or `debian/`.
    pub quilt_parent: Option<String>,
}

/// The `i`-th proper ancestor of a path, nearest first.
pub open spec fn probe_dir(path: Seq<char>, i: nat) -> Seq<char> {
    rebuild(path, (components(path).len() - 1 - i) as nat)
}

/// The parent of the `i`-th proper ancestor, when that is named `patches`.
pub open spec fn probe_parent(path: Seq<char>, i: nat) -> Option<Seq<char>> {
    let c = components(path);
    let k = c.len() - 1 - i;
    if k >= 1 && c[k - 1] == patches_name() {
        Some(rebuild(path, (k - 1) as nat))
    } else {
        None
    }
}

/// The number of proper ancestors of a path.
pub open spec fn probe_count(path: Seq<char>) -> nat {
    let n = components(path).len();
    if n == 0 {
        0
    } else {
        n
    }
}

/// The directories to look into, nearest first, for a patch at the URI.
pub fn root_probes(uri: &str) -> (r: Option<Vec<RootProbe>>)
    ensures
        r is None <==> spec_uri_path(uri@) is None,
        r matches Some(v) ==> {
            let path = spec_uri_path(uri@)->0;
            &&& v@.len() == probe_count(path)
            &&& forall|i: int| 0 <= i < v@.len() ==> {
                &&& (#[trigger] v@[i]).dir@ == probe_dir(path, i as nat)
                &&& match v@[i].quilt_parent {
                    Some(q) => probe_parent(path, i as nat) == Some(q@),
                    None => probe_parent(path, i as nat) is None,
                }
            }
        },
{
    let path = match uri_path(uri) {
        None => return None,
        Some(p) => p,
    };
    let pc = chars_of(path.as_str());
    let comps = path_components(pc.as_slice());
    let n = comps.len();
    let patches = vec!['p', 'a', 't', 'c', 'h', 'e', 's'];
    assert(patches@ =~= patches_name());
    let mut out: Vec<RootProbe> = Vec::new();
    let mut i: usize = 0;
    while i < n
        invariant
            pc@ == path@,
            n == comps@.len(),
            comps@.len() == components(pc@).len(),
            forall|j: int| 0 <= j < comps@.len() ==> #[trigger] comps@[j]@ == components(pc@)[j],
            patches@ == patches_name(),
            i <= n,
            out@.len() == i,
            forall|q: int| 0 <= q < i ==> {
                &&& (#[trigger] out@[q]).dir@ == probe_dir(pc@, q as nat)
                &&& match out@[q].quilt_parent {
                    Some(x) => probe_parent(pc@, q as nat) == Some(x@),
                    None => probe_parent(pc@, q as nat) is None,
                }
            },
        decreases n - i,
    {
        let k = n - 1 - i;
        let dir = string_of(prefix_path(pc.as_slice(), &comps, k).as_slice());
        let quilt_parent = if k >= 1 && chars_eq(comps[k - 1].as_slice(), patches.as_slice()) {
            Some(string_of(prefix_path(pc.as_slice(), &comps, k - 1).as_slice()))
        } else {
            None
        };
        out.push(RootProbe { dir, quilt_parent });
        i = i + 1;
    }
    Some(out)
}

/// The first probe, from `i` on, that finds a root: the quilt parent when
/// it holds quilt's marker, else the ancestor when it holds `.git`.
pub open spec fn choose_root(path: Seq<char>, quilt: Seq<bool>, git: Seq<bool>, i: nat) -> Option<Seq<char>>
    decreases probe_count(path) - i,
{
    if i >= probe_count(path) {
        match parent_dir(path) {
            Some(p) => parent_dir(p),
            None => None,
        }
    } else if quilt[i as int] && probe_parent(path, i) is Some {
        probe_parent(path, i)
    } else if git[i as int] {
        Some(probe_dir(path, i))
    } else {
        choose_root(path, quilt, git, i + 1)
    }
}

/// The project root of a patch: the parent of the nearest `patches/`
/// ancestor that has `.pc/` or `debian/` beside it, or the nearest ancestor
/// with `.git`, or else the patch's grandparent. `quilt[i]` and `git[i]`
/// tell what the `i`-th probe of [`root_probes`] found.
pub fn find_project_root(uri: &str, quilt: &Vec<bool>, git: &Vec<bool>) -> (r: Option<String>)
    requires
        spec_uri_path(uri@) matches Some(p) ==> quilt@.len() == probe_count(p) && git@.len() == probe_count(p),
    ensures
        spec_uri_path(uri@) is None ==> r is None,
        spec_uri_path(uri@) matches Some(p) ==> match r {
            Some(s) => choose_root(p, quilt@, git@, 0) == Some(s@),
            None => choose_root(p, quilt@, git@, 0) is None,
        },
{
    let probes = match root_probes(uri) {
        None => return None,
        Some(v) => v,
    };
    let path = uri_path(uri).unwrap();
    let ghost p = path@;
    let mut i: usize = 0;
    while i < probes.len()
        invariant
            spec_uri_path(uri@) == Some(p),
            p == path@,
            probes@.len() == probe_count(p),
            quilt@.len() == probe_count(p),
            git@.len() == probe_count(p),
            forall|q: int| 0 <= q < probes@.len() ==> {
                &&& (#[trigger] probes@[q]).dir@ == probe_dir(p, q as nat)
                &&& match probes@[q].quilt_parent {
                    Some(x) => probe_parent(p, q as nat) == Some(x@),
                    None => probe_parent(p, q as nat) is None,
                }
            },
            i <= probes@.len(),
            choose_root(p, quilt@, git@, 0) == choose_root(p, quilt@, git@, i as nat),
        decreases probes@.len() - i,
    {
        let pr = &probes[i];
        if quilt[i] {
            if let Some(q) = &pr.quilt_parent {
                return Some(q.clone());
            }
        }
        if git[i] {
            return Some(pr.dir.clone());
        }
        i = i + 1;
    }
    match parent_of(chars_of(path.as_str()).as_slice()) {
        None => None,
        Some(d) => match parent_of(d.as_slice()) {
            None => None,
            Some(g) => Some(string_of(g.as_slice())),
        },
    }
}

/// The file a definition path names under the project root.
pub fn definition_target(project_root: &str, clean_path: &str) -> (r: String)
    ensures
        r@ == join_path(project_root@, clean_path@),
{
    string_of(join(chars_of(project_root).as_slice(), chars_of(clean_path).as_slice()).as_slice())
}

/// The `file://` URI text of a path.
pub fn file_uri(path: &str) -> (r: String)
    ensures
        r@ == "file://"@ + path@,
{
    let mut s = String::from_str("file://");
    push_str(&mut s, path);
    s
}

/// Where go-to-definition at a position leads: the URI text of the file
/// the path under the cursor names under the project root, when that file
/// exists (`target_is_file`) and the URI parses.
pub open spec fn spec_goto_definition(t: Seq<ElementView>, bytes: Seq<u8>, position: Position, uri: Seq<char>, quilt: Seq<bool>, git: Seq<bool>, target_is_file: bool) -> Option<Seq<char>> {
    match (spec_definition_path(t, bytes, position), spec_uri_path(uri)) {
        (Some(clean), Some(p)) => match choose_root(p, quilt, git, 0) {
            Some(root) => {
                let target = "file://"@ + join_path(root, clean);
                if target_is_file && spec_uri_parses(target) {
                    Some(target)
                } else {
                    None
                }
            },
            None => None,
        },
        _ => None,
    }
}

/// Handle go-to-definition for a patch file, given what the probes of
/// [`root_probes`] found and whether the resolved target is a file.
pub fn goto_definition(
    patch: &PatchDocument,
    source_text: &str,
    position: Position,
    document_uri: &str,
    quilt: &Vec<bool>,
    git: &Vec<bool>,
    target_is_file: bool,
) -> (r: Option<String>)
    requires
        fits(source_text.spec_bytes()),
        wf(patch.tree@),
        spec_uri_path(document_uri@) matches Some(p) ==> quilt@.len() == probe_count(p) && git@.len() == probe_count(p),
    ensures
        r matches Some(u) ==> spec_goto_definition(patch.tree@, source_text.spec_bytes(), position, document_uri@, quilt@, git@, target_is_file) == Some(u@),
        r is None ==> spec_goto_definition(patch.tree@, source_text.spec_bytes(), position, document_uri@, quilt@, git@, target_is_file) is None,
{
    let clean = match definition_path_at(patch, source_text, position) {
        None => return None,
        Some(c) => c,
    };
    let root = match find_project_root(document_uri, quilt, git) {
        None => return None,
        Some(r) => r,
    };
    let target = definition_target(root.as_str(), clean.as_str());
    if !target_is_file {
        return None;
    }
    let u = file_uri(target.as_str());
    if uri_parses(u.as_str()) {
        Some(u)
    } else {
        None
    }
}

/// Go-to-definition with the probe answers checked: `None` also when the
/// answers are not one per probe of [`root_probes`].
pub fn goto_definition_checked(
    patch: &PatchDocument,
    source_text: &str,
    position: Position,
    document_uri: &str,
    quilt: &Vec<bool>,
    git: &Vec<bool>,
    target_is_file: bool,
) -> (r: Option<String>)
    requires
        fits(source_text.spec_bytes()),
        wf(patch.tree@),
    ensures
        spec_uri_path(document_uri@) matches Some(p) && quilt@.len() == probe_count(p) && git@.len() == probe_count(p)
            ==> match r {
            Some(u) => spec_goto_definition(patch.tree@, source_text.spec_bytes(), position, document_uri@, quilt@, git@, target_is_file) == Some(u@),
            None => spec_goto_definition(patch.tree@, source_text.spec_bytes(), position, document_uri@, quilt@, git@, target_is_file) is None,
        },
        !(spec_uri_path(document_uri@) matches Some(p) && quilt@.len() == probe_count(p) && git@.len() == probe_count(p))
            ==> r is None,
{
    let probes = match root_probes(document_uri) {
        None => return None,
        Some(v) => v,
    };
    if quilt.len() != probes.len() || git.len() != probes.len() {
        return None;
    }
    goto_definition(patch, source_text, position, document_uri, quilt, git, target_is_file)
}

/// Go-to-definition follows the path token under the cursor when it lies
/// in a `---` or `+++` header and is not `/dev/null`: it takes the path
/// text after a leading `a/` or `b/`, or the whole text without one.
pub proof fn lemma_definition_path_strips_prefix(t: Seq<ElementView>, bytes: Seq<u8>, position: Position)
    ensures
        spec_definition_path(t, bytes, position) matches Some(c) ==> {
            let off = spec_position_to_offset(bytes, position)->0;
            let tok = token_at(t, off)->0;
            let pt = t[tok as int].text;
            let p = t[tok as int].parent;
            &&& spec_position_to_offset(bytes, position) is Some
            &&& token_at(t, off) is Some
            &&& t[tok as int].kind == PATH
            &&& p < tok
            &&& (t[p as int].kind == OLD_FILE || t[p as int].kind == NEW_FILE)
            &&& pt != dev_null()
            &&& (pt.len() >= 2 && (pt[0] == 'a' || pt[0] == 'b') && pt[1] == '/') ==> c == pt.skip(2)
            &&& !(pt.len() >= 2 && (pt[0] == 'a' || pt[0] == 'b') && pt[1] == '/') ==> c == pt
        },
{
    if let Some(off) = spec_position_to_offset(bytes, position) {
        if let Some(tok) = token_at(t, off) {
            let pt = t[tok as int].text;
            if pt.len() >= 2 && (pt[0] == 'a' || pt[0] == 'b') && pt[1] == '/' {
                assert(pt.take(2) =~= seq!['a', '/'] || pt.take(2) =~= seq!['b', '/']);
            } else {
                if pt.len() >= 2 {
                    assert(pt.take(2)[0] == pt[0] && pt.take(2)[1] == pt[1]);
                }
                assert(!crate::text::has_prefix(pt, seq!['a', '/']));
                assert(!crate::text::has_prefix(pt, seq!['b', '/']));
            }
        }
    }
}

/// Whether the `i`-th probe finds the project root: a `patches` ancestor
/// with quilt's marker beside it, or an ancestor holding `.git`.
pub open spec fn probe_finds(path: Seq<char>, quilt: Seq<bool>, git: Seq<bool>, i: nat) -> bool {
    (quilt[i as int] && probe_parent(path, i) is Some) || git[i as int]
}

proof fn lemma_root_skips_unmarked(path: Seq<char>, quilt: Seq<bool>, git: Seq<bool>, k: nat, i: nat)
    requires
        k <= i <= probe_count(path),
        forall|j: nat| k <= j < i ==> !#[trigger] probe_finds(path, quilt, git, j),
    ensures
        choose_root(path, quilt, git, k) == choose_root(path, quilt, git, i),
    decreases i - k,
{
    if k < i {
        assert(!probe_finds(path, quilt, git, k));
        lemma_root_skips_unmarked(path, quilt, git, k + 1, i);
    }
}

/// The project root comes from the nearest ancestor that shows one: the
/// parent of a `patches` directory with quilt's marker beside it, before
/// that same ancestor's `.git`; with no marker at all, the patch's
/// grandparent directory.
pub proof fn lemma_root_from_nearest_marker(path: Seq<char>, quilt: Seq<bool>, git: Seq<bool>)
    ensures
        forall|i: nat|
            i < probe_count(path) && #[trigger] probe_finds(path, quilt, git, i) && (forall|j: nat|
                j < i ==> !#[trigger] probe_finds(path, quilt, git, j)) ==> choose_root(path, quilt, git, 0) == if quilt[i as int]
                && probe_parent(path, i) is Some {
                probe_parent(path, i)
            } else {
                Some(probe_dir(path, i))
            },
        (forall|j: nat| j < probe_count(path) ==> !#[trigger] probe_finds(path, quilt, git, j)) ==> choose_root(
            path,
            quilt,
            git,
            0,
        ) == match parent_dir(path) {
            Some(p) => parent_dir(p),
            None => None,
        },
{
    assert forall|i: nat|
        i < probe_count(path) && #[trigger] probe_finds(path, quilt, git, i) && (forall|j: nat|
            j < i ==> !#[trigger] probe_finds(path, quilt, git, j)) implies choose_root(path, quilt, git, 0) == if quilt[i as int]
            && probe_parent(path, i) is Some {
            probe_parent(path, i)
        } else {
            Some(probe_dir(path, i))
        } by {
        lemma_root_skips_unmarked(path, quilt, git, 0, i);
    }
    if forall|j: nat| j < probe_count(path) ==> !#[trigger] probe_finds(path, quilt, git, j) {
        lemma_root_skips_unmarked(path, quilt, git, 0, probe_count(path));
    }
}

} // verus!
