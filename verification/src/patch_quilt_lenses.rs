//! Code lenses for a patch file in a quilt project: the patch's place in
//! its series and whether it is applied.
use vstd::prelude::*;
use crate::lsp::{CodeLens, CodeLensView};
use crate::patch_quilt_actions::{extract_patch_name, spec_patch_name};
use crate::position::{Position, Range};
use crate::quilt::{applied_patches, names_contain, nonempty_lines, series_names, series_names_of};
use crate::series_code_lenses::counts_text;
use crate::series_diagnostics::first_with;
use crate::text::{decimal, push_decimal, push_str, str_eq};

verus! {

/// The lens label of a patch at 1-based `position` of `total`.
pub open spec fn quilt_label(position: nat, total: nat, applied: Seq<Seq<char>>, name: Seq<char>) -> Seq<char> {
    if applied.len() > 0 && applied.last() == name {
        "quilt: applied (top, "@ + counts_text(position, total)
    } else if applied.contains(name) {
        "quilt: applied ("@ + counts_text(position, total)
    } else {
        "quilt: unapplied ("@ + counts_text(position, total)
    }
}

/// The lens of a patch file: none unless its series lists it; placed at
/// the start of the file.
pub open spec fn spec_patch_quilt_lenses(uri: Seq<char>, series_content: Option<Seq<char>>, applied_content: Option<Seq<char>>) -> Seq<CodeLensView> {
    match (spec_patch_name(uri), series_content) {
        (Some(name), Some(s)) => {
            let names = series_names(s);
            match first_with(names, name, names.len()) {
                None => Seq::empty(),
                Some(i) => {
                    let applied = match applied_content {
                        Some(c) => nonempty_lines(c),
                        None => Seq::empty(),
                    };
                    let origin = Position { line: 0, character: 0 };
                    seq![CodeLensView { range: Range { start: origin, end: origin }, title: quilt_label(i + 1, names.len(), applied, name) }]
                },
            }
        },
        _ => Seq::empty(),
    }
}

/// Generate quilt-aware code lenses for a patch file, given the texts of
/// the `series` file beside it and of its project's `.pc/applied-patches`
/// (`None` where a file could not be read).
pub fn get_patch_quilt_lenses(uri: &str, series_content: Option<&str>, applied_content: Option<&str>) -> (r: Vec<CodeLens>)
    ensures
        r@.map_values(|l: CodeLens| l@) == spec_patch_quilt_lenses(
            uri@,
            match series_content {
                Some(c) => Some(c@),
                None => None,
            },
            match applied_content {
                Some(c) => Some(c@),
                None => None,
            },
        ),
{
    let name = match extract_patch_name(uri) {
        None => return Vec::new(),
        Some(n) => n,
    };
    let s = match series_content {
        None => return Vec::new(),
        Some(s) => s,
    };
    let names = series_names_of(s);
    let ghost nv = names@.map_values(|x: String| x@);
    let mut i: usize = 0;
    while i < names.len() && !str_eq(names[i].as_str(), name.as_str())
        invariant
            nv == names@.map_values(|x: String| x@),
            i <= names@.len(),
            first_with(nv, name@, i as nat) is None,
        decreases names@.len() - i,
    {
        i = i + 1;
    }
    if i == names.len() {
        return Vec::new();
    }
    proof {
        assert(first_with(nv, name@, (i + 1) as nat) == Some(i as nat));
        crate::series_diagnostics::lemma_first_with_stable(nv, name@, (i + 1) as nat, nv.len());
    }
    let applied: Vec<String> = match applied_content {
        Some(c) => applied_patches(c),
        None => Vec::new(),
    };
    let ghost av = applied@.map_values(|x: String| x@);
    let n = applied.len();
    let is_top = n > 0 && str_eq(applied[n - 1].as_str(), name.as_str());
    proof {
        if n > 0 {
            assert(av.last() == applied@[n - 1]@);
        }
    }
    let mut title = String::new();
    if is_top {
        push_str(&mut title, "quilt: applied (top, ");
    } else if names_contain(&applied, name.as_str()) {
        push_str(&mut title, "quilt: applied (");
    } else {
        push_str(&mut title, "quilt: unapplied (");
    }
    push_decimal(&mut title, i as u64 + 1);
    push_str(&mut title, "/");
    push_decimal(&mut title, names.len() as u64);
    push_str(&mut title, ")");
    let origin = Position { line: 0, character: 0 };
    let lens = CodeLens { range: Range { start: origin, end: origin }, title };
    let mut out: Vec<CodeLens> = Vec::new();
    out.push(lens);
    proof {
        let applied_spec = match applied_content {
            Some(c) => nonempty_lines(c@),
            None => Seq::<Seq<char>>::empty(),
        };
        assert(av =~= applied_spec);
        assert(lens@.title =~= quilt_label((i + 1) as nat, nv.len(), av, name@));
    }
    assert(out@.map_values(|l: CodeLens| l@) =~= seq![lens@]);
    out
}

proof fn lemma_first_with_is_first(names: Seq<Seq<char>>, name: Seq<char>, n: nat)
    requires
        n <= names.len(),
    ensures
        first_with(names, name, n) matches Some(i) ==> i < n && names[i as int] == name && forall|j: int| 0 <= j < i ==> names[j] != name,
        first_with(names, name, n) is None ==> forall|j: int| 0 <= j < n ==> names[j] != name,
    decreases n,
{
    if n > 0 {
        lemma_first_with_is_first(names, name, (n - 1) as nat);
    }
}

/// The lines of `.pc/applied-patches`, none when it could not be read.
pub open spec fn applied_lines(applied_content: Option<Seq<char>>) -> Seq<Seq<char>> {
    match applied_content {
        Some(c) => nonempty_lines(c),
        None => Seq::empty(),
    }
}

/// The start of a patch's lens label: `quilt: applied (top, ` for the last
/// applied patch, `quilt: applied (` for another applied one, and
/// `quilt: unapplied (` for one not applied.
pub open spec fn lens_status(applied: Seq<Seq<char>>, name: Seq<char>) -> Seq<char> {
    if applied.len() > 0 && applied[applied.len() - 1] == name {
        "quilt: applied (top, "@
    } else if exists|j: int| 0 <= j < applied.len() && applied[j] == name {
        "quilt: applied ("@
    } else {
        "quilt: unapplied ("@
    }
}

/// Whether `i` is where `name` is first listed.
pub open spec fn first_listed_at(names: Seq<Seq<char>>, name: Seq<char>, i: int) -> bool {
    0 <= i < names.len() && names[i] == name && forall|j: int| 0 <= j < i ==> names[j] != name
}

/// A patch file gets no lens when its name cannot be told, its series
/// could not be read, or its series does not list it.
pub proof fn lemma_unlisted_patch_has_no_lens(uri: Seq<char>, series_content: Option<Seq<char>>, applied_content: Option<Seq<char>>)
    requires
        spec_patch_name(uri) matches Some(name) && series_content matches Some(s) ==> forall|j: int|
            0 <= j < series_names(s).len() ==> series_names(s)[j] != name,
    ensures
        spec_patch_quilt_lenses(uri, series_content, applied_content).len() == 0,
{
    if spec_patch_name(uri) is Some && series_content is Some {
        let name = spec_patch_name(uri)->0;
        let names = series_names(series_content->0);
        lemma_first_with_is_first(names, name, names.len());
        if let Some(k) = first_with(names, name, names.len()) {
            assert(names[k as int] == name);
        }
    }
}

/// A patch that its series lists first at index `i` gets one lens, at the
/// start of the file, reading `quilt: applied (top, i+1/n)` when the patch
/// is the last applied one, `quilt: applied (i+1/n)` when it is applied
/// otherwise, and `quilt: unapplied (i+1/n)` when it is not, where `n` is the
/// number of listed patches.
pub proof fn lemma_listed_patch_lens(uri: Seq<char>, s: Seq<char>, applied_content: Option<Seq<char>>, name: Seq<char>, i: int)
    requires
        spec_patch_name(uri) == Some(name),
        first_listed_at(series_names(s), name, i),
    ensures
        spec_patch_quilt_lenses(uri, Some(s), applied_content).len() == 1,
        spec_patch_quilt_lenses(uri, Some(s), applied_content)[0].range == (Range {
            start: Position { line: 0, character: 0 },
            end: Position { line: 0, character: 0 },
        }),
        spec_patch_quilt_lenses(uri, Some(s), applied_content)[0].title == lens_status(applied_lines(applied_content), name)
            + decimal((i + 1) as nat) + "/"@ + decimal(series_names(s).len()) + ")"@,
{
    let names = series_names(s);
    let applied = match applied_content {
        Some(c) => nonempty_lines(c),
        None => Seq::<Seq<char>>::empty(),
    };
    lemma_first_with_is_first(names, name, names.len());
    let f = first_with(names, name, names.len());
    if f is None {
        assert(names[i] != name);
    }
    let k = f->0;
    if (k as int) < i {
        assert(names[k as int] != name);
    }
    if (k as int) > i {
        assert(names[i] != name);
    }
    assert(k == i);
    let counts = decimal((i + 1) as nat) + "/"@ + decimal(names.len()) + ")"@;
    assert(counts_text((i + 1) as nat, names.len()) =~= counts);
    let lenses = spec_patch_quilt_lenses(uri, Some(s), applied_content);
    if applied.len() > 0 && applied[applied.len() - 1] == name {
        assert(applied.last() == name);
        assert("quilt: applied (top, "@ + counts_text((i + 1) as nat, names.len()) =~= "quilt: applied (top, "@ + counts);
        assert(lenses[0].title == "quilt: applied (top, "@ + counts);
    } else if exists|j: int| 0 <= j < applied.len() && applied[j] == name {
        let j = choose|j: int| 0 <= j < applied.len() && applied[j] == name;
        assert(applied.contains(name));
        assert("quilt: applied ("@ + counts_text((i + 1) as nat, names.len()) =~= "quilt: applied ("@ + counts);
        assert(lenses[0].title == "quilt: applied ("@ + counts);
    } else {
        assert(!applied.contains(name));
        assert("quilt: unapplied ("@ + counts_text((i + 1) as nat, names.len()) =~= "quilt: unapplied ("@ + counts);
        assert(lenses[0].title == "quilt: unapplied ("@ + counts);
    }
    assert(lens_status(applied, name) + counts =~= lens_status(applied, name) + decimal((i + 1) as nat) + "/"@ + decimal(names.len()) + ")"@);
}

} // verus!
