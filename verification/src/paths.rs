//! Slash-separated file paths and the URIs that name them.
//!
//! Paths are handled as text, the way `std::path::Path` reads them on Unix:
//! repeated separators and `.` segments do not count as components, `..`
//! does.
use vstd::prelude::*;
use crate::text::slice_chars;

verus! {

/// Pieces between separators, as `str::split` gives them.
pub open spec fn split_upto(s: Seq<char>, sep: char, n: nat) -> (Seq<Seq<char>>, Seq<char>)
    decreases n,
{
    if n == 0 || n > s.len() {
        (Seq::empty(), Seq::empty())
    } else {
        let (done, cur) = split_upto(s, sep, (n - 1) as nat);
        if s[n - 1] == sep {
            (done.push(cur), Seq::empty())
        } else {
            (done, cur.push(s[n - 1]))
        }
    }
}

pub open spec fn split_on(s: Seq<char>, sep: char) -> Seq<Seq<char>> {
    let (done, cur) = split_upto(s, sep, s.len());
    done.push(cur)
}

pub fn split_chars(s: &[char], sep: char) -> (r: Vec<Vec<char>>)
    ensures
        r@.len() == split_on(s@, sep).len(),
        forall|k: int| 0 <= k < r@.len() ==> #[trigger] r@[k]@ == split_on(s@, sep)[k],
{
    let mut done: Vec<Vec<char>> = Vec::new();
    let mut cur: Vec<char> = Vec::new();
    let mut i: usize = 0;
    while i < s.len()
        invariant
            i <= s@.len(),
            done@.len() == split_upto(s@, sep, i as nat).0.len(),
            forall|k: int|
                0 <= k < done@.len() ==> #[trigger] done@[k]@ == split_upto(s@, sep, i as nat).0[k],
            cur@ == split_upto(s@, sep, i as nat).1,
        decreases s@.len() - i,
    {
        if s[i] == sep {
            done.push(cur);
            cur = Vec::new();
        } else {
            cur.push(s[i]);
        }
        i = i + 1;
    }
    done.push(cur);
    done
}

/// A segment that names something: not empty and not `.`.
pub open spec fn is_component(seg: Seq<char>) -> bool {
    seg.len() > 0 && !(seg.len() == 1 && seg[0] == '.')
}

pub open spec fn components_upto(segs: Seq<Seq<char>>, n: nat) -> Seq<Seq<char>>
    decreases n,
{
    if n == 0 || n > segs.len() {
        Seq::empty()
    } else if is_component(segs[n - 1]) {
        components_upto(segs, (n - 1) as nat).push(segs[n - 1])
    } else {
        components_upto(segs, (n - 1) as nat)
    }
}

/// The named components of a path, root and `.` left out.
pub open spec fn components(p: Seq<char>) -> Seq<Seq<char>> {
    let segs = split_on(p, '/');
    components_upto(segs, segs.len())
}

pub open spec fn is_parent_dir(seg: Seq<char>) -> bool {
    seg.len() == 2 && seg[0] == '.' && seg[1] == '.'
}

/// The last component of a path, unless it is `..` or there is none
/// (`Path::file_name`).
pub open spec fn file_name(p: Seq<char>) -> Option<Seq<char>> {
    let c = components(p);
    if c.len() == 0 || is_parent_dir(c.last()) {
        None
    } else {
        Some(c.last())
    }
}

fn is_component_exec(seg: &[char]) -> (r: bool)
    ensures
        r == is_component(seg@),
{
    seg.len() > 0 && !(seg.len() == 1 && seg[0] == '.')
}

/// The components of a path.
pub fn path_components(p: &[char]) -> (r: Vec<Vec<char>>)
    ensures
        r@.len() == components(p@).len(),
        forall|k: int| 0 <= k < r@.len() ==> #[trigger] r@[k]@ == components(p@)[k],
{
    let segs = split_chars(p, '/');
    let ghost ss = split_on(p@, '/');
    let mut out: Vec<Vec<char>> = Vec::new();
    let mut i: usize = 0;
    while i < segs.len()
        invariant
            i <= segs@.len(),
            segs@.len() == ss.len(),
            forall|k: int| 0 <= k < segs@.len() ==> #[trigger] segs@[k]@ == ss[k],
            out@.len() == components_upto(ss, i as nat).len(),
            forall|k: int|
                0 <= k < out@.len() ==> #[trigger] out@[k]@ == components_upto(ss, i as nat)[k],
        decreases segs@.len() - i,
    {
        let seg = &segs[i];
        assert(seg@ == ss[i as int]);
        if is_component_exec(seg.as_slice()) {
            out.push(seg.clone());
        }
        i = i + 1;
    }
    out
}

pub fn is_parent_dir_exec(seg: &[char]) -> (r: bool)
    ensures
        r == is_parent_dir(seg@),
{
    seg.len() == 2 && seg[0] == '.' && seg[1] == '.'
}

/// The file name of a path.
pub fn file_name_of(p: &[char]) -> (r: Option<Vec<char>>)
    ensures
        r matches Some(n) ==> file_name(p@) == Some(n@),
        r is None ==> file_name(p@) is None,
{
    let comps = path_components(p);
    let n = comps.len();
    if n == 0 {
        return None;
    }
    let last = &comps[n - 1];
    assert(last@ == components(p@).last());
    if is_parent_dir_exec(last.as_slice()) {
        None
    } else {
        Some(last.clone())
    }
}

/// `dir` joined with `name` by one separator (`Path::join` for a relative
/// name; a name starting with `/` replaces the directory).
pub open spec fn join_path(dir: Seq<char>, name: Seq<char>) -> Seq<char> {
    if name.len() > 0 && name[0] == '/' {
        name
    } else if dir.len() == 0 {
        name
    } else if dir.last() == '/' {
        dir + name
    } else {
        dir.push('/') + name
    }
}

pub fn join(dir: &[char], name: &[char]) -> (r: Vec<char>)
    ensures
        r@ == join_path(dir@, name@),
{
    if name.len() > 0 && name[0] == '/' {
        return slice_chars(name, 0, name.len());
    }
    let mut out = slice_chars(dir, 0, dir.len());
    if dir.len() > 0 && dir[dir.len() - 1] != '/' {
        out.push('/');
    }
    let mut i: usize = 0;
    let ghost start = out@;
    while i < name.len()
        invariant
            i <= name@.len(),
            out@ == start + name@.take(i as int),
        decreases name@.len() - i,
    {
        out.push(name[i]);
        i = i + 1;
        assert(out@ =~= start + name@.take(i as int));
    }
    assert(name@.take(name@.len() as int) =~= name@);
    assert(out@ =~= join_path(dir@, name@));
    out
}

/// The directory part of a path: everything before its last component
/// (`Path::parent`); none for a path without a component.
pub open spec fn parent_dir(p: Seq<char>) -> Option<Seq<char>> {
    let c = components(p);
    if c.len() == 0 {
        None
    } else {
        Some(rebuild(p, (c.len() - 1) as nat))
    }
}

/// The path made of the first `k` components, rooted like `p`.
pub open spec fn rebuild(p: Seq<char>, k: nat) -> Seq<char> {
    let c = components(p);
    let root: Seq<char> = if p.len() > 0 && p[0] == '/' {
        seq!['/']
    } else {
        Seq::empty()
    };
    root + join_components(c, k)
}

/// The first `k` components joined by separators.
pub open spec fn join_components(c: Seq<Seq<char>>, k: nat) -> Seq<char>
    decreases k,
{
    if k == 0 || k > c.len() {
        Seq::empty()
    } else if k == 1 {
        c[0]
    } else {
        join_components(c, (k - 1) as nat).push('/') + c[k - 1]
    }
}

/// The path of the first `k` components of `p`.
pub fn prefix_path(p: &[char], comps: &Vec<Vec<char>>, k: usize) -> (r: Vec<char>)
    requires
        comps@.len() == components(p@).len(),
        forall|j: int| 0 <= j < comps@.len() ==> #[trigger] comps@[j]@ == components(p@)[j],
        k <= comps@.len(),
    ensures
        r@ == rebuild(p@, k as nat),
{
    let mut out: Vec<char> = Vec::new();
    if p.len() > 0 && p[0] == '/' {
        out.push('/');
    }
    let ghost root = out@;
    let mut i: usize = 0;
    while i < k
        invariant
            i <= k <= comps@.len(),
            comps@.len() == components(p@).len(),
            forall|j: int| 0 <= j < comps@.len() ==> #[trigger] comps@[j]@ == components(p@)[j],
            out@ == root + join_components(components(p@), i as nat),
        decreases k - i,
    {
        if i > 0 {
            out.push('/');
        }
        let seg = &comps[i];
        let mut j: usize = 0;
        let ghost before = out@;
        while j < seg.len()
            invariant
                j <= seg@.len(),
                out@ == before + seg@.take(j as int),
            decreases seg@.len() - j,
        {
            out.push(seg[j]);
            j = j + 1;
            assert(out@ =~= before + seg@.take(j as int));
        }
        assert(seg@.take(seg@.len() as int) =~= seg@);
        i = i + 1;
        assert(out@ =~= root + join_components(components(p@), i as nat));
    }
    out
}

pub fn parent_of(p: &[char]) -> (r: Option<Vec<char>>)
    ensures
        r matches Some(d) ==> parent_dir(p@) == Some(d@),
        r is None ==> parent_dir(p@) is None,
{
    let comps = path_components(p);
    if comps.len() == 0 {
        return None;
    }
    Some(prefix_path(p, &comps, comps.len() - 1))
}

} // verus!
