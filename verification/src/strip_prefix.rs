//! A path relative to a root, as `Path::strip_prefix` gives it on Unix: the
//! components of the root must begin those of the path, and what is left is
//! the text of the path from its next component to its last one.
use vstd::prelude::*;
use crate::text::{chars_eq, chars_of, slice_chars, string_of};

verus! {

/// The span `[s, e)` of a component, unless it is `.` (which `Path`
/// skips past the start of a path).
pub open spec fn emit(p: Seq<char>, s: int, e: int) -> Seq<(int, int)> {
    if e == s + 1 && p[s] == '.' {
        Seq::empty()
    } else {
        seq![(s, e)]
    }
}

/// The spans of the components from position `i`, where the component in
/// progress began at `cur` (or none is in progress when `cur` is negative).
pub open spec fn scan(p: Seq<char>, i: int, cur: int) -> Seq<(int, int)>
    decreases p.len() - i,
{
    if i >= p.len() {
        if cur >= 0 {
            emit(p, cur, p.len() as int)
        } else {
            Seq::empty()
        }
    } else if p[i] == '/' {
        (if cur >= 0 {
            emit(p, cur, i)
        } else {
            Seq::empty()
        }) + scan(p, i + 1, -1)
    } else {
        scan(p, i + 1, if cur >= 0 { cur } else { i })
    }
}

/// The spans of the components of a path: the root `/`, or a leading `.`,
/// then the pieces between slashes other than empty ones and `.`.
pub open spec fn component_spans(p: Seq<char>) -> Seq<(int, int)> {
    let head: Seq<(int, int)> = if p.len() > 0 && p[0] == '/' {
        seq![(0, 1)]
    } else if p.len() > 0 && p[0] == '.' && (p.len() == 1 || p[1] == '/') {
        seq![(0, 1)]
    } else {
        Seq::empty()
    };
    head + scan(p, 0, -1)
}

/// The text of a span.
pub open spec fn span_text(p: Seq<char>, sp: (int, int)) -> Seq<char> {
    p.subrange(sp.0, sp.1)
}

/// Whether the components of `root` begin those of `path`.
pub open spec fn starts_with_components(root: Seq<char>, path: Seq<char>) -> bool {
    let rc = component_spans(root);
    let pc = component_spans(path);
    rc.len() <= pc.len() && forall|j: int| 0 <= j < rc.len() ==> span_text(root, #[trigger] rc[j]) == span_text(path, pc[j])
}

/// `Path::strip_prefix` followed by `to_string_lossy`: the path from its
/// first component past the root's to its last component, when the root's
/// components begin the path's.
pub open spec fn spec_strip_prefix(root: Seq<char>, path: Seq<char>) -> Option<Seq<char>> {
    let rc = component_spans(root);
    let pc = component_spans(path);
    if starts_with_components(root, path) {
        if rc.len() == pc.len() {
            Some(Seq::empty())
        } else {
            Some(path.subrange(pc[rc.len() as int].0, pc.last().1))
        }
    } else {
        None
    }
}

proof fn lemma_scan_bounds(p: Seq<char>, i: int, cur: int)
    requires
        0 <= i <= p.len(),
        cur < i,
    ensures
        forall|k: int| 0 <= k < scan(p, i, cur).len() ==> {
            let sp = #[trigger] scan(p, i, cur)[k];
            (if cur >= 0 { cur } else { i }) <= sp.0 < sp.1 <= p.len()
        },
        forall|k: int, m: int| 0 <= k < m < scan(p, i, cur).len() ==> #[trigger] scan(p, i, cur)[k].1 <= #[trigger] scan(p, i, cur)[m].0,
    decreases p.len() - i,
{
    let lo = if cur >= 0 { cur } else { i };
    let all = scan(p, i, cur);
    if i >= p.len() {
        if cur >= 0 {
            assert(all == emit(p, cur, p.len() as int));
        } else {
            assert(all =~= Seq::<(int, int)>::empty());
        }
    } else if p[i] == '/' {
        lemma_scan_bounds(p, i + 1, -1);
        let e: Seq<(int, int)> = if cur >= 0 { emit(p, cur, i) } else { Seq::empty() };
        let r = scan(p, i + 1, -1);
        assert(all == e + r);
        assert(forall|k: int| 0 <= k < e.len() ==> lo <= (#[trigger] e[k]).0 && e[k].0 < e[k].1 && e[k].1 <= i);
        assert forall|k: int| 0 <= k < all.len() implies lo <= (#[trigger] all[k]).0 < all[k].1 <= p.len() by {
            if k < e.len() {
                assert(all[k] == e[k]);
            } else {
                assert(all[k] == r[k - e.len()]);
            }
        }
        assert forall|k: int, m: int| 0 <= k < m < all.len() implies #[trigger] all[k].1 <= #[trigger] all[m].0 by {
            if m < e.len() {
                assert(e.len() <= 1);
            } else if k < e.len() {
                assert(all[k] == e[k]);
                assert(all[m] == r[m - e.len()]);
            } else {
                assert(all[k] == r[k - e.len()]);
                assert(all[m] == r[m - e.len()]);
            }
        }
    } else {
        lemma_scan_bounds(p, i + 1, lo);
        assert(all == scan(p, i + 1, lo));
    }
}

/// The component spans of a path, in order and inside it.
proof fn lemma_spans_bounds(p: Seq<char>)
    ensures
        forall|k: int| 0 <= k < component_spans(p).len() ==> 0 <= (#[trigger] component_spans(p)[k]).0 < component_spans(p)[k].1 <= p.len(),
        forall|k: int, m: int| 0 <= k < m < component_spans(p).len() ==> #[trigger] component_spans(p)[k].1 <= #[trigger] component_spans(p)[m].0,
{
    lemma_scan_bounds(p, 0, -1);
    let s = scan(p, 0, -1);
    let c = component_spans(p);
    if p.len() > 0 && (p[0] == '/' || (p[0] == '.' && (p.len() == 1 || p[1] == '/'))) {
        assert(c == seq![(0int, 1int)] + s);
        assert forall|k: int, m: int| 0 <= k < m < c.len() implies #[trigger] c[k].1 <= #[trigger] c[m].0 by {
            if k == 0 {
                assert(c[m] == s[m - 1]);
                if p[0] == '/' {
                    assert(s[m - 1].0 >= 1) by {
                        assert(scan(p, 0, -1) == scan(p, 1, -1));
                        lemma_scan_bounds(p, 1, -1);
                    }
                } else {
                    assert(s[m - 1].0 >= 1) by {
                        if p.len() == 1 {
                            assert(scan(p, 1, 0) == emit(p, 0, 1));
                            assert(scan(p, 0, -1) == scan(p, 1, 0));
                        } else {
                            assert(scan(p, 1, 0) == emit(p, 0, 1) + scan(p, 2, -1));
                            assert(scan(p, 0, -1) == scan(p, 1, 0));
                            assert(emit(p, 0, 1) =~= Seq::<(int, int)>::empty());
                            lemma_scan_bounds(p, 2, -1);
                        }
                    }
                }
            } else {
                assert(c[k] == s[k - 1]);
                assert(c[m] == s[m - 1]);
            }
        }
    } else {
        assert(c =~= s);
    }
}

/// The component spans of a path.
fn component_spans_exec(p: &[char]) -> (r: Vec<(usize, usize)>)
    ensures
        r@.map_values(|sp: (usize, usize)| (sp.0 as int, sp.1 as int)) == component_spans(p@),
{
    let mut out: Vec<(usize, usize)> = Vec::new();
    if p.len() > 0 && (p[0] == '/' || (p[0] == '.' && (p.len() == 1 || p[1] == '/'))) {
        out.push((0, 1));
    }
    let ghost head = out@.map_values(|sp: (usize, usize)| (sp.0 as int, sp.1 as int));
    let mut cur: Option<usize> = None;
    let mut i: usize = 0;
    while i < p.len()
        invariant
            i <= p@.len(),
            cur matches Some(c) ==> c < i,
            head + scan(p@, 0, -1) == out@.map_values(|sp: (usize, usize)| (sp.0 as int, sp.1 as int)) + scan(
                p@,
                i as int,
                match cur {
                    Some(c) => c as int,
                    None => -1,
                },
            ),
            component_spans(p@) == head + scan(p@, 0, -1),
        decreases p@.len() - i,
    {
        let ghost c0: int = match cur {
            Some(c) => c as int,
            None => -1,
        };
        let ghost before = out@.map_values(|sp: (usize, usize)| (sp.0 as int, sp.1 as int));
        if p[i] == '/' {
            if let Some(c) = cur {
                if !(i == c + 1 && p[c] == '.') {
                    out.push((c, i));
                    assert(out@.map_values(|sp: (usize, usize)| (sp.0 as int, sp.1 as int)) =~= before + emit(p@, c as int, i as int));
                } else {
                    assert(emit(p@, c as int, i as int) =~= Seq::<(int, int)>::empty());
                    assert(before + emit(p@, c as int, i as int) =~= before);
                }
                assert(scan(p@, i as int, c0) == emit(p@, c as int, i as int) + scan(p@, i + 1, -1));
            } else {
                assert(scan(p@, i as int, c0) =~= scan(p@, i + 1, -1));
            }
            cur = None;
        } else {
            if cur.is_none() {
                cur = Some(i);
            }
        }
        i = i + 1;
    }
    if let Some(c) = cur {
        let ghost before = out@.map_values(|sp: (usize, usize)| (sp.0 as int, sp.1 as int));
        if !(p.len() == c + 1 && p[c] == '.') {
            out.push((c, p.len()));
            assert(out@.map_values(|sp: (usize, usize)| (sp.0 as int, sp.1 as int)) =~= before + emit(p@, c as int, p@.len() as int));
        } else {
            assert(before + emit(p@, c as int, p@.len() as int) =~= before);
        }
    } else {
        assert(out@.map_values(|sp: (usize, usize)| (sp.0 as int, sp.1 as int)) =~= out@.map_values(|sp: (usize, usize)| (sp.0 as int, sp.1 as int)) + scan(p@, i as int, -1));
    }
    out
}

/// Strip `root` off `path` as `Path::strip_prefix` does.
pub fn strip_prefix(root: &str, path: &str) -> (r: Option<String>)
    ensures
        r matches Some(s) ==> spec_strip_prefix(root@, path@) == Some(s@),
        r is None ==> spec_strip_prefix(root@, path@) is None,
{
    let rch = chars_of(root);
    let pch = chars_of(path);
    let rc = component_spans_exec(rch.as_slice());
    let pc = component_spans_exec(pch.as_slice());
    let ghost rv = rc@.map_values(|sp: (usize, usize)| (sp.0 as int, sp.1 as int));
    let ghost pv = pc@.map_values(|sp: (usize, usize)| (sp.0 as int, sp.1 as int));
    proof {
        lemma_spans_bounds(root@);
        lemma_spans_bounds(path@);
    }
    assert(forall|k: int| 0 <= k < rv.len() ==> 0 <= (#[trigger] rv[k]).0 < rv[k].1 <= root@.len());
    assert(forall|k: int| 0 <= k < pv.len() ==> 0 <= (#[trigger] pv[k]).0 < pv[k].1 <= path@.len());
    if rc.len() > pc.len() {
        return None;
    }
    let mut j: usize = 0;
    while j < rc.len()
        invariant
            rv == rc@.map_values(|sp: (usize, usize)| (sp.0 as int, sp.1 as int)),
            pv == pc@.map_values(|sp: (usize, usize)| (sp.0 as int, sp.1 as int)),
            rv == component_spans(root@),
            pv == component_spans(path@),
            rch@ == root@,
            pch@ == path@,
            rc@.len() <= pc@.len(),
            j <= rc@.len(),
            forall|k: int| 0 <= k < rv.len() ==> 0 <= (#[trigger] rv[k]).0 < rv[k].1 <= root@.len(),
            forall|k: int| 0 <= k < pv.len() ==> 0 <= (#[trigger] pv[k]).0 < pv[k].1 <= path@.len(),
            forall|k: int| 0 <= k < j ==> span_text(root@, #[trigger] rv[k]) == span_text(path@, pv[k]),
        decreases rc@.len() - j,
    {
        let (rs, re) = rc[j];
        let (ps, pe) = pc[j];
        assert(rv[j as int] == (rs as int, re as int));
        assert(pv[j as int] == (ps as int, pe as int));
        let a = slice_chars(rch.as_slice(), rs, re);
        let b = slice_chars(pch.as_slice(), ps, pe);
        if !chars_eq(a.as_slice(), b.as_slice()) {
            assert(!starts_with_components(root@, path@)) by {
                assert(span_text(root@, rv[j as int]) != span_text(path@, pv[j as int]));
            }
            return None;
        }
        j = j + 1;
    }
    assert(starts_with_components(root@, path@));
    if rc.len() == pc.len() {
        return Some(String::new());
    }
    let (s, _) = pc[rc.len()];
    let (_, e) = pc[pc.len() - 1];
    assert(pv[rc@.len() as int] == (s as int, pc@[rc@.len() as int].1 as int));
    assert(pv[pv.len() - 1] == (pc@[pc@.len() - 1].0 as int, e as int));
    assert(s <= e) by {
        lemma_spans_bounds(path@);
        if rc@.len() < pc@.len() - 1 {
            assert(component_spans(path@)[rc@.len() as int].1 <= component_spans(path@)[pv.len() - 1].0);
        }
    }
    Some(string_of(slice_chars(pch.as_slice(), s, e).as_slice()))
}

} // verus!
