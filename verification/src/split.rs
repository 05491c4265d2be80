//! Splitting a hunk in two at the first context line that has changes both
//! before and after it: each part gets its own header, with the counts of
//! its lines and the starts where the first part leaves off.
use vstd::prelude::*;
use vstd::string::StringExecFns;
use crate::hunk_header::{header_range, range_number};
use crate::patch::{PatchDocument, ADD_LINE, CONTEXT_LINE, DELETE_LINE, HUNK_HEADER};
use crate::syntax::{children, ElementView};
use crate::text::{decimal, push_decimal_wide, push_str};

verus! {

/// An added or deleted line.
pub open spec fn is_change(k: u16) -> bool {
    k == ADD_LINE || k == DELETE_LINE
}

/// A line of a hunk's body.
pub open spec fn is_body_line(k: u16) -> bool {
    k == CONTEXT_LINE || is_change(k)
}

/// Whether a change comes at or after position `i` of the lines.
pub open spec fn change_from(t: Seq<ElementView>, ls: Seq<nat>, i: nat) -> bool {
    exists|j: int| i <= j < ls.len() && is_change(#[trigger] t[ls[j] as int].kind)
}

/// The first context line at or after `i` with a change before it (or `seen`)
/// and a change after it.
pub open spec fn split_from(t: Seq<ElementView>, ls: Seq<nat>, i: nat, seen: bool) -> Option<nat>
    decreases ls.len() - i,
{
    if i >= ls.len() {
        None
    } else if is_change(t[ls[i as int] as int].kind) {
        split_from(t, ls, i + 1, true)
    } else if seen && change_from(t, ls, i + 1) {
        Some(i)
    } else {
        split_from(t, ls, i + 1, seen)
    }
}

/// How many of the first `n` lines the old side has (all but added lines).
pub open spec fn old_lines(t: Seq<ElementView>, ls: Seq<nat>, n: nat) -> nat
    decreases n,
{
    if n == 0 || n > ls.len() {
        0
    } else {
        old_lines(t, ls, (n - 1) as nat) + if t[ls[n - 1] as int].kind != ADD_LINE { 1nat } else { 0nat }
    }
}

/// How many of the first `n` lines the new side has (all but deleted lines).
pub open spec fn new_lines(t: Seq<ElementView>, ls: Seq<nat>, n: nat) -> nat
    decreases n,
{
    if n == 0 || n > ls.len() {
        0
    } else {
        new_lines(t, ls, (n - 1) as nat) + if t[ls[n - 1] as int].kind != DELETE_LINE { 1nat } else { 0nat }
    }
}

/// The texts of the lines from `from` up to `to`, one after another.
pub open spec fn lines_text(t: Seq<ElementView>, ls: Seq<nat>, from: nat, to: nat) -> Seq<char>
    decreases to,
{
    if to <= from || to > ls.len() {
        Seq::empty()
    } else {
        lines_text(t, ls, from, (to - 1) as nat) + t[ls[to - 1] as int].text
    }
}

/// A hunk header `@@ -a,c +b,d @@` and its newline.
pub open spec fn split_header(a: nat, c: nat, b: nat, d: nat) -> Seq<char> {
    "@@ -"@ + decimal(a) + ","@ + decimal(c) + " +"@ + decimal(b) + ","@ + decimal(d) + " @@\n"@
}

/// Whether a hunk is its header followed by body lines only.
pub open spec fn plain_hunk(t: Seq<ElementView>, h: nat) -> bool {
    let cs = children(t, h);
    &&& cs.len() >= 2
    &&& t[cs[0] as int].kind == HUNK_HEADER
    &&& forall|i: int| 1 <= i < cs.len() ==> is_body_line(#[trigger] t[cs[i] as int].kind)
}

/// The text that replaces a hunk split in two, when it can be split: it is
/// its header and body lines alone, both header ranges have a start, and a
/// context line has changes before and after it.
pub open spec fn spec_split_text(t: Seq<ElementView>, h: nat) -> Option<Seq<char>> {
    let cs = children(t, h);
    let ls = cs.skip(1);
    if !plain_hunk(t, h) {
        None
    } else {
        match split_from(t, ls, 0, false) {
            None => None,
            Some(k) => match (header_range(t, cs[0], 0), header_range(t, cs[0], 1)) {
                (Some(ro), Some(rn)) => match (range_number(t, ro, 0), range_number(t, rn, 0)) {
                    (Some(a), Some(b)) => {
                        let c1 = old_lines(t, ls, k);
                        let d1 = new_lines(t, ls, k);
                        let c = old_lines(t, ls, ls.len());
                        let d = new_lines(t, ls, ls.len());
                        Some(
                            split_header(a, c1, b, d1) + lines_text(t, ls, 0, k) + split_header(
                                a + c1,
                                (c - c1) as nat,
                                b + d1,
                                (d - d1) as nat,
                            ) + lines_text(t, ls, k, ls.len()),
                        )
                    },
                    _ => None,
                },
                _ => None,
            },
        }
    }
}

proof fn lemma_counts_grow(t: Seq<ElementView>, ls: Seq<nat>, m: nat, n: nat)
    requires
        m <= n <= ls.len(),
    ensures
        old_lines(t, ls, m) <= old_lines(t, ls, n) <= n,
        new_lines(t, ls, m) <= new_lines(t, ls, n) <= n,
    decreases n,
{
    if n > 0 {
        if m < n {
            lemma_counts_grow(t, ls, m, (n - 1) as nat);
        } else {
            lemma_counts_grow(t, ls, (n - 1) as nat, (n - 1) as nat);
        }
    }
}

fn push_split_header(s: &mut String, a: u128, c: u128, b: u128, d: u128)
    ensures
        final(s)@ == old(s)@ + split_header(a as nat, c as nat, b as nat, d as nat),
{
    push_str(s, "@@ -");
    push_decimal_wide(s, a);
    push_str(s, ",");
    push_decimal_wide(s, c);
    push_str(s, " +");
    push_decimal_wide(s, b);
    push_str(s, ",");
    push_decimal_wide(s, d);
    push_str(s, " @@\n");
    assert(final(s)@ =~= old(s)@ + split_header(a as nat, c as nat, b as nat, d as nat));
}

impl PatchDocument {
    /// The texts of the lines from `from` up to `to`.
    fn push_lines(&self, s: &mut String, ls: &Vec<usize>, from: usize, to: usize)
        requires
            from <= to <= ls@.len(),
            forall|k: int| 0 <= k < ls@.len() ==> #[trigger] ls@[k] < self.tree@.len(),
        ensures
            final(s)@ == old(s)@ + lines_text(self.tree@, ls@.map_values(|c: usize| c as nat), from as nat, to as nat),
    {
        let ghost lv = ls@.map_values(|c: usize| c as nat);
        let ghost start = s@;
        let mut i = from;
        while i < to
            invariant
                from <= i <= to <= ls@.len(),
                lv == ls@.map_values(|c: usize| c as nat),
                forall|k: int| 0 <= k < ls@.len() ==> #[trigger] ls@[k] < self.tree@.len(),
                s@ == start + lines_text(self.tree@, lv, from as nat, i as nat),
            decreases to - i,
        {
            assert(lv[i as int] == ls@[i as int] as nat);
            push_str(s, self.tree.text_of(ls[i]).as_str());
            assert(s@ =~= start + lines_text(self.tree@, lv, from as nat, (i + 1) as nat));
            i = i + 1;
        }
    }

    /// The text of a hunk split in two, when it can be split.
    pub fn split_hunk_text(&self, h: usize) -> (r: Option<String>)
        ensures
            r matches Some(s) ==> spec_split_text(self.tree@, h as nat) == Some(s@),
            r is None ==> spec_split_text(self.tree@, h as nat) is None,
    {
        let ghost t = self.tree@;
        let cs = self.tree.children(h);
        let ghost cv = cs@.map_values(|c: usize| c as nat);
        if cs.len() < 2 || self.tree.kind_of(cs[0]) != HUNK_HEADER {
            return None;
        }
        assert(cv[0] == cs@[0] as nat);
        let mut ls: Vec<usize> = Vec::new();
        let mut i: usize = 1;
        while i < cs.len()
            invariant
                cv == cs@.map_values(|c: usize| c as nat),
                cv == children(t, h as nat),
                t == self.tree@,
                forall|k: int| 0 <= k < cs@.len() ==> #[trigger] cs@[k] < t.len(),
                1 <= i <= cs@.len(),
                ls@.map_values(|c: usize| c as nat) == cv.subrange(1, i as int),
                forall|k: int| 0 <= k < ls@.len() ==> #[trigger] ls@[k] < t.len(),
                forall|k: int| 1 <= k < i ==> is_body_line(#[trigger] t[cv[k] as int].kind),
            decreases cs@.len() - i,
        {
            assert(cv[i as int] == cs@[i as int] as nat);
            let kd = self.tree.kind_of(cs[i]);
            if !(kd == CONTEXT_LINE || kd == ADD_LINE || kd == DELETE_LINE) {
                assert(!plain_hunk(t, h as nat)) by {
                    assert(!is_body_line(t[cv[i as int] as int].kind));
                }
                return None;
            }
            let ghost before = ls@;
            ls.push(cs[i]);
            assert(ls@ =~= before.push(cs@[i as int]));
            assert(ls@.map_values(|c: usize| c as nat) =~= before.map_values(|c: usize| c as nat).push(cv[i as int]));
            assert(cv.subrange(1, i + 1) =~= cv.subrange(1, i as int).push(cv[i as int]));
            i = i + 1;
        }
        assert(plain_hunk(t, h as nat));
        let ghost lv = ls@.map_values(|c: usize| c as nat);
        assert(lv =~= cv.skip(1));
        // The last change, if any.
        let mut last: Option<usize> = None;
        let mut j: usize = 0;
        while j < ls.len()
            invariant
                lv == ls@.map_values(|c: usize| c as nat),
                t == self.tree@,
                forall|k: int| 0 <= k < ls@.len() ==> #[trigger] ls@[k] < t.len(),
                j <= ls@.len(),
                match last {
                    Some(l) => l < j && is_change(t[lv[l as int] as int].kind) && forall|m: int| l < m < j ==> !is_change(#[trigger] t[lv[m] as int].kind),
                    None => forall|m: int| 0 <= m < j ==> !is_change(#[trigger] t[lv[m] as int].kind),
                },
            decreases ls@.len() - j,
        {
            assert(lv[j as int] == ls@[j as int] as nat);
            let kd = self.tree.kind_of(ls[j]);
            if kd == ADD_LINE || kd == DELETE_LINE {
                last = Some(j);
            }
            j = j + 1;
        }
        // The split point.
        let mut seen = false;
        let mut k: usize = 0;
        let mut found: Option<usize> = None;
        while k < ls.len() && found.is_none()
            invariant
                lv == ls@.map_values(|c: usize| c as nat),
                t == self.tree@,
                forall|q: int| 0 <= q < ls@.len() ==> #[trigger] ls@[q] < t.len(),
                k <= ls@.len(),
                match last {
                    Some(l) => l < ls@.len() && is_change(t[lv[l as int] as int].kind) && forall|m: int| l < m < ls@.len() ==> !is_change(#[trigger] t[lv[m] as int].kind),
                    None => forall|m: int| 0 <= m < ls@.len() ==> !is_change(#[trigger] t[lv[m] as int].kind),
                },
                found is None ==> split_from(t, lv, 0, false) == split_from(t, lv, k as nat, seen),
                found matches Some(f) ==> split_from(t, lv, 0, false) == Some(f as nat) && f < ls@.len(),
            decreases ls@.len() - k,
        {
            assert(lv[k as int] == ls@[k as int] as nat);
            let kd = self.tree.kind_of(ls[k]);
            if kd == ADD_LINE || kd == DELETE_LINE {
                seen = true;
            } else {
                let after = match last {
                    Some(l) => l > k,
                    None => false,
                };
                assert(after == change_from(t, lv, (k + 1) as nat)) by {
                    if after {
                        let l = last.unwrap();
                        assert(is_change(t[lv[l as int] as int].kind));
                    }
                }
                if seen && after {
                    found = Some(k);
                }
            }
            k = k + 1;
        }
        let k = match found {
            None => {
                assert(split_from(t, lv, k as nat, seen) is None);
                return None;
            },
            Some(f) => f,
        };
        let hd = cs[0];
        let ro = match self.header_range(hd, 0) {
            None => return None,
            Some(r) => r,
        };
        let rn = match self.header_range(hd, 1) {
            None => return None,
            Some(r) => r,
        };
        let a = match self.range_number(ro, 0) {
            None => return None,
            Some(a) => a,
        };
        let b = match self.range_number(rn, 0) {
            None => return None,
            Some(b) => b,
        };
        // Line counts of the two parts.
        let mut c1: usize = 0;
        let mut d1: usize = 0;
        let mut c: usize = 0;
        let mut d: usize = 0;
        let mut m: usize = 0;
        while m < ls.len()
            invariant
                lv == ls@.map_values(|c: usize| c as nat),
                t == self.tree@,
                forall|q: int| 0 <= q < ls@.len() ==> #[trigger] ls@[q] < t.len(),
                m <= ls@.len(),
                k < ls@.len(),
                c == old_lines(t, lv, m as nat),
                d == new_lines(t, lv, m as nat),
                c1 == old_lines(t, lv, if m <= k { m as nat } else { k as nat }),
                d1 == new_lines(t, lv, if m <= k { m as nat } else { k as nat }),
            decreases ls@.len() - m,
        {
            proof {
                lemma_counts_grow(t, lv, m as nat, m as nat);
            }
            assert(lv[m as int] == ls@[m as int] as nat);
            let kd = self.tree.kind_of(ls[m]);
            if kd != ADD_LINE {
                c = c + 1;
                if m < k {
                    c1 = c1 + 1;
                }
            }
            if kd != DELETE_LINE {
                d = d + 1;
                if m < k {
                    d1 = d1 + 1;
                }
            }
            m = m + 1;
        }
        proof {
            lemma_counts_grow(t, lv, k as nat, lv.len());
        }
        let mut out = String::new();
        push_split_header(&mut out, a as u128, c1 as u128, b as u128, d1 as u128);
        self.push_lines(&mut out, &ls, 0, k);
        push_split_header(&mut out, a as u128 + c1 as u128, (c - c1) as u128, b as u128 + d1 as u128, (d - d1) as u128);
        self.push_lines(&mut out, &ls, k, ls.len());
        assert(out@ =~= spec_split_text(t, h as nat)->0);
        Some(out)
    }
}

/// Whether the line at `m` can split the lines: it is no change, and a
/// change comes before it and another after it.
pub open spec fn splits_at(t: Seq<ElementView>, ls: Seq<nat>, m: int) -> bool {
    &&& 0 <= m < ls.len()
    &&& !is_change(t[ls[m] as int].kind)
    &&& exists|j: int| 0 <= j < m && is_change(#[trigger] t[ls[j] as int].kind)
    &&& exists|j: int| m < j < ls.len() && is_change(#[trigger] t[ls[j] as int].kind)
}

proof fn lemma_split_from_first(t: Seq<ElementView>, ls: Seq<nat>, i: nat, seen: bool)
    requires
        i <= ls.len(),
        seen <==> exists|j: int| 0 <= j < i && is_change(#[trigger] t[ls[j] as int].kind),
    ensures
        split_from(t, ls, i, seen) matches Some(k) ==> i <= k && splits_at(t, ls, k as int) && forall|m: int|
            i <= m < k ==> !#[trigger] splits_at(t, ls, m),
        split_from(t, ls, i, seen) is None ==> forall|m: int| i <= m < ls.len() ==> !#[trigger] splits_at(t, ls, m),
    decreases ls.len() - i,
{
    if i < ls.len() {
        let now = is_change(t[ls[i as int] as int].kind);
        let seen2 = seen || now;
        assert(seen2 <==> exists|j: int| 0 <= j < i + 1 && is_change(#[trigger] t[ls[j] as int].kind)) by {
            if now {
                assert(0 <= i < i + 1 && is_change(t[ls[i as int] as int].kind));
            }
            if exists|j: int| 0 <= j < i + 1 && is_change(#[trigger] t[ls[j] as int].kind) {
                let j = choose|j: int| 0 <= j < i + 1 && is_change(#[trigger] t[ls[j] as int].kind);
                if j < i {
                    assert(seen);
                }
            }
        }
        lemma_split_from_first(t, ls, i + 1, seen2);
        if now {
            assert(!splits_at(t, ls, i as int));
        } else {
            assert(change_from(t, ls, i + 1) <==> exists|j: int| i < j < ls.len() && is_change(#[trigger] t[ls[j] as int].kind)) by {
                if change_from(t, ls, i + 1) {
                    let j = choose|j: int| i + 1 <= j < ls.len() && is_change(#[trigger] t[ls[j] as int].kind);
                    assert(i < j < ls.len() && is_change(t[ls[j] as int].kind));
                }
                if exists|j: int| i < j < ls.len() && is_change(#[trigger] t[ls[j] as int].kind) {
                    let j = choose|j: int| i < j < ls.len() && is_change(#[trigger] t[ls[j] as int].kind);
                    assert(i + 1 <= j < ls.len() && is_change(t[ls[j] as int].kind));
                }
            }
            assert(splits_at(t, ls, i as int) <==> seen && change_from(t, ls, i + 1));
        }
    }
}

/// A hunk is split at its first line that has a change before it and a
/// change after it and is itself no change; it cannot be split when no
/// line is such.
pub proof fn lemma_split_at_first_context_between_changes(t: Seq<ElementView>, ls: Seq<nat>)
    ensures
        split_from(t, ls, 0, false) matches Some(k) ==> splits_at(t, ls, k as int) && forall|m: int|
            0 <= m < k ==> !#[trigger] splits_at(t, ls, m),
        split_from(t, ls, 0, false) is None ==> forall|m: int| 0 <= m < ls.len() ==> !#[trigger] splits_at(t, ls, m),
{
    lemma_split_from_first(t, ls, 0, false);
}

} // verus!
