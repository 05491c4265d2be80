//! Reversing a hunk twice gives it back: the lines of a text, written out
//! again one by one, make the same text.
use vstd::prelude::*;
use crate::code_actions::{lemma_reverse_line_twice, reverse_line, reversed_lines, spec_reverse_hunk};
use crate::hunk_header::{header_of, is_plain_range, is_plain_tail, lemma_reverse_header_swaps};
use crate::text::has_prefix;
use crate::text::{line_body, lines_of, lines_upto};

verus! {

/// A line without line breaks or carriage returns.
pub open spec fn no_breaks(l: Seq<char>) -> bool {
    forall|i: int| 0 <= i < l.len() ==> #[trigger] l[i] != '\n' && l[i] != '\r'
}

/// The first `n` lines, each followed by a newline.
pub open spec fn terminated(ls: Seq<Seq<char>>, n: nat) -> Seq<char>
    decreases n,
{
    if n == 0 || n > ls.len() {
        Seq::empty()
    } else {
        terminated(ls, (n - 1) as nat) + ls[n - 1] + seq!['\n']
    }
}

proof fn lemma_terminated_prefix(a: Seq<Seq<char>>, b: Seq<Seq<char>>, n: nat)
    requires
        n <= a.len(),
        n <= b.len(),
        forall|k: int| 0 <= k < n ==> a[k] == b[k],
    ensures
        terminated(a, n) == terminated(b, n),
    decreases n,
{
    if n > 0 {
        lemma_terminated_prefix(a, b, (n - 1) as nat);
    }
}

proof fn lemma_lines_prefix(s: Seq<char>, s2: Seq<char>, k: nat)
    requires
        k <= s.len(),
        k <= s2.len(),
        forall|i: int| 0 <= i < k ==> s[i] == s2[i],
    ensures
        lines_upto(s, k) == lines_upto(s2, k),
    decreases k,
{
    if k > 0 {
        lemma_lines_prefix(s, s2, (k - 1) as nat);
    }
}

proof fn lemma_lines_cover(t: Seq<char>, k: nat)
    requires
        k <= t.len(),
        forall|i: int| 0 <= i < t.len() ==> t[i] != '\r',
    ensures
        t.take(k as int) == terminated(lines_upto(t, k).0, lines_upto(t, k).0.len()) + lines_upto(t, k).1,
        no_breaks(lines_upto(t, k).1),
        forall|j: int| 0 <= j < lines_upto(t, k).0.len() ==> no_breaks(#[trigger] lines_upto(t, k).0[j]),
    decreases k,
{
    if k == 0 {
        assert(t.take(0) =~= Seq::<char>::empty());
    } else {
        lemma_lines_cover(t, (k - 1) as nat);
        let (d, c) = lines_upto(t, (k - 1) as nat);
        assert(t.take(k as int) =~= t.take(k - 1) + seq![t[k - 1]]);
        if t[k - 1] == '\n' {
            assert(line_body(c) == c);
            let d2 = d.push(c);
            lemma_terminated_prefix(d2, d, d.len());
            assert(terminated(d2, d2.len()) =~= terminated(d, d.len()) + c + seq!['\n']);
            assert forall|j: int| 0 <= j < d2.len() implies no_breaks(#[trigger] d2[j]) by {
                if j < d.len() {
                    assert(d2[j] == d[j]);
                }
            }
            assert(t.take(k as int) =~= terminated(d2, d2.len()) + Seq::<char>::empty());
        } else {
            assert(t.take(k as int) =~= terminated(d, d.len()) + c.push(t[k - 1]));
        }
    }
}

proof fn lemma_lines_chunk(s: Seq<char>, k: nat, m: nat)
    requires
        k + m <= s.len(),
        forall|i: int| k <= i < k + m ==> s[i] != '\n',
    ensures
        lines_upto(s, k + m) == (lines_upto(s, k).0, lines_upto(s, k).1 + s.subrange(k as int, (k + m) as int)),
    decreases m,
{
    if m == 0 {
        assert(lines_upto(s, k).1 + s.subrange(k as int, k as int) =~= lines_upto(s, k).1);
    } else {
        lemma_lines_chunk(s, k, (m - 1) as nat);
        assert(lines_upto(s, k).1 + s.subrange(k as int, (k + m) as int) =~= (lines_upto(s, k).1 + s.subrange(k as int, (k + m - 1) as int)).push(s[k + m - 1]));
    }
}

/// The lines of lines written out with newlines are those lines.
proof fn lemma_lines_of_terminated(ls: Seq<Seq<char>>, n: nat)
    requires
        n <= ls.len(),
        forall|j: int| 0 <= j < ls.len() ==> no_breaks(#[trigger] ls[j]),
    ensures
        lines_upto(terminated(ls, n), terminated(ls, n).len()) == (ls.take(n as int), Seq::<char>::empty()),
    decreases n,
{
    if n == 0 {
        assert(ls.take(0) =~= Seq::<Seq<char>>::empty());
    } else {
        lemma_lines_of_terminated(ls, (n - 1) as nat);
        let p = terminated(ls, (n - 1) as nat);
        let x = ls[n - 1];
        let s = terminated(ls, n);
        assert(s =~= p + x + seq!['\n']);
        lemma_lines_prefix(s, p, p.len());
        assert(no_breaks(x));
        assert forall|i: int| p.len() <= i < p.len() + x.len() implies s[i] != '\n' by {
            assert(s[i] == x[i - p.len()]);
        }
        lemma_lines_chunk(s, p.len(), x.len());
        assert(s.subrange(p.len() as int, (p.len() + x.len()) as int) =~= x);
        assert(Seq::<char>::empty() + x =~= x);
        assert(s[s.len() - 1] == '\n');
        assert(s.len() == p.len() + x.len() + 1);
        if x.len() > 0 {
            assert(x.last() != '\r');
        }
        assert(line_body(x) == x);
        assert(ls.take(n - 1).push(x) =~= ls.take(n as int));
    }
}

/// Without the final newline, the last line is still a line.
proof fn lemma_lines_of_unterminated(ls: Seq<Seq<char>>)
    requires
        ls.len() > 0,
        ls.last().len() > 0,
        forall|j: int| 0 <= j < ls.len() ==> no_breaks(#[trigger] ls[j]),
    ensures
        lines_of(terminated(ls, ls.len()).drop_last()) == ls,
{
    let n = ls.len();
    let p = terminated(ls, (n - 1) as nat);
    let x = ls.last();
    let s = terminated(ls, n).drop_last();
    assert(s =~= p + x);
    lemma_lines_of_terminated(ls, (n - 1) as nat);
    lemma_lines_prefix(s, p, p.len());
    assert(no_breaks(x));
    assert forall|i: int| p.len() <= i < p.len() + x.len() implies s[i] != '\n' by {
        assert(s[i] == x[i - p.len()]);
    }
    lemma_lines_chunk(s, p.len(), x.len());
    assert(s.subrange(p.len() as int, (p.len() + x.len()) as int) =~= x);
    assert(Seq::<char>::empty() + x =~= x);
    assert(ls.take(n - 1).push(x) =~= ls);
}

/// A line that reversal swaps and swaps back: a line that is no header, or
/// a header written as `@@ -A +B @@tail`.
pub open spec fn reversible_line(line: Seq<char>) -> bool {
    !has_prefix(line, "@@"@) || exists|a: Seq<char>, b: Seq<char>, tail: Seq<char>|
        is_plain_range(a) && is_plain_range(b) && is_plain_tail(tail) && line == header_of(a, b, tail)
}

proof fn lemma_reversed_is_terminated(ls: Seq<Seq<char>>, n: nat)
    requires
        n <= ls.len(),
    ensures
        reversed_lines(ls, n) == terminated(ls.map_values(|l: Seq<char>| reverse_line(l)), n),
    decreases n,
{
    if n > 0 {
        lemma_reversed_is_terminated(ls, (n - 1) as nat);
    }
}

proof fn lemma_reverse_keeps_breaks(line: Seq<char>)
    requires
        no_breaks(line),
        reversible_line(line),
    ensures
        no_breaks(reverse_line(line)),
        line.len() > 0 ==> reverse_line(line).len() > 0,
{
    reveal_strlit("@@");
    let r = reverse_line(line);
    if has_prefix(line, "@@"@) {
        let (a, b, tail) = choose|a: Seq<char>, b: Seq<char>, tail: Seq<char>|
            is_plain_range(a) && is_plain_range(b) && is_plain_tail(tail) && line == header_of(a, b, tail);
        lemma_reverse_header_swaps(a, b, tail);
        assert(r == header_of(b, a, tail));
        assert forall|i: int| 0 <= i < tail.len() implies #[trigger] tail[i] != '\n' && tail[i] != '\r' by {
            assert(line[a.len() + b.len() + 9 + i] == tail[i]);
        }
        assert forall|i: int| 0 <= i < r.len() implies #[trigger] r[i] != '\n' && r[i] != '\r' by {
            if 4 <= i < 4 + b.len() {
                assert(r[i] == b[i - 4]);
                assert(!crate::text::is_space(b[i - 4]));
            } else if 6 + b.len() <= i < 6 + b.len() + a.len() {
                assert(r[i] == a[i - 6 - b.len()]);
                assert(!crate::text::is_space(a[i - 6 - b.len()]));
            } else if i >= 9 + a.len() + b.len() {
                assert(r[i] == tail[i - 9 - a.len() - b.len()]);
            }
        }
    } else if line.len() > 0 && (line[0] == '-' || line[0] == '+') {
        assert forall|i: int| 0 <= i < r.len() implies #[trigger] r[i] != '\n' && r[i] != '\r' by {
            if i > 0 {
                assert(r[i] == line[i]);
            }
        }
    }
}

proof fn lemma_twice_is_identity(ls: Seq<Seq<char>>)
    requires
        forall|j: int| 0 <= j < ls.len() ==> reversible_line(#[trigger] ls[j]),
    ensures
        ({
            let once = ls.map_values(|l: Seq<char>| reverse_line(l));
            once.map_values(|l: Seq<char>| reverse_line(l)) == ls
        }),
{
    let once = ls.map_values(|l: Seq<char>| reverse_line(l));
    let twice = once.map_values(|l: Seq<char>| reverse_line(l));
    assert forall|j: int| 0 <= j < ls.len() implies #[trigger] twice[j] == ls[j] by {
        assert(reversible_line(ls[j]));
        lemma_reverse_line_twice(ls[j]);
    }
    assert(twice =~= ls);
}

/// Reversing a hunk twice gives the hunk back, where its lines end in a
/// plain newline and each header line is written as `@@ -A +B @@tail`.
pub proof fn lemma_reverse_hunk_twice(hunk: Seq<char>)
    requires
        forall|i: int| 0 <= i < hunk.len() ==> #[trigger] hunk[i] != '\r',
        forall|j: int| 0 <= j < lines_of(hunk).len() ==> reversible_line(#[trigger] lines_of(hunk)[j]),
    ensures
        spec_reverse_hunk(spec_reverse_hunk(hunk)) == hunk,
{
    let n = hunk.len();
    lemma_lines_cover(hunk, n);
    assert(hunk.take(n as int) =~= hunk);
    let (done, cur) = lines_upto(hunk, n);
    let ls = lines_of(hunk);
    let once = ls.map_values(|l: Seq<char>| reverse_line(l));
    lemma_twice_is_identity(ls);
    lemma_reversed_is_terminated(ls, ls.len());
    assert forall|j: int| 0 <= j < ls.len() implies no_breaks(#[trigger] ls[j]) by {
        if j < done.len() {
            assert(no_breaks(done[j]));
        } else {
            assert(ls[j] == cur);
        }
    }
    assert forall|j: int| 0 <= j < once.len() implies no_breaks(#[trigger] once[j]) by {
        assert(reversible_line(ls[j]));
        lemma_reverse_keeps_breaks(ls[j]);
    }
    let r = spec_reverse_hunk(hunk);
    let twice = once.map_values(|l: Seq<char>| reverse_line(l));
    lemma_reversed_is_terminated(once, once.len());
    lemma_terminated_prefix(twice, ls, ls.len());
    if n == 0 {
        assert(ls =~= Seq::<Seq<char>>::empty());
        assert(r =~= Seq::<char>::empty());
        assert(lines_of(r) =~= Seq::<Seq<char>>::empty());
    } else if hunk.last() == '\n' {
        assert(cur.len() == 0);
        assert(ls == done);
        assert(hunk =~= terminated(ls, ls.len()));
        assert(r == terminated(once, once.len()));
        lemma_lines_of_terminated(once, once.len());
        assert(once.take(once.len() as int) =~= once);
        assert(lines_of(r) == once);
        assert(r.len() > 0 && r.last() == '\n');
    } else {
        assert(cur.len() > 0);
        assert(ls == done.push(cur));
        lemma_terminated_prefix(ls, done, done.len());
        assert(terminated(ls, ls.len()) =~= hunk + seq!['\n']);
        assert(terminated(ls, ls.len()).drop_last() =~= hunk);
        let full = terminated(once, once.len());
        assert(full.len() > 0);
        assert(r == full.drop_last());
        lemma_reverse_keeps_breaks(cur);
        assert(once.last() == reverse_line(cur));
        assert(once.last().len() > 0);
        lemma_lines_of_unterminated(once);
        assert(lines_of(r) == once);
        let p = terminated(once, (once.len() - 1) as nat);
        assert(full =~= p + once.last() + seq!['\n']);
        assert(r =~= p + once.last());
        assert(r.last() == once.last().last());
        assert(r.last() != '\n');
    }
}

} // verus!
