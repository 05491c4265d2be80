//! Hunk headers: the numbers in `@@ -start,count +start,count @@`, and
//! swapping the two sides of a header.
use vstd::prelude::*;
use vstd::string::StringExecFns;
use crate::patch::{hunk_header, hunk_stats, PatchDocument, ADD_LINE, CONTEXT_LINE, DELETE_LINE, HUNK_RANGE, NUMBER};
use crate::syntax::{children_of_kind, ElementView};
use crate::text::{
    count_leading_spaces, first_word, first_word_of, is_space, leading_spaces, lemma_leading_spaces,
    lemma_trailing_spaces, lemma_word_len, slice_chars, string_of, trailing_spaces, trim, trim_chars,
    trim_end, trim_end_chars, trim_start, word_len,
};

verus! {

pub open spec fn is_digit(c: char) -> bool {
    '0' <= c <= '9'
}

/// The value of a run of decimal digits.
pub open spec fn digits_value(s: Seq<char>) -> nat
    decreases s.len(),
{
    if s.len() == 0 {
        0
    } else {
        (digits_value(s.drop_last()) * 10 + (s.last() as nat - '0' as nat)) as nat
    }
}

pub open spec fn all_digits(s: Seq<char>) -> bool {
    forall|k: int| 0 <= k < s.len() ==> is_digit(#[trigger] s[k])
}

/// `u32::from_str`: an optional `+`, then at least one digit, with a value
/// that fits.
pub open spec fn parse_u32(s: Seq<char>) -> Option<nat> {
    let body = if s.len() > 0 && s[0] == '+' {
        s.drop_first()
    } else {
        s
    };
    if body.len() > 0 && all_digits(body) && digits_value(body) <= u32::MAX {
        Some(digits_value(body))
    } else {
        None
    }
}

pub fn parse_u32_exec(s: &[char]) -> (r: Option<u32>)
    ensures
        r matches Some(v) ==> parse_u32(s@) == Some(v as nat),
        r is None ==> parse_u32(s@) is None,
{
    let start: usize = if s.len() > 0 && s[0] == '+' {
        1
    } else {
        0
    };
    let ghost body = if s@.len() > 0 && s@[0] == '+' {
        s@.drop_first()
    } else {
        s@
    };
    assert(body =~= s@.skip(start as int));
    if start >= s.len() {
        return None;
    }
    let mut v: u64 = 0;
    let mut i = start;
    while i < s.len()
        invariant
            start <= i <= s@.len(),
            body == s@.skip(start as int),
            body == (if s@.len() > 0 && s@[0] == '+' {
                s@.drop_first()
            } else {
                s@
            }),
            v as nat == digits_value(s@.subrange(start as int, i as int)),
            v <= u32::MAX,
            all_digits(s@.subrange(start as int, i as int)),
        decreases s@.len() - i,
    {
        let c = s[i];
        assert(s@.subrange(start as int, i + 1).drop_last() =~= s@.subrange(start as int, i as int));
        if !('0' <= c && c <= '9') {
            assert(body[(i - start) as int] == s@[i as int]);
            assert(!is_digit(body[(i - start) as int]));
            assert(!all_digits(body));
            return None;
        }
        let d = (c as u32 - '0' as u32) as u64;
        v = v * 10 + d;
        if v > 0xffff_ffff {
            proof {
                assert(body.take(i + 1 - start) =~= s@.subrange(start as int, i + 1));
                if all_digits(body) {
                    lemma_digits_prefix_bound(body, (i + 1 - start) as nat);
                }
            }
            return None;
        }
        i = i + 1;
        assert(all_digits(s@.subrange(start as int, i as int)));
    }
    assert(s@.subrange(start as int, s@.len() as int) =~= body);
    Some(v as u32)
}

proof fn lemma_digits_prefix_bound(s: Seq<char>, n: nat)
    requires
        n <= s.len(),
        all_digits(s),
    ensures
        digits_value(s) >= digits_value(s.take(n as int)),
    decreases s.len(),
{
    if n < s.len() {
        lemma_digits_prefix_bound(s.drop_last(), n);
        assert(s.drop_last().take(n as int) =~= s.take(n as int));
        assert(all_digits(s.drop_last()));
    } else {
        assert(s.take(n as int) =~= s);
    }
}

/// The `k`-th number of a hunk range (`HunkRange::start` for 0,
/// `HunkRange::count` for 1).
pub open spec fn range_number(t: Seq<ElementView>, r: nat, k: int) -> Option<nat> {
    let nums = children_of_kind(t, r, NUMBER);
    if 0 <= k < nums.len() {
        parse_u32(t[nums[k] as int].text)
    } else {
        None
    }
}

/// The `k`-th range of a hunk header (old for 0, new for 1).
pub open spec fn header_range(t: Seq<ElementView>, hd: nat, k: int) -> Option<nat> {
    let rs = children_of_kind(t, hd, HUNK_RANGE);
    if 0 <= k < rs.len() {
        Some(rs[k])
    } else {
        None
    }
}

/// Whether a hunk's header declares line counts that its lines do not
/// have (`HunkHeader::check_counts` is not empty); a missing count counts
/// as one.
pub open spec fn counts_mismatch(t: Seq<ElementView>, h: nat) -> bool {
    match hunk_header(t, h) {
        None => false,
        Some(hd) => {
            let (c, a, d) = hunk_stats(t, h);
            let old_bad = match header_range(t, hd, 0) {
                Some(r) => match range_number(t, r, 1) {
                    Some(n) => n != c + d,
                    None => 1 != c + d,
                },
                None => false,
            };
            let new_bad = match header_range(t, hd, 1) {
                Some(r) => match range_number(t, r, 1) {
                    Some(n) => n != c + a,
                    None => 1 != c + a,
                },
                None => false,
            };
            old_bad || new_bad
        },
    }
}

impl PatchDocument {
    /// The `k`-th range of a hunk header.
    pub fn header_range(&self, hd: usize, k: usize) -> (r: Option<usize>)
        ensures
            r matches Some(x) ==> header_range(self.tree@, hd as nat, k as int) == Some(x as nat)
                && x < self.tree@.len(),
            r is None ==> header_range(self.tree@, hd as nat, k as int) is None,
    {
        let rs = self.tree.children_of_kind(hd, HUNK_RANGE);
        if k < rs.len() {
            assert(rs@.map_values(|c: usize| c as nat)[k as int] == rs@[k as int] as nat);
            Some(rs[k])
        } else {
            None
        }
    }

    /// The `k`-th number of a hunk range.
    pub fn range_number(&self, r: usize, k: usize) -> (v: Option<u32>)
        ensures
            v matches Some(n) ==> range_number(self.tree@, r as nat, k as int) == Some(n as nat),
            v is None ==> range_number(self.tree@, r as nat, k as int) is None,
    {
        let nums = self.tree.children_of_kind(r, NUMBER);
        if k < nums.len() {
            assert(nums@.map_values(|c: usize| c as nat)[k as int] == nums@[k as int] as nat);
            let t = self.tree.text_of(nums[k]);
            let cs = crate::text::chars_of(t.as_str());
            parse_u32_exec(cs.as_slice())
        } else {
            None
        }
    }

    /// Whether a hunk's declared line counts are wrong.
    pub fn counts_mismatch(&self, h: usize) -> (r: bool)
        ensures
            r == counts_mismatch(self.tree@, h as nat),
    {
        match self.tree.first_child_of_kind(h, crate::patch::HUNK_HEADER) {
            None => false,
            Some(hd) => {
                let st = self.stats(h);
                let old_bad = match self.header_range(hd, 0) {
                    Some(r) => match self.range_number(r, 1) {
                        Some(n) => n as u128 != st.context as u128 + st.deletions as u128,
                        None => 1 != st.context as u128 + st.deletions as u128,
                    },
                    None => false,
                };
                let new_bad = match self.header_range(hd, 1) {
                    Some(r) => match self.range_number(r, 1) {
                        Some(n) => n as u128 != st.context as u128 + st.additions as u128,
                        None => 1 != st.context as u128 + st.additions as u128,
                    },
                    None => false,
                };
                old_bad || new_bad
            },
        }
    }
}

/// The first `@@` at or after `i`.
pub open spec fn find_marker_from(s: Seq<char>, i: nat) -> Option<nat>
    decreases s.len() - i,
{
    if i + 1 >= s.len() {
        None
    } else if s[i as int] == '@' && s[(i + 1) as int] == '@' {
        Some(i)
    } else {
        find_marker_from(s, i + 1)
    }
}

pub fn find_marker(s: &[char]) -> (r: Option<usize>)
    ensures
        r matches Some(i) ==> find_marker_from(s@, 0) == Some(i as nat) && i + 2 <= s@.len(),
        r is None ==> find_marker_from(s@, 0) is None,
{
    let mut i: usize = 0;
    while i < s.len() && i + 1 < s.len()
        invariant
            i <= s@.len(),
            find_marker_from(s@, 0) == find_marker_from(s@, i as nat),
        decreases s@.len() - i,
    {
        if s[i] == '@' && s[i + 1] == '@' {
            return Some(i);
        }
        i = i + 1;
    }
    None
}

/// `s` without the leading run of `c` (`trim_start_matches`).
pub open spec fn strip_leading(s: Seq<char>, c: char) -> Seq<char>
    decreases s.len(),
{
    if s.len() > 0 && s[0] == c {
        strip_leading(s.drop_first(), c)
    } else {
        s
    }
}

pub fn strip_leading_exec(s: &[char], c: char) -> (r: Vec<char>)
    ensures
        r@ == strip_leading(s@, c),
{
    let mut i: usize = 0;
    assert(s@.skip(0) =~= s@);
    while i < s.len() && s[i] == c
        invariant
            i <= s@.len(),
            strip_leading(s@, c) == strip_leading(s@.skip(i as int), c),
        decreases s@.len() - i,
    {
        assert(s@.skip(i as int).drop_first() =~= s@.skip(i + 1));
        i = i + 1;
    }
    let r = slice_chars(s, i, s.len());
    assert(r@ =~= s@.skip(i as int));
    r
}

/// What follows the first whitespace-separated word.
pub open spec fn after_first_word(s: Seq<char>) -> Seq<char> {
    let rest = trim_start(s);
    rest.skip(word_len(rest) as int)
}

/// The header with its old and new ranges swapped:
/// `@@ -A +B @@ tail` becomes `@@ -B +A @@ tail`, where `A` and `B` are the
/// first two words between the markers with their own signs stripped;
/// trailing whitespace is dropped, and a header without two markers or two
/// words between them comes back (trimmed) as it is.
pub open spec fn spec_reverse_hunk_header(header: Seq<char>) -> Seq<char> {
    let h = trim_end(header);
    match find_marker_from(h, 0) {
        None => h,
        Some(i) => {
            let rest = h.skip((i + 2) as int);
            match find_marker_from(rest, 0) {
                None => h,
                Some(j) => {
                    let inner = trim(rest.take(j as int));
                    let tail = rest.skip((j + 2) as int);
                    match first_word(inner) {
                        None => h,
                        Some(old) => match first_word(after_first_word(inner)) {
                            None => h,
                            Some(new) => "@@ -"@ + strip_leading(new, '+') + " +"@
                                + strip_leading(old, '-') + " @@"@ + tail,
                        },
                    }
                },
            }
        },
    }
}

/// Reverse a hunk header line by swapping the old and new ranges.
pub fn reverse_hunk_header(header: &str) -> (r: String)
    ensures
        r@ == spec_reverse_hunk_header(header@),
{
    let hc = crate::text::chars_of(header);
    let h = trim_end_chars(hc.as_slice());
    let i = match find_marker(h.as_slice()) {
        None => return string_of(h.as_slice()),
        Some(i) => i,
    };
    let hl = h.len();
    assert(i + 2 <= hl);
    let rest = slice_chars(h.as_slice(), i + 2, hl);
    assert(rest@ =~= h@.skip(i + 2));
    let j = match find_marker(rest.as_slice()) {
        None => return string_of(h.as_slice()),
        Some(j) => j,
    };
    let inner_raw = slice_chars(rest.as_slice(), 0, j);
    assert(inner_raw@ =~= rest@.take(j as int));
    let inner = trim_chars(inner_raw.as_slice());
    let tail = slice_chars(rest.as_slice(), j + 2, rest.len());
    assert(tail@ =~= rest@.skip(j + 2));
    let old = match first_word_of(inner.as_slice()) {
        None => return string_of(h.as_slice()),
        Some(w) => w,
    };
    let a = count_leading_spaces(inner.as_slice());
    proof {
        crate::text::lemma_leading_bound_pub(inner@);
    }
    let trimmed = slice_chars(inner.as_slice(), a, inner.len());
    assert(trimmed@ =~= trim_start(inner@));
    proof {
        crate::text::lemma_first_word_len(inner@);
    }
    let after = slice_chars(trimmed.as_slice(), old.len(), trimmed.len());
    assert(after@ =~= after_first_word(inner@));
    let new = match first_word_of(after.as_slice()) {
        None => return string_of(h.as_slice()),
        Some(w) => w,
    };
    let new_body = strip_leading_exec(new.as_slice(), '+');
    let old_body = strip_leading_exec(old.as_slice(), '-');
    let mut out = String::from_str("@@ -");
    crate::text::push_chars(&mut out, new_body.as_slice());
    crate::text::push_str(&mut out, " +");
    crate::text::push_chars(&mut out, old_body.as_slice());
    crate::text::push_str(&mut out, " @@");
    crate::text::push_chars(&mut out, tail.as_slice());
    assert(out@ =~= spec_reverse_hunk_header(header@));
    out
}

/// A hunk header in the shape the reversal writes: `@@ -A +B @@tail`.
pub open spec fn header_of(a: Seq<char>, b: Seq<char>, tail: Seq<char>) -> Seq<char> {
    seq!['@', '@', ' ', '-'] + a + seq![' ', '+'] + b + seq![' ', '@', '@'] + tail
}

/// A range as a header writes it: not empty, without a sign of its own, a
/// space or an `@`.
pub open spec fn is_plain_range(a: Seq<char>) -> bool {
    &&& a.len() > 0
    &&& a[0] != '-'
    &&& a[0] != '+'
    &&& forall|i: int| 0 <= i < a.len() ==> !is_space(#[trigger] a[i]) && a[i] != '@'
}

/// What follows the closing `@@`, without whitespace at its end.
pub open spec fn is_plain_tail(tail: Seq<char>) -> bool {
    tail.len() == 0 || !is_space(tail.last())
}

proof fn lemma_marker_at(s: Seq<char>, i: nat, j: nat)
    requires
        i <= j,
        j + 1 < s.len(),
        s[j as int] == '@',
        s[j + 1 as int] == '@',
        forall|m: int| i <= m < j ==> s[m] != '@',
    ensures
        find_marker_from(s, i) == Some(j),
    decreases j - i,
{
    if i < j {
        lemma_marker_at(s, i + 1, j);
    }
}

proof fn lemma_strip_one(c: char, a: Seq<char>)
    requires
        a.len() > 0,
        a[0] != c,
    ensures
        strip_leading(seq![c] + a, c) == a,
{
    let s = seq![c] + a;
    assert(s[0] == c);
    assert(s.drop_first() =~= a);
    assert(strip_leading(a, c) == a);
}

/// The text between the markers of `@@ -A +B @@tail`, trimmed.
pub open spec fn inner_of(a: Seq<char>, b: Seq<char>) -> Seq<char> {
    seq!['-'] + a + seq![' ', '+'] + b
}

proof fn lemma_header_parts(a: Seq<char>, b: Seq<char>, tail: Seq<char>)
    requires
        is_plain_range(a),
        is_plain_range(b),
        is_plain_tail(tail),
    ensures
        ({
            let h = header_of(a, b, tail);
            let rest = h.skip(2);
            let j: nat = a.len() + b.len() + 5;
            &&& trim_end(h) == h
            &&& find_marker_from(h, 0) == Some(0nat)
            &&& find_marker_from(rest, 0) == Some(j)
            &&& trim(rest.take(j as int)) == inner_of(a, b)
            &&& rest.skip(j + 2 as int) == tail
        }),
{
    let h = header_of(a, b, tail);
    assert(!is_space(h.last())) by {
        if tail.len() == 0 {
            assert(h.last() == '@');
        } else {
            assert(h.last() == tail.last());
        }
    }
    assert(trailing_spaces(h) == 0);
    assert(trim_end(h) =~= h);
    lemma_marker_at(h, 0, 0);
    let rest = h.skip(2);
    assert(rest =~= seq![' ', '-'] + a + seq![' ', '+'] + b + seq![' ', '@', '@'] + tail);
    let j: nat = a.len() + b.len() + 5;
    assert forall|m: int| 0 <= m < j implies rest[m] != '@' by {
        if 2 <= m < 2 + a.len() {
            assert(rest[m] == a[m - 2]);
        } else if 4 + a.len() <= m < 4 + a.len() + b.len() {
            assert(rest[m] == b[m - 4 - a.len()]);
        }
    }
    lemma_marker_at(rest, 0, j);
    let inner0 = rest.take(j as int);
    assert(inner0 =~= seq![' ', '-'] + a + seq![' ', '+'] + b + seq![' ']);
    lemma_leading_spaces(inner0, 1);
    assert(inner0.skip(1)[0] == '-');
    assert(leading_spaces(inner0.skip(1)) == 0);
    let ts = trim_start(inner0);
    assert(ts =~= seq!['-'] + a + seq![' ', '+'] + b + seq![' ']);
    lemma_trailing_spaces(ts, 1);
    let ts1 = ts.take(ts.len() - 1);
    assert(ts1 =~= inner_of(a, b));
    assert(ts1.last() == b.last());
    assert(trailing_spaces(ts1) == 0);
    assert(trim(inner0) =~= inner_of(a, b));
    assert(rest.skip(j + 2 as int) =~= tail);
}

proof fn lemma_inner_words(a: Seq<char>, b: Seq<char>)
    requires
        is_plain_range(a),
        is_plain_range(b),
    ensures
        first_word(inner_of(a, b)) == Some(seq!['-'] + a),
        first_word(after_first_word(inner_of(a, b))) == Some(seq!['+'] + b),
{
    let inner = inner_of(a, b);
    let w: int = a.len() + 1 as int;
    assert(leading_spaces(inner) == 0);
    assert(trim_start(inner) =~= inner);
    assert forall|k: int| 0 <= k < w implies !is_space(inner[k]) by {
        if k > 0 {
            assert(inner[k] == a[k - 1]);
        }
    }
    lemma_word_len(inner, w as nat);
    assert(inner.skip(w)[0] == ' ');
    assert(word_len(inner.skip(w)) == 0);
    assert(inner.take(w) =~= seq!['-'] + a);
    let after = after_first_word(inner);
    assert(after =~= seq![' ', '+'] + b);
    lemma_leading_spaces(after, 1);
    assert(after.skip(1)[0] == '+');
    assert(leading_spaces(after.skip(1)) == 0);
    let x = trim_start(after);
    assert(x =~= seq!['+'] + b);
    assert forall|k: int| 0 <= k < x.len() implies !is_space(x[k]) by {
        if k > 0 {
            assert(x[k] == b[k - 1]);
        }
    }
    lemma_word_len(x, x.len());
    assert(x.skip(x.len() as int).len() == 0);
    assert(x.take(x.len() as int) =~= x);
}

/// Reversing a header written as `@@ -A +B @@tail` gives `@@ -B +A @@tail`.
pub proof fn lemma_reverse_header_swaps(a: Seq<char>, b: Seq<char>, tail: Seq<char>)
    requires
        is_plain_range(a),
        is_plain_range(b),
        is_plain_tail(tail),
    ensures
        spec_reverse_hunk_header(header_of(a, b, tail)) == header_of(b, a, tail),
{
    reveal_strlit("@@ -");
    reveal_strlit(" +");
    reveal_strlit(" @@");
    lemma_header_parts(a, b, tail);
    lemma_inner_words(a, b);
    lemma_strip_one('+', b);
    lemma_strip_one('-', a);
    let h = header_of(a, b, tail);
    assert(spec_reverse_hunk_header(h) =~= header_of(b, a, tail));
}

/// Reversing a header twice gives it back.
pub proof fn lemma_reverse_header_twice(a: Seq<char>, b: Seq<char>, tail: Seq<char>)
    requires
        is_plain_range(a),
        is_plain_range(b),
        is_plain_tail(tail),
    ensures
        spec_reverse_hunk_header(spec_reverse_hunk_header(header_of(a, b, tail))) == header_of(a, b, tail),
{
    lemma_reverse_header_swaps(a, b, tail);
    lemma_reverse_header_swaps(b, a, tail);
}

/// The line count a hunk range declares: its second number, or 1 when it
/// has none.
pub open spec fn declared_count(t: Seq<ElementView>, r: nat) -> nat {
    match range_number(t, r, 1) {
        Some(n) => n,
        None => 1,
    }
}

/// A hunk whose old range declares a count other than the number of its
/// context and deleted lines is flagged.
pub proof fn lemma_wrong_old_count_is_flagged(t: Seq<ElementView>, h: nat, hd: nat, r: nat)
    requires
        hunk_header(t, h) == Some(hd),
        header_range(t, hd, 0) == Some(r),
        declared_count(t, r) != children_of_kind(t, h, CONTEXT_LINE).len() + children_of_kind(t, h, DELETE_LINE).len(),
    ensures
        counts_mismatch(t, h),
{
}

/// A hunk whose new range declares a count other than the number of its
/// context and added lines is flagged.
pub proof fn lemma_wrong_new_count_is_flagged(t: Seq<ElementView>, h: nat, hd: nat, r: nat)
    requires
        hunk_header(t, h) == Some(hd),
        header_range(t, hd, 1) == Some(r),
        declared_count(t, r) != children_of_kind(t, h, CONTEXT_LINE).len() + children_of_kind(t, h, ADD_LINE).len(),
    ensures
        counts_mismatch(t, h),
{
}

/// A hunk is flagged only when it has a header and one of its ranges
/// declares a count that its lines do not have.
pub proof fn lemma_flagged_only_for_wrong_counts(t: Seq<ElementView>, h: nat)
    requires
        counts_mismatch(t, h),
    ensures
        hunk_header(t, h) matches Some(hd) && ((header_range(t, hd, 0) matches Some(r) && declared_count(t, r)
            != children_of_kind(t, h, CONTEXT_LINE).len() + children_of_kind(t, h, DELETE_LINE).len()) || (header_range(
            t,
            hd,
            1,
        ) matches Some(r) && declared_count(t, r) != children_of_kind(t, h, CONTEXT_LINE).len() + children_of_kind(
            t,
            h,
            ADD_LINE,
        ).len())),
{
}

} // verus!
