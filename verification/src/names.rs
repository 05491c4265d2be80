//! File names: the order `String` sorts them in, sorting, and picking the
//! names of a patches directory that may be patches.
use vstd::prelude::*;
use vstd::relations::{sorted_by, total_ordering};
use crate::text::{chars_end_with, chars_eq, chars_of, has_suffix, string_of};

verus! {

/// The order of `String`'s `Ord`: lexicographic by code point, which is
/// the order of the strings' UTF-8 bytes.
pub open spec fn str_le(a: Seq<char>, b: Seq<char>) -> bool
    decreases a.len(),
{
    if a.len() == 0 {
        true
    } else if b.len() == 0 {
        false
    } else if a[0] != b[0] {
        (a[0] as int) < (b[0] as int)
    } else {
        str_le(a.drop_first(), b.drop_first())
    }
}

/// `str_le` as a relation.
pub open spec fn name_order() -> spec_fn(Seq<char>, Seq<char>) -> bool {
    |a: Seq<char>, b: Seq<char>| str_le(a, b)
}

proof fn lemma_le_reflexive(a: Seq<char>)
    ensures
        str_le(a, a),
    decreases a.len(),
{
    if a.len() > 0 {
        lemma_le_reflexive(a.drop_first());
    }
}

proof fn lemma_le_antisymmetric(a: Seq<char>, b: Seq<char>)
    requires
        str_le(a, b),
        str_le(b, a),
    ensures
        a == b,
    decreases a.len(),
{
    if a.len() > 0 && b.len() > 0 && a[0] == b[0] {
        lemma_le_antisymmetric(a.drop_first(), b.drop_first());
        assert(a =~= seq![a[0]] + a.drop_first());
        assert(b =~= seq![b[0]] + b.drop_first());
    } else if a.len() == 0 && b.len() == 0 {
        assert(a =~= b);
    }
}

proof fn lemma_le_transitive(a: Seq<char>, b: Seq<char>, c: Seq<char>)
    requires
        str_le(a, b),
        str_le(b, c),
    ensures
        str_le(a, c),
    decreases a.len(),
{
    if a.len() > 0 && b.len() > 0 && c.len() > 0 && a[0] == b[0] && b[0] == c[0] {
        lemma_le_transitive(a.drop_first(), b.drop_first(), c.drop_first());
    }
}

proof fn lemma_le_connected(a: Seq<char>, b: Seq<char>)
    ensures
        str_le(a, b) || str_le(b, a),
    decreases a.len(),
{
    if a.len() > 0 && b.len() > 0 && a[0] == b[0] {
        lemma_le_connected(a.drop_first(), b.drop_first());
    } else if a.len() > 0 && b.len() > 0 {
        assert((a[0] as int) != (b[0] as int));
    }
}

/// The name order is a total order.
pub proof fn lemma_name_order_total()
    ensures
        total_ordering(name_order()),
{
    let r = name_order();
    assert forall|x: Seq<char>| #[trigger] r(x, x) by {
        lemma_le_reflexive(x);
    }
    assert forall|x: Seq<char>, y: Seq<char>| #[trigger] r(x, y) && #[trigger] r(y, x) implies x == y by {
        lemma_le_antisymmetric(x, y);
    }
    assert forall|x: Seq<char>, y: Seq<char>, z: Seq<char>| #[trigger] r(x, y) && #[trigger] r(y, z) implies r(x, z) by {
        lemma_le_transitive(x, y, z);
    }
    assert forall|x: Seq<char>, y: Seq<char>| #[trigger] r(x, y) || #[trigger] r(y, x) by {
        lemma_le_connected(x, y);
    }
}

/// Whether `a` sorts before or equal to `b`.
pub fn name_le(a: &[char], b: &[char]) -> (r: bool)
    ensures
        r == str_le(a@, b@),
{
    let mut i: usize = 0;
    assert(a@.skip(0) =~= a@);
    assert(b@.skip(0) =~= b@);
    while i < a.len() && i < b.len() && a[i] == b[i]
        invariant
            i <= a@.len(),
            i <= b@.len(),
            str_le(a@, b@) == str_le(a@.skip(i as int), b@.skip(i as int)),
        decreases a@.len() - i,
    {
        let ghost s = a@.skip(i as int);
        let ghost t = b@.skip(i as int);
        assert(s.drop_first() =~= a@.skip(i + 1));
        assert(t.drop_first() =~= b@.skip(i + 1));
        i = i + 1;
    }
    let ghost s = a@.skip(i as int);
    let ghost t = b@.skip(i as int);
    if i == a.len() {
        assert(s.len() == 0);
        true
    } else if i == b.len() {
        false
    } else {
        assert(s[0] == a@[i as int] && t[0] == b@[i as int]);
        a[i] < b[i]
    }
}

/// Sort names into the order of `String`.
pub fn sort_names(names: Vec<String>) -> (r: Vec<String>)
    ensures
        r@.map_values(|s: String| s@) == names@.map_values(|s: String| s@).sort_by(name_order()),
{
    broadcast use vstd::seq_lib::to_multiset_insert, vstd::seq_lib::to_multiset_build;
    let ghost input = names@.map_values(|s: String| s@);
    let ghost leq = name_order();
    proof {
        lemma_name_order_total();
    }
    let mut out: Vec<Vec<char>> = Vec::new();
    let mut i: usize = 0;
    assert(input.take(0) =~= Seq::<Seq<char>>::empty());
    assert(out@.map_values(|v: Vec<char>| v@) =~= Seq::<Seq<char>>::empty());
    while i < names.len()
        invariant
            input == names@.map_values(|s: String| s@),
            leq == name_order(),
            total_ordering(leq),
            i <= names@.len(),
            sorted_by(out@.map_values(|v: Vec<char>| v@), leq),
            out@.map_values(|v: Vec<char>| v@).to_multiset() == input.take(i as int).to_multiset(),
        decreases names@.len() - i,
    {
        let x = chars_of(names[i].as_str());
        let ghost cur = out@.map_values(|v: Vec<char>| v@);
        let mut p: usize = 0;
        while p < out.len() && name_le(out[p].as_slice(), x.as_slice())
            invariant
                cur == out@.map_values(|v: Vec<char>| v@),
                p <= out@.len(),
                forall|k: int| 0 <= k < p ==> str_le(#[trigger] cur[k], x@),
            decreases out@.len() - p,
        {
            p = p + 1;
        }
        proof {
            assert forall|k: int| p <= k < cur.len() implies str_le(x@, #[trigger] cur[k]) by {
                assert(!str_le(cur[p as int], x@));
                lemma_le_connected(cur[p as int], x@);
                if k > p {
                    assert(leq(cur[p as int], cur[k]));
                    lemma_le_transitive(x@, cur[p as int], cur[k]);
                }
            }
        }
        out.insert(p, x);
        proof {
            let next = out@.map_values(|v: Vec<char>| v@);
            assert(next =~= cur.insert(p as int, x@));
            assert forall|a: int, b: int| 0 <= a < b < next.len() implies #[trigger] leq(next[a], next[b]) by {
                if b < p {
                    assert(leq(cur[a], cur[b]));
                } else if b == p {
                    assert(str_le(cur[a], x@));
                } else if a == p {
                    assert(str_le(x@, cur[b - 1]));
                } else if a < p {
                    assert(leq(cur[a], cur[b - 1]));
                } else {
                    assert(leq(cur[a - 1], cur[b - 1]));
                }
            }
            assert(input.take(i + 1) =~= input.take(i as int).push(input[i as int]));
            assert(input[i as int] == names@[i as int]@);
            vstd::seq_lib::to_multiset_insert(cur, p as int, x@);
            vstd::seq_lib::to_multiset_build(input.take(i as int), input[i as int]);
        }
        i = i + 1;
    }
    let ghost sorted = out@.map_values(|v: Vec<char>| v@);
    proof {
        assert(input.take(names@.len() as int) =~= input);
        input.lemma_sort_by_ensures(leq);
        vstd::seq_lib::lemma_sorted_unique(sorted, input.sort_by(leq), leq);
    }
    let mut r: Vec<String> = Vec::new();
    let mut j: usize = 0;
    while j < out.len()
        invariant
            sorted == out@.map_values(|v: Vec<char>| v@),
            j <= out@.len(),
            r@.map_values(|s: String| s@) == sorted.take(j as int),
        decreases out@.len() - j,
    {
        let s = string_of(out[j].as_slice());
        let ghost before = r@;
        r.push(s);
        assert(r@.map_values(|s: String| s@) =~= before.map_values(|s: String| s@).push(s@));
        assert(sorted.take(j + 1) =~= sorted.take(j as int).push(sorted[j as int]));
        j = j + 1;
    }
    assert(sorted.take(out@.len() as int) =~= sorted);
    r
}

/// Whether a name ends in `.patch` or `.diff`.
pub open spec fn has_patch_extension(name: Seq<char>) -> bool {
    has_suffix(name, seq!['.', 'p', 'a', 't', 'c', 'h']) || has_suffix(name, seq!['.', 'd', 'i', 'f', 'f'])
}

/// Whether a name has no extension: no `.` in it.
pub open spec fn has_no_extension(name: Seq<char>) -> bool {
    forall|i: int| 0 <= i < name.len() ==> #[trigger] name[i] != '.'
}

/// A directory entry that may be a patch: not the series file, not hidden,
/// and ending in `.patch` or `.diff` — or, where `extensionless` is asked
/// for, without any extension.
pub open spec fn is_patch_candidate(name: Seq<char>, extensionless: bool) -> bool {
    &&& name != "series"@
    &&& name != "series.conf"@
    &&& !(name.len() > 0 && name[0] == '.')
    &&& (has_patch_extension(name) || (extensionless && has_no_extension(name)))
}

fn no_extension(c: &[char]) -> (r: bool)
    ensures
        r == has_no_extension(c@),
{
    let mut i: usize = 0;
    while i < c.len()
        invariant
            i <= c@.len(),
            forall|k: int| 0 <= k < i ==> #[trigger] c@[k] != '.',
        decreases c@.len() - i,
    {
        if c[i] == '.' {
            return false;
        }
        i = i + 1;
    }
    true
}

pub fn patch_candidate(name: &str, extensionless: bool) -> (r: bool)
    ensures
        r == is_patch_candidate(name@, extensionless),
{
    let c = chars_of(name);
    let series = chars_of("series");
    let conf = chars_of("series.conf");
    if chars_eq(c.as_slice(), series.as_slice()) || chars_eq(c.as_slice(), conf.as_slice()) || (c.len() > 0 && c[0] == '.') {
        return false;
    }
    let patch_ext = vec!['.', 'p', 'a', 't', 'c', 'h'];
    let diff_ext = vec!['.', 'd', 'i', 'f', 'f'];
    if chars_end_with(c.as_slice(), patch_ext.as_slice()) || chars_end_with(c.as_slice(), diff_ext.as_slice()) {
        return true;
    }
    extensionless && no_extension(c.as_slice())
}

/// The names among the first `n` that may be patches and are not listed.
pub open spec fn unlisted_upto(files: Seq<Seq<char>>, listed: Seq<Seq<char>>, extensionless: bool, n: nat) -> Seq<Seq<char>>
    decreases n,
{
    if n == 0 || n > files.len() {
        Seq::empty()
    } else {
        let rest = unlisted_upto(files, listed, extensionless, (n - 1) as nat);
        let f = files[n - 1];
        if is_patch_candidate(f, extensionless) && !listed.contains(f) {
            rest.push(f)
        } else {
            rest
        }
    }
}

/// The names of a directory that may be patches and are not listed, in
/// the order of `String`.
pub open spec fn sorted_unlisted(files: Seq<Seq<char>>, listed: Seq<Seq<char>>, extensionless: bool) -> Seq<Seq<char>> {
    unlisted_upto(files, listed, extensionless, files.len()).sort_by(name_order())
}

/// The names of a directory that may be patches and are not listed, sorted.
pub fn unlisted_sorted(files: &Vec<String>, listed: &Vec<String>, extensionless: bool) -> (r: Vec<String>)
    ensures
        r@.map_values(|s: String| s@) == sorted_unlisted(
            files@.map_values(|s: String| s@),
            listed@.map_values(|s: String| s@),
            extensionless,
        ),
{
    let ghost fv = files@.map_values(|s: String| s@);
    let ghost lv = listed@.map_values(|s: String| s@);
    let mut keep: Vec<String> = Vec::new();
    let mut i: usize = 0;
    while i < files.len()
        invariant
            fv == files@.map_values(|s: String| s@),
            lv == listed@.map_values(|s: String| s@),
            i <= files@.len(),
            keep@.map_values(|s: String| s@) == unlisted_upto(fv, lv, extensionless, i as nat),
        decreases files@.len() - i,
    {
        let f = files[i].as_str();
        assert(fv[i as int] == f@);
        if patch_candidate(f, extensionless) && !crate::quilt::names_contain(listed, f) {
            let ghost before = keep@;
            let s = string_of(chars_of(f).as_slice());
            keep.push(s);
            assert(keep@.map_values(|s: String| s@) =~= before.map_values(|s: String| s@).push(f@));
        }
        i = i + 1;
    }
    sort_names(keep)
}

proof fn lemma_unlisted_members(files: Seq<Seq<char>>, listed: Seq<Seq<char>>, extensionless: bool, n: nat)
    ensures
        forall|k: int|
            0 <= k < unlisted_upto(files, listed, extensionless, n).len() ==> is_patch_candidate(#[trigger] unlisted_upto(files, listed, extensionless, n)[k], extensionless)
                && !listed.contains(unlisted_upto(files, listed, extensionless, n)[k]),
    decreases n,
{
    if n > 0 && n <= files.len() {
        lemma_unlisted_members(files, listed, extensionless, (n - 1) as nat);
        let rest = unlisted_upto(files, listed, extensionless, (n - 1) as nat);
        let cur = unlisted_upto(files, listed, extensionless, n);
        assert forall|k: int| 0 <= k < cur.len() implies is_patch_candidate(#[trigger] cur[k], extensionless) && !listed.contains(cur[k]) by {
            if k < rest.len() {
                assert(cur[k] == rest[k]);
            }
        }
    }
}

/// The unlisted names come out in the order of `String`, each of them a
/// name of the directory that may be a patch and is not listed, and every
/// such name of the directory among them (as often as it occurs there).
pub proof fn lemma_sorted_unlisted(files: Seq<Seq<char>>, listed: Seq<Seq<char>>, extensionless: bool)
    ensures
        sorted_by(sorted_unlisted(files, listed, extensionless), name_order()),
        sorted_unlisted(files, listed, extensionless).to_multiset() == unlisted_upto(files, listed, extensionless, files.len()).to_multiset(),
        forall|k: int|
            0 <= k < sorted_unlisted(files, listed, extensionless).len() ==> is_patch_candidate(#[trigger] sorted_unlisted(files, listed, extensionless)[k], extensionless)
                && !listed.contains(sorted_unlisted(files, listed, extensionless)[k]),
{
    let u = unlisted_upto(files, listed, extensionless, files.len());
    lemma_name_order_total();
    u.lemma_sort_by_ensures(name_order());
    lemma_unlisted_members(files, listed, extensionless, files.len());
    let r = sorted_unlisted(files, listed, extensionless);
    assert forall|k: int| 0 <= k < r.len() implies is_patch_candidate(#[trigger] r[k], extensionless) && !listed.contains(r[k]) by {
        assert(r.contains(r[k]));
        assert(u.contains(r[k]));
        let j = choose|j: int| 0 <= j < u.len() && u[j] == r[k];
        assert(is_patch_candidate(u[j], extensionless) && !listed.contains(u[j]));
    }
}

proof fn lemma_unlisted_upto_has(files: Seq<Seq<char>>, listed: Seq<Seq<char>>, extensionless: bool, n: nat, k: int)
    requires
        0 <= k < n <= files.len(),
        is_patch_candidate(files[k], extensionless),
        !listed.contains(files[k]),
    ensures
        unlisted_upto(files, listed, extensionless, n).contains(files[k]),
    decreases n,
{
    let rest = unlisted_upto(files, listed, extensionless, (n - 1) as nat);
    if k < n - 1 {
        lemma_unlisted_upto_has(files, listed, extensionless, (n - 1) as nat, k);
        let j = choose|j: int| 0 <= j < rest.len() && rest[j] == files[k];
        if is_patch_candidate(files[n - 1], extensionless) && !listed.contains(files[n - 1]) {
            assert(rest.push(files[n - 1])[j] == files[k]);
        }
    } else {
        assert(rest.push(files[k])[rest.len() as int] == files[k]);
    }
}

/// Every file of the directory whose name ends in `.patch` or `.diff`, does
/// not begin with `.` and is not listed is offered.
pub proof fn lemma_unlisted_patch_files_offered(files: Seq<Seq<char>>, listed: Seq<Seq<char>>, extensionless: bool, k: int)
    requires
        0 <= k < files.len(),
        files[k].len() > 0 && files[k][0] != '.',
        (files[k].len() >= 6 && files[k].subrange(files[k].len() - 6, files[k].len() as int) == ".patch"@) || (files[k].len() >= 5
            && files[k].subrange(files[k].len() - 5, files[k].len() as int) == ".diff"@),
        forall|j: int| 0 <= j < listed.len() ==> listed[j] != files[k],
    ensures
        sorted_unlisted(files, listed, extensionless).contains(files[k]),
{
    let f = files[k];
    reveal_strlit(".patch");
    reveal_strlit(".diff");
    reveal_strlit("series");
    reveal_strlit("series.conf");
    if f.len() >= 6 && f.subrange(f.len() - 6, f.len() as int) == ".patch"@ {
        assert(f.skip(f.len() - 6) =~= seq!['.', 'p', 'a', 't', 'c', 'h']);
    } else {
        assert(f.skip(f.len() - 5) =~= seq!['.', 'd', 'i', 'f', 'f']);
    }
    if f == "series"@ {
        assert(f[f.len() - 1] == 's');
    }
    if f == "series.conf"@ {
        assert(f[f.len() - 1] == 'f');
        assert(f[f.len() - 2] == 'n');
    }
    assert(!listed.contains(f));
    lemma_unlisted_upto_has(files, listed, extensionless, files.len(), k);
    lemma_sorted_unlisted(files, listed, extensionless);
    let u = unlisted_upto(files, listed, extensionless, files.len());
    u.to_multiset_ensures();
    sorted_unlisted(files, listed, extensionless).to_multiset_ensures();
    assert(u.to_multiset().count(f) > 0);
    assert(sorted_unlisted(files, listed, extensionless).to_multiset().count(f) > 0);
}

/// The names kept are names of the directory.
pub proof fn lemma_unlisted_from_files(files: Seq<Seq<char>>, listed: Seq<Seq<char>>, extensionless: bool)
    ensures
        forall|x: Seq<char>| unlisted_upto(files, listed, extensionless, files.len()).contains(x) ==> #[trigger] files.contains(x),
{
    lemma_unlisted_upto_from_files(files, listed, extensionless, files.len());
}

proof fn lemma_unlisted_upto_from_files(files: Seq<Seq<char>>, listed: Seq<Seq<char>>, extensionless: bool, n: nat)
    ensures
        forall|x: Seq<char>| unlisted_upto(files, listed, extensionless, n).contains(x) ==> #[trigger] files.contains(x),
    decreases n,
{
    if n > 0 && n <= files.len() {
        lemma_unlisted_upto_from_files(files, listed, extensionless, (n - 1) as nat);
        let rest = unlisted_upto(files, listed, extensionless, (n - 1) as nat);
        let cur = unlisted_upto(files, listed, extensionless, n);
        assert forall|x: Seq<char>| cur.contains(x) implies #[trigger] files.contains(x) by {
            let j = choose|j: int| 0 <= j < cur.len() && cur[j] == x;
            if j < rest.len() {
                assert(cur[j] == rest[j]);
                assert(rest.contains(x));
            } else {
                assert(x == files[n - 1]);
            }
        }
    }
}

} // verus!
