//! The cross-file references of patch and series files, in the form of a
//! SCIP index: a symbol for each referenced file and an occurrence of it
//! over each path that names it.
use vstd::prelude::*;
use vstd::string::{StringExecFns, StringSliceAdditionalSpecFns};
use vstd::utf8::encode_utf8;
use crate::code_actions::positions;
use crate::detection::{detect_file_kind, spec_detect_file_kind, FileKind};
use crate::document_links::{dev_null, is_dev_null};
use crate::lsp::{filter_map, flat_map, lemma_filter_map_step, lemma_flat_map_step, lemma_take_full};
use crate::paths::{parent_dir, parent_of};
use crate::series::{name_token, patch_entries, SeriesDocument, PATCH_NAME};
use crate::uri::{file_path_uri, spec_file_path_uri};
use crate::patch::{new_file, old_file, patch_files, path_token, PatchDocument, NEW_FILE, OLD_FILE, PATH};
use crate::paths::{join, join_path};
use crate::position::{fits, offset_to_position, spec_offset_to_position, Position, TextRange};
use crate::syntax::ElementView;
use crate::text::{chars_eq, chars_of, chars_start_with, has_prefix, push_chars, push_str, slice_chars, string_of, str_eq};

use crate::strip_prefix::{spec_strip_prefix, strip_prefix};

verus! {

/// `path` without a leading `a/` or `b/`.
pub open spec fn spec_strip_ab_prefix(path: Seq<char>) -> Seq<char> {
    if has_prefix(path, seq!['a', '/']) || has_prefix(path, seq!['b', '/']) {
        path.skip(2)
    } else {
        path
    }
}

/// Strip a leading `a/` or `b/` prefix from a patch path.
pub fn strip_ab_prefix(path: &str) -> (r: String)
    ensures
        r@ == spec_strip_ab_prefix(path@),
{
    let p = chars_of(path);
    let a = vec!['a', '/'];
    let b = vec!['b', '/'];
    if chars_start_with(p.as_slice(), a.as_slice()) || chars_start_with(p.as_slice(), b.as_slice()) {
        let rest = slice_chars(p.as_slice(), 2, p.len());
        assert(rest@ =~= p@.skip(2));
        string_of(rest.as_slice())
    } else {
        string_of(p.as_slice())
    }
}

/// A character that may stand unescaped in a SCIP descriptor.
pub open spec fn is_simple_char(c: char) -> bool {
    ('a' <= c <= 'z') || ('A' <= c <= 'Z') || ('0' <= c <= '9') || c == '_' || c == '+' || c
        == '-' || c == '$'
}

fn simple_char(c: char) -> (r: bool)
    ensures
        r == is_simple_char(c),
{
    ('a' <= c && c <= 'z') || ('A' <= c && c <= 'Z') || ('0' <= c && c <= '9') || c == '_' || c
        == '+' || c == '-' || c == '$'
}

/// Every backtick doubled.
pub open spec fn double_backticks(s: Seq<char>) -> Seq<char>
    decreases s.len(),
{
    if s.len() == 0 {
        Seq::empty()
    } else if s.last() == '`' {
        double_backticks(s.drop_last()) + seq!['`', '`']
    } else {
        double_backticks(s.drop_last()).push(s.last())
    }
}

/// A descriptor name as SCIP writes it: as it is when made of simple
/// characters, otherwise in backticks with its backticks doubled.
pub open spec fn spec_escape_descriptor(name: Seq<char>) -> Seq<char> {
    if forall|k: int| 0 <= k < name.len() ==> is_simple_char(#[trigger] name[k]) {
        name
    } else {
        seq!['`'] + double_backticks(name) + seq!['`']
    }
}

proof fn lemma_double_backticks_injective(a: Seq<char>, b: Seq<char>)
    requires
        double_backticks(a) == double_backticks(b),
    ensures
        a == b,
    decreases a.len() + b.len(),
{
    let da = double_backticks(a);
    if a.len() == 0 && b.len() == 0 {
        assert(a =~= b);
    } else if a.len() == 0 || b.len() == 0 {
        let db = double_backticks(b);
        if a.len() > 0 {
            assert(db.len() == 0);
            if a.last() == '`' {
                assert(da == double_backticks(a.drop_last()) + seq!['`', '`']);
            } else {
                assert(da == double_backticks(a.drop_last()).push(a.last()));
            }
            assert(false);
        } else {
            assert(da.len() == 0);
            if b.last() == '`' {
                assert(db == double_backticks(b.drop_last()) + seq!['`', '`']);
            } else {
                assert(db == double_backticks(b.drop_last()).push(b.last()));
            }
            assert(false);
        }
    } else {
        let pa = double_backticks(a.drop_last());
        let pb = double_backticks(b.drop_last());
        if a.last() == '`' {
            assert(da == pa + seq!['`', '`']);
            if b.last() != '`' {
                assert(da == pb.push(b.last()));
                assert(da.last() == b.last());
                assert(da.last() == '`');
                assert(false);
            } else {
                assert(da == pb + seq!['`', '`']);
                assert(pa =~= da.subrange(0, da.len() - 2));
                assert(pb =~= da.subrange(0, da.len() - 2));
                lemma_double_backticks_injective(a.drop_last(), b.drop_last());
                assert(a =~= a.drop_last().push(a.last()));
                assert(b =~= b.drop_last().push(b.last()));
            }
        } else {
            assert(da == pa.push(a.last()));
            if b.last() == '`' {
                assert(da == pb + seq!['`', '`']);
                assert(da.last() == '`');
                assert(da.last() == a.last());
                assert(false);
            } else {
                assert(da == pb.push(b.last()));
                assert(pa =~= da.drop_last());
                assert(pb =~= da.drop_last());
                assert(da.last() == a.last());
                assert(da.last() == b.last());
                lemma_double_backticks_injective(a.drop_last(), b.drop_last());
                assert(a =~= a.drop_last().push(a.last()));
                assert(b =~= b.drop_last().push(b.last()));
            }
        }
        assert(a.drop_last() == b.drop_last() && a.last() == b.last());
        assert(a =~= a.drop_last().push(a.last()));
        assert(b =~= b.drop_last().push(b.last()));
    }
}

/// Distinct names give distinct descriptors.
pub proof fn lemma_escape_descriptor_injective(a: Seq<char>, b: Seq<char>)
    requires
        spec_escape_descriptor(a) == spec_escape_descriptor(b),
    ensures
        a == b,
{
    let sa = forall|k: int| 0 <= k < a.len() ==> is_simple_char(#[trigger] a[k]);
    let sb = forall|k: int| 0 <= k < b.len() ==> is_simple_char(#[trigger] b[k]);
    let ea = seq!['`'] + double_backticks(a) + seq!['`'];
    let eb = seq!['`'] + double_backticks(b) + seq!['`'];
    if sa && sb {
    } else if sa && !sb {
        assert(a == eb);
        assert(eb[0] == '`');
        assert(is_simple_char(a[0]));
    } else if !sa && sb {
        assert(b == ea);
        assert(ea[0] == '`');
        assert(is_simple_char(b[0]));
    } else {
        assert(ea == eb);
        assert(double_backticks(a) =~= ea.subrange(1, ea.len() - 1));
        assert(double_backticks(b) =~= eb.subrange(1, eb.len() - 1));
        lemma_double_backticks_injective(a, b);
    }
}

/// Escape a descriptor name for inclusion in a SCIP symbol string.
pub fn escape_descriptor(name: &str) -> (r: String)
    ensures
        r@ == spec_escape_descriptor(name@),
{
    let n = chars_of(name);
    let mut simple = true;
    let mut i: usize = 0;
    while i < n.len()
        invariant
            i <= n@.len(),
            simple == (forall|k: int| 0 <= k < i ==> is_simple_char(#[trigger] n@[k])),
        decreases n@.len() - i,
    {
        simple = simple && simple_char(n[i]);
        i = i + 1;
    }
    if simple {
        return string_of(n.as_slice());
    }
    let mut out = String::new();
    out.push('`');
    let ghost start = out@;
    let mut j: usize = 0;
    while j < n.len()
        invariant
            j <= n@.len(),
            out@ == start + double_backticks(n@.take(j as int)),
        decreases n@.len() - j,
    {
        assert(n@.take(j + 1).drop_last() =~= n@.take(j as int));
        if n[j] == '`' {
            out.push('`');
            out.push('`');
        } else {
            out.push(n[j]);
        }
        assert(out@ =~= start + double_backticks(n@.take(j + 1)));
        j = j + 1;
    }
    assert(n@.take(n@.len() as int) =~= n@);
    out.push('`');
    assert(out@ =~= spec_escape_descriptor(name@));
    out
}

/// `path` relative to `root` as `Path::strip_prefix` gives it, when the
/// components of `root` begin those of `path`; `path` itself otherwise.
pub open spec fn spec_relative_path(root: Seq<char>, path: Seq<char>) -> Seq<char> {
    match spec_strip_prefix(root, path) {
        Some(rest) => rest,
        None => path,
    }
}

/// Compute a path relative to `root`, falling back to the path itself when
/// it is not under `root`.
pub fn relative_path(root: &str, path: &str) -> (r: String)
    ensures
        r@ == spec_relative_path(root@, path@),
{
    match strip_prefix(root, path) {
        Some(rest) => rest,
        None => String::from_str(path),
    }
}

/// The non-empty pieces between slashes, each escaped and followed by `/`.
pub open spec fn descriptors(segs: Seq<Seq<char>>, n: nat) -> Seq<char>
    decreases n,
{
    if n == 0 || n > segs.len() {
        Seq::empty()
    } else if segs[n - 1].len() == 0 {
        descriptors(segs, (n - 1) as nat)
    } else {
        descriptors(segs, (n - 1) as nat) + spec_escape_descriptor(segs[n - 1]) + seq!['/']
    }
}

/// The symbol of a referenced file: its project-relative path with one
/// namespace descriptor per path segment, e.g. `scip-diff . . . src/`foo.rs`/`.
pub open spec fn spec_file_symbol(project_root: Seq<char>, target: Seq<char>) -> Seq<char> {
    let segs = crate::paths::split_on(spec_relative_path(project_root, target), '/');
    "scip-diff . . . "@ + descriptors(segs, segs.len())
}

/// Mint a SCIP symbol string for a referenced file.
pub fn file_symbol(project_root: &str, target: &str) -> (r: String)
    ensures
        r@ == spec_file_symbol(project_root@, target@),
{
    let rel = relative_path(project_root, target);
    let segs = crate::paths::split_chars(chars_of(rel.as_str()).as_slice(), '/');
    let ghost ss = crate::paths::split_on(rel@, '/');
    let mut out = String::from_str("scip-diff . . . ");
    let ghost start = out@;
    let mut i: usize = 0;
    while i < segs.len()
        invariant
            i <= segs@.len(),
            segs@.len() == ss.len(),
            forall|k: int| 0 <= k < segs@.len() ==> #[trigger] segs@[k]@ == ss[k],
            out@ == start + descriptors(ss, i as nat),
        decreases segs@.len() - i,
    {
        let seg = &segs[i];
        assert(seg@ == ss[i as int]);
        if seg.len() > 0 {
            let s = string_of(seg.as_slice());
            let e = escape_descriptor(s.as_str());
            push_str(&mut out, e.as_str());
            out.push('/');
        }
        i = i + 1;
        assert(out@ =~= start + descriptors(ss, i as nat));
    }
    out
}

/// A symbol and the name to show for it.
pub struct SymbolInfo {
    pub symbol: String,
    pub display_name: String,
}

/// Append a [`SymbolInfo`] for `symbol` unless `seen` holds it already.
pub fn push_symbol(symbol: &str, display_name: &str, seen: &mut Vec<String>, symbols: &mut Vec<SymbolInfo>)
    ensures
        (exists|k: int| 0 <= k < old(seen)@.len() && old(seen)@[k]@ == symbol@) ==> {
            &&& final(seen)@ == old(seen)@
            &&& final(symbols)@ == old(symbols)@
        },
        !(exists|k: int| 0 <= k < old(seen)@.len() && old(seen)@[k]@ == symbol@) ==> {
            &&& final(seen)@.len() == old(seen)@.len() + 1
            &&& final(seen)@.take(old(seen)@.len() as int) == old(seen)@
            &&& final(seen)@.last()@ == symbol@
            &&& final(symbols)@.len() == old(symbols)@.len() + 1
            &&& final(symbols)@.take(old(symbols)@.len() as int) == old(symbols)@
            &&& final(symbols)@.last().symbol@ == symbol@
            &&& final(symbols)@.last().display_name@ == display_name@
        },
{
    let mut i: usize = 0;
    while i < seen.len()
        invariant
            i <= seen@.len(),
            seen@ == old(seen)@,
            symbols@ == old(symbols)@,
            forall|k: int| 0 <= k < i ==> seen@[k]@ != symbol@,
        decreases seen@.len() - i,
    {
        if str_eq(seen[i].as_str(), symbol) {
            return;
        }
        i = i + 1;
    }
    let ghost s0 = seen@;
    let ghost y0 = symbols@;
    seen.push(String::from_str(symbol));
    symbols.push(SymbolInfo { symbol: String::from_str(symbol), display_name: String::from_str(display_name) });
    assert(seen@.take(s0.len() as int) =~= s0);
    assert(symbols@.take(y0.len() as int) =~= y0);
}

/// The target of a patch path under the project root, when that is a file.
pub fn resolve_against_root(project_root: &str, clean: &str, is_file: bool) -> (r: Option<String>)
    ensures
        r matches Some(t) ==> is_file && t@ == join_path(project_root@, clean@),
        r is None ==> !is_file,
{
    let t = join(chars_of(project_root).as_slice(), chars_of(clean).as_slice());
    if is_file {
        Some(string_of(t.as_slice()))
    } else {
        None
    }
}

/// A SCIP range: `[line, start, end]` on one line, otherwise
/// `[start line, start, end line, end]`, in UTF-16 units.
pub open spec fn spec_scip_range(bytes: Seq<u8>, start: u32, end: u32) -> Seq<i32> {
    let s = spec_offset_to_position(bytes, start as int);
    let e = spec_offset_to_position(bytes, end as int);
    if s.line == e.line {
        seq![s.line as i32, s.character as i32, e.character as i32]
    } else {
        seq![s.line as i32, s.character as i32, e.line as i32, e.character as i32]
    }
}

/// Convert a byte range to a SCIP range.
pub fn scip_range(text: &str, range: TextRange) -> (r: Vec<i32>)
    requires
        fits(text.spec_bytes()),
    ensures
        r@ == spec_scip_range(text.spec_bytes(), range.start, range.end),
{
    let s = offset_to_position(text, range.start);
    let e = offset_to_position(text, range.end);
    let mut v = Vec::new();
    v.push(s.line as i32);
    v.push(s.character as i32);
    if s.line == e.line {
        v.push(e.character as i32);
    } else {
        v.push(e.line as i32);
        v.push(e.character as i32);
    }
    assert(v@ =~= spec_scip_range(text.spec_bytes(), range.start, range.end));
    v
}

/// An occurrence of a symbol over a range (read access).
pub struct Occurrence {
    pub range: Vec<i32>,
    pub symbol: String,
}

/// Append a reference occurrence over `range` pointing at `symbol`.
pub fn push_reference(text: &str, range: TextRange, symbol: &str, occurrences: &mut Vec<Occurrence>)
    requires
        fits(text.spec_bytes()),
    ensures
        final(occurrences)@.len() == old(occurrences)@.len() + 1,
        final(occurrences)@.take(old(occurrences)@.len() as int) == old(occurrences)@,
        final(occurrences)@.last().range@ == spec_scip_range(text.spec_bytes(), range.start, range.end),
        final(occurrences)@.last().symbol@ == symbol@,
{
    let ghost o0 = occurrences@;
    occurrences.push(Occurrence { range: scip_range(text, range), symbol: String::from_str(symbol) });
    assert(occurrences@.take(o0.len() as int) =~= o0);
}

/// A reference as the index records it: the range of the name, the symbol
/// of the file it names, and the name to show for that symbol.
pub struct RefView {
    pub range: Seq<i32>,
    pub symbol: Seq<char>,
    pub display: Seq<char>,
}

pub open spec fn occurrence_view(o: Occurrence) -> (Seq<i32>, Seq<char>) {
    (o.range@, o.symbol@)
}

pub open spec fn symbol_view(s: SymbolInfo) -> (Seq<char>, Seq<char>) {
    (s.symbol@, s.display_name@)
}

pub open spec fn ref_occurrence(r: RefView) -> (Seq<i32>, Seq<char>) {
    (r.range, r.symbol)
}

/// Whether a symbol is among the recorded ones.
pub open spec fn has_symbol(ss: Seq<(Seq<char>, Seq<char>)>, symbol: Seq<char>) -> bool {
    exists|k: int| 0 <= k < ss.len() && ss[k].0 == symbol
}

/// The symbols of the first `n` references, each once, with the name of
/// its first reference.
pub open spec fn distinct_symbols(refs: Seq<RefView>, n: nat) -> Seq<(Seq<char>, Seq<char>)>
    decreases n,
{
    if n == 0 || n > refs.len() {
        Seq::empty()
    } else {
        let d = distinct_symbols(refs, (n - 1) as nat);
        if has_symbol(d, refs[n - 1].symbol) {
            d
        } else {
            d.push((refs[n - 1].symbol, refs[n - 1].display))
        }
    }
}

proof fn lemma_distinct_prefix(a: Seq<RefView>, b: Seq<RefView>, n: nat)
    requires
        n <= a.len(),
        n <= b.len(),
        forall|k: int| 0 <= k < n ==> a[k] == b[k],
    ensures
        distinct_symbols(a, n) == distinct_symbols(b, n),
    decreases n,
{
    if n > 0 {
        lemma_distinct_prefix(a, b, (n - 1) as nat);
    }
}

/// The symbols recorded after position `base` are those `seen` holds.
pub open spec fn tracked_symbols(seen: Seq<String>, symbols: Seq<SymbolInfo>, base: nat) -> bool {
    &&& symbols.len() == base + seen.len()
    &&& forall|k: int| 0 <= k < seen.len() ==> #[trigger] seen[k]@ == symbols[base + k].symbol@
}

/// Record one reference: its occurrence, and its symbol unless recorded.
fn record_reference(
    text: &str,
    start: u32,
    end: u32,
    symbol: &str,
    display: &str,
    seen: &mut Vec<String>,
    occurrences: &mut Vec<Occurrence>,
    symbols: &mut Vec<SymbolInfo>,
    Ghost(base): Ghost<nat>,
)
    requires
        fits(text.spec_bytes()),
        tracked_symbols(old(seen)@, old(symbols)@, base),
    ensures
        tracked_symbols(final(seen)@, final(symbols)@, base),
        final(occurrences)@.map_values(|o: Occurrence| occurrence_view(o)) == old(occurrences)@.map_values(
            |o: Occurrence| occurrence_view(o),
        ).push((spec_scip_range(text.spec_bytes(), start, end), symbol@)),
        final(symbols)@.take(base as int) == old(symbols)@.take(base as int),
        final(symbols)@.skip(base as int).map_values(|s: SymbolInfo| symbol_view(s)) == if has_symbol(
            old(symbols)@.skip(base as int).map_values(|s: SymbolInfo| symbol_view(s)),
            symbol@,
        ) {
            old(symbols)@.skip(base as int).map_values(|s: SymbolInfo| symbol_view(s))
        } else {
            old(symbols)@.skip(base as int).map_values(|s: SymbolInfo| symbol_view(s)).push((symbol@, display@))
        },
{
    let ghost o0 = occurrences@;
    let ghost s0 = symbols@;
    let ghost seen0 = seen@;
    let ghost d0 = s0.skip(base as int).map_values(|s: SymbolInfo| symbol_view(s));
    push_reference(text, TextRange { start, end }, symbol, occurrences);
    assert(occurrences@ =~= o0.push(occurrences@.last()));
    assert(occurrences@.map_values(|o: Occurrence| occurrence_view(o)) =~= o0.map_values(|o: Occurrence| occurrence_view(o)).push(
        (spec_scip_range(text.spec_bytes(), start, end), symbol@),
    ));
    proof {
        assert forall|k: int| 0 <= k < seen0.len() implies (seen0[k]@ == symbol@ <==> d0[k].0 == symbol@) by {
            assert(seen0[k]@ == s0[base + k].symbol@);
            assert(d0[k] == symbol_view(s0[base + k]));
        }
        if has_symbol(d0, symbol@) {
            let k = choose|k: int| 0 <= k < d0.len() && d0[k].0 == symbol@;
            assert(seen0[k]@ == symbol@);
        }
    }
    push_symbol(symbol, display, seen, symbols);
    proof {
        if has_symbol(d0, symbol@) {
            assert(symbols@ == s0);
        } else {
            assert(!(exists|k: int| 0 <= k < seen0.len() && seen0[k]@ == symbol@));
            assert(symbols@ =~= s0.push(symbols@.last()));
            assert(seen@ =~= seen0.push(seen@.last()));
            assert(symbols@.skip(base as int) =~= s0.skip(base as int).push(symbols@.last()));
            assert(symbols@.skip(base as int).map_values(|s: SymbolInfo| symbol_view(s)) =~= d0.push((symbol@, display@)));
            assert(symbols@.take(base as int) =~= s0.take(base as int));
            assert forall|k: int| 0 <= k < seen@.len() implies #[trigger] seen@[k]@ == symbols@[base + k].symbol@ by {
                if k < seen0.len() {
                    assert(seen@[k] == seen0[k]);
                    assert(symbols@[base + k] == s0[base + k]);
                }
            }
        }
    }
}

/// The path tokens of a header that name a file (not `/dev/null`).
pub open spec fn header_reference(t: Seq<ElementView>, header: Option<nat>) -> Seq<nat> {
    match header {
        Some(h) => match path_token(t, h) {
            Some(p) => if t[p as int].text != dev_null() {
                seq![p]
            } else {
                Seq::empty()
            },
            None => Seq::empty(),
        },
        None => Seq::empty(),
    }
}

/// The path tokens of a patch's `---` and `+++` headers, file by file,
/// that may reference a file.
pub open spec fn patch_reference_tokens(t: Seq<ElementView>) -> Seq<nat> {
    flat_map(patch_files(t), |f: nat| header_reference(t, old_file(t, f)) + header_reference(t, new_file(t, f)))
}

/// Where a path token points under the project root.
pub open spec fn reference_target(t: Seq<ElementView>, project_root: Seq<char>, p: nat) -> Seq<char> {
    join_path(project_root, spec_strip_ab_prefix(t[p as int].text))
}

/// The references of a patch: each candidate path token whose target is a
/// file.
pub open spec fn patch_refs(t: Seq<ElementView>, bytes: Seq<u8>, project_root: Seq<char>, is_file: Seq<bool>) -> Seq<RefView> {
    let cands = patch_reference_tokens(t);
    filter_map(
        positions(cands.len()),
        |k: nat| if is_file[k as int] {
            let p = cands[k as int];
            Some(
                RefView {
                    range: spec_scip_range(bytes, t[p as int].start, t[p as int].end),
                    symbol: spec_file_symbol(project_root, reference_target(t, project_root, p)),
                    display: spec_strip_ab_prefix(t[p as int].text),
                },
            )
        } else {
            None
        },
    )
}

fn push_header_reference(patch: &PatchDocument, header: Option<usize>, out: &mut Vec<usize>)
    requires
        header matches Some(h) ==> h < patch.tree@.len(),
    ensures
        final(out)@.map_values(|c: usize| c as nat) == old(out)@.map_values(|c: usize| c as nat) + header_reference(
            patch.tree@,
            crate::patch::opt_nat(header),
        ),
        forall|k: int| 0 <= k < old(out)@.len() ==> final(out)@[k] == old(out)@[k],
        forall|k: int| old(out)@.len() <= k < final(out)@.len() ==> #[trigger] final(out)@[k] < patch.tree@.len(),
{
    let ghost before = out@;
    if let Some(h) = header {
        if let Some(p) = patch.tree.first_child_of_kind(h, PATH) {
            if !is_dev_null(patch.tree.text_of(p).as_str()) {
                out.push(p);
            }
        }
    }
    assert(out@.map_values(|c: usize| c as nat) =~= before.map_values(|c: usize| c as nat) + header_reference(
        patch.tree@,
        crate::patch::opt_nat(header),
    ));
}

/// The path tokens of a patch that may reference a file.
pub fn reference_tokens(patch: &PatchDocument) -> (r: Vec<usize>)
    ensures
        r@.map_values(|c: usize| c as nat) == patch_reference_tokens(patch.tree@),
        forall|k: int| 0 <= k < r@.len() ==> #[trigger] r@[k] < patch.tree@.len(),
{
    let ghost t = patch.tree@;
    let ghost ff = |f: nat| header_reference(t, old_file(t, f)) + header_reference(t, new_file(t, f));
    let files = patch.patch_files();
    let ghost pf = patch_files(t);
    let mut out: Vec<usize> = Vec::new();
    let mut i: usize = 0;
    while i < files.len()
        invariant
            t == patch.tree@,
            ff == (|f: nat| header_reference(t, old_file(t, f)) + header_reference(t, new_file(t, f))),
            pf == patch_files(t),
            files@.map_values(|c: usize| c as nat) == pf,
            forall|k: int| 0 <= k < files@.len() ==> #[trigger] files@[k] < t.len(),
            i <= files@.len(),
            out@.map_values(|c: usize| c as nat) == flat_map(pf.take(i as int), ff),
            forall|k: int| 0 <= k < out@.len() ==> #[trigger] out@[k] < t.len(),
        decreases files@.len() - i,
    {
        proof {
            lemma_flat_map_step(pf, ff, i as int);
        }
        let f = files[i];
        assert(pf[i as int] == f as nat);
        push_header_reference(patch, patch.tree.first_child_of_kind(f, OLD_FILE), &mut out);
        push_header_reference(patch, patch.tree.first_child_of_kind(f, NEW_FILE), &mut out);
        i = i + 1;
    }
    proof {
        lemma_take_full(pf);
    }
    out
}

/// The paths that the references of a patch would point to under the
/// project root, in order: the caller reports which of them are files.
pub fn patch_reference_targets(patch: &PatchDocument, project_root: &str) -> (r: Vec<String>)
    ensures
        r@.map_values(|s: String| s@) == patch_reference_tokens(patch.tree@).map_values(
            |p: nat| reference_target(patch.tree@, project_root@, p),
        ),
{
    let toks = reference_tokens(patch);
    let ghost tv = toks@.map_values(|c: usize| c as nat);
    let mut out: Vec<String> = Vec::new();
    let mut i: usize = 0;
    while i < toks.len()
        invariant
            tv == toks@.map_values(|c: usize| c as nat),
            forall|k: int| 0 <= k < toks@.len() ==> #[trigger] toks@[k] < patch.tree@.len(),
            i <= toks@.len(),
            out@.map_values(|s: String| s@) == tv.take(i as int).map_values(|p: nat| reference_target(patch.tree@, project_root@, p)),
        decreases toks@.len() - i,
    {
        let clean = strip_ab_prefix(patch.tree.text_of(toks[i]).as_str());
        let target = string_of(join(chars_of(project_root).as_slice(), chars_of(clean.as_str()).as_slice()).as_slice());
        let ghost before = out@;
        out.push(target);
        assert(tv.take(i + 1) =~= tv.take(i as int).push(tv[i as int]));
        assert(out@.map_values(|s: String| s@) =~= before.map_values(|s: String| s@).push(target@));
        i = i + 1;
    }
    assert(tv.take(toks@.len() as int) =~= tv);
    out
}

/// Collect references from a patch file's `---`/`+++` headers, given for
/// each target of [`patch_reference_targets`] whether it is a file.
pub fn collect_patch_references(
    patch: &PatchDocument,
    text: &str,
    project_root: &str,
    is_file: &Vec<bool>,
    occurrences: &mut Vec<Occurrence>,
    symbols: &mut Vec<SymbolInfo>,
)
    requires
        fits(text.spec_bytes()),
        is_file@.len() == patch_reference_tokens(patch.tree@).len(),
    ensures
        final(occurrences)@.map_values(|o: Occurrence| occurrence_view(o)) == old(occurrences)@.map_values(
            |o: Occurrence| occurrence_view(o),
        ) + patch_refs(patch.tree@, text.spec_bytes(), project_root@, is_file@).map_values(|r: RefView| ref_occurrence(r)),
        final(symbols)@.map_values(|s: SymbolInfo| symbol_view(s)) == old(symbols)@.map_values(
            |s: SymbolInfo| symbol_view(s),
        ) + distinct_symbols(
            patch_refs(patch.tree@, text.spec_bytes(), project_root@, is_file@),
            patch_refs(patch.tree@, text.spec_bytes(), project_root@, is_file@).len(),
        ),
{
    let ghost t = patch.tree@;
    let ghost bytes = text.spec_bytes();
    let ghost root = project_root@;
    let toks = reference_tokens(patch);
    let ghost cands = patch_reference_tokens(t);
    let ghost o0 = occurrences@.map_values(|o: Occurrence| occurrence_view(o));
    let ghost s0 = symbols@;
    let ghost base = symbols@.len();
    let ghost g = |k: nat| if is_file@[k as int] {
        let p = cands[k as int];
        Some(
            RefView {
                range: spec_scip_range(bytes, t[p as int].start, t[p as int].end),
                symbol: spec_file_symbol(root, reference_target(t, root, p)),
                display: spec_strip_ab_prefix(t[p as int].text),
            },
        )
    } else {
        None
    };
    let mut seen: Vec<String> = Vec::new();
    assert(symbols@.skip(base as int).map_values(|s: SymbolInfo| symbol_view(s)) =~= Seq::<(Seq<char>, Seq<char>)>::empty());
    let mut i: usize = 0;
    while i < toks.len()
        invariant
            t == patch.tree@,
            bytes == text.spec_bytes(),
            root == project_root@,
            fits(bytes),
            cands == patch_reference_tokens(t),
            toks@.map_values(|c: usize| c as nat) == cands,
            forall|k: int| 0 <= k < toks@.len() ==> #[trigger] toks@[k] < t.len(),
            is_file@.len() == toks@.len(),
            g == (|k: nat| if is_file@[k as int] {
                let p = cands[k as int];
                Some(
                    RefView {
                        range: spec_scip_range(bytes, t[p as int].start, t[p as int].end),
                        symbol: spec_file_symbol(root, reference_target(t, root, p)),
                        display: spec_strip_ab_prefix(t[p as int].text),
                    },
                )
            } else {
                None
            }),
            i <= toks@.len(),
            base == s0.len(),
            tracked_symbols(seen@, symbols@, base),
            symbols@.take(base as int) == s0,
            occurrences@.map_values(|o: Occurrence| occurrence_view(o)) == o0 + filter_map(positions(cands.len()).take(i as int), g).map_values(|r: RefView| ref_occurrence(r)),
            symbols@.skip(base as int).map_values(|s: SymbolInfo| symbol_view(s)) == distinct_symbols(
                filter_map(positions(cands.len()).take(i as int), g),
                filter_map(positions(cands.len()).take(i as int), g).len(),
            ),
        decreases toks@.len() - i,
    {
        proof {
            lemma_filter_map_step(positions(cands.len()), g, i as int);
        }
        let p = toks[i];
        assert(cands[i as int] == p as nat);
        let ghost prev = filter_map(positions(cands.len()).take(i as int), g);
        if is_file[i] {
            let clean = strip_ab_prefix(patch.tree.text_of(p).as_str());
            let target = match resolve_against_root(project_root, clean.as_str(), true) {
                Some(x) => x,
                None => String::new(),
            };
            let symbol = file_symbol(project_root, target.as_str());
            let span = patch.tree.range_of(p);
            let ghost rv = RefView {
                range: spec_scip_range(bytes, span.start, span.end),
                symbol: symbol@,
                display: clean@,
            };
            assert(g(i as nat) == Some(rv));
            record_reference(text, span.start, span.end, symbol.as_str(), clean.as_str(), &mut seen, occurrences, symbols, Ghost(base));
            proof {
                let next = prev.push(rv);
                assert(next.drop_last() =~= prev);
                lemma_distinct_prefix(next, prev, prev.len());
                assert(distinct_symbols(next, next.len()) == (if has_symbol(distinct_symbols(prev, prev.len()), rv.symbol) {
                    distinct_symbols(prev, prev.len())
                } else {
                    distinct_symbols(prev, prev.len()).push((rv.symbol, rv.display))
                }));
                assert(next.map_values(|r: RefView| ref_occurrence(r)) =~= prev.map_values(|r: RefView| ref_occurrence(r)).push(ref_occurrence(rv)));
                assert(symbols@.take(base as int) =~= s0);
            }
        }
        i = i + 1;
    }
    proof {
        lemma_take_full(positions(cands.len()));
        assert(symbols@ =~= symbols@.take(base as int) + symbols@.skip(base as int));
        assert(symbols@.map_values(|s: SymbolInfo| symbol_view(s)) =~= s0.map_values(|s: SymbolInfo| symbol_view(s)) + symbols@.skip(base as int).map_values(|s: SymbolInfo| symbol_view(s)));
    }
}

/// The references of a series file: each patch name, pointing at the file
/// of that name in the series file's directory (none when the series path
/// has no directory).
pub open spec fn series_refs(t: Seq<ElementView>, bytes: Seq<u8>, series_path: Seq<char>, project_root: Seq<char>) -> Seq<RefView> {
    match parent_dir(series_path) {
        None => Seq::empty(),
        Some(dir) => filter_map(
            patch_entries(t),
            |pe: nat| match name_token(t, pe) {
                None => None,
                Some(n) => Some(
                    RefView {
                        range: spec_scip_range(bytes, t[n as int].start, t[n as int].end),
                        symbol: spec_file_symbol(project_root, join_path(dir, t[n as int].text)),
                        display: t[n as int].text,
                    },
                ),
            },
        ),
    }
}

/// Collect references from a series file's patch entries.
pub fn collect_series_references(
    series: &SeriesDocument,
    text: &str,
    series_path: &str,
    project_root: &str,
    occurrences: &mut Vec<Occurrence>,
    symbols: &mut Vec<SymbolInfo>,
)
    requires
        fits(text.spec_bytes()),
    ensures
        final(occurrences)@.map_values(|o: Occurrence| occurrence_view(o)) == old(occurrences)@.map_values(
            |o: Occurrence| occurrence_view(o),
        ) + series_refs(series.tree@, text.spec_bytes(), series_path@, project_root@).map_values(|r: RefView| ref_occurrence(r)),
        final(symbols)@.map_values(|s: SymbolInfo| symbol_view(s)) == old(symbols)@.map_values(
            |s: SymbolInfo| symbol_view(s),
        ) + distinct_symbols(
            series_refs(series.tree@, text.spec_bytes(), series_path@, project_root@),
            series_refs(series.tree@, text.spec_bytes(), series_path@, project_root@).len(),
        ),
{
    let ghost t = series.tree@;
    let ghost bytes = text.spec_bytes();
    let ghost root = project_root@;
    let dir = match parent_of(chars_of(series_path).as_slice()) {
        None => {
            assert(occurrences@.map_values(|o: Occurrence| occurrence_view(o)) =~= occurrences@.map_values(|o: Occurrence| occurrence_view(o)) + Seq::<(Seq<i32>, Seq<char>)>::empty());
            assert(symbols@.map_values(|s: SymbolInfo| symbol_view(s)) =~= symbols@.map_values(|s: SymbolInfo| symbol_view(s)) + Seq::<(Seq<char>, Seq<char>)>::empty());
            return;
        },
        Some(d) => d,
    };
    let pes = series.patch_entries();
    let ghost pf = patch_entries(t);
    let ghost o0 = occurrences@.map_values(|o: Occurrence| occurrence_view(o));
    let ghost s0 = symbols@;
    let ghost base = symbols@.len();
    let ghost g = |pe: nat| match name_token(t, pe) {
        None => None,
        Some(n) => Some(
            RefView {
                range: spec_scip_range(bytes, t[n as int].start, t[n as int].end),
                symbol: spec_file_symbol(root, join_path(dir@, t[n as int].text)),
                display: t[n as int].text,
            },
        ),
    };
    let mut seen: Vec<String> = Vec::new();
    assert(symbols@.skip(base as int).map_values(|s: SymbolInfo| symbol_view(s)) =~= Seq::<(Seq<char>, Seq<char>)>::empty());
    let mut i: usize = 0;
    while i < pes.len()
        invariant
            t == series.tree@,
            bytes == text.spec_bytes(),
            root == project_root@,
            fits(bytes),
            pf == patch_entries(t),
            pes@.map_values(|c: usize| c as nat) == pf,
            forall|k: int| 0 <= k < pes@.len() ==> #[trigger] pes@[k] < t.len(),
            g == (|pe: nat| match name_token(t, pe) {
                None => None,
                Some(n) => Some(
                    RefView {
                        range: spec_scip_range(bytes, t[n as int].start, t[n as int].end),
                        symbol: spec_file_symbol(root, join_path(dir@, t[n as int].text)),
                        display: t[n as int].text,
                    },
                ),
            }),
            i <= pes@.len(),
            base == s0.len(),
            tracked_symbols(seen@, symbols@, base),
            symbols@.take(base as int) == s0,
            occurrences@.map_values(|o: Occurrence| occurrence_view(o)) == o0 + filter_map(pf.take(i as int), g).map_values(|r: RefView| ref_occurrence(r)),
            symbols@.skip(base as int).map_values(|s: SymbolInfo| symbol_view(s)) == distinct_symbols(
                filter_map(pf.take(i as int), g),
                filter_map(pf.take(i as int), g).len(),
            ),
        decreases pes@.len() - i,
    {
        proof {
            lemma_filter_map_step(pf, g, i as int);
        }
        let pe = pes[i];
        assert(pf[i as int] == pe as nat);
        let ghost prev = filter_map(pf.take(i as int), g);
        if let Some(n) = series.tree.first_child_of_kind(pe, PATCH_NAME) {
            let name = series.tree.text_of(n);
            let target = string_of(join(dir.as_slice(), chars_of(name.as_str()).as_slice()).as_slice());
            let symbol = file_symbol(project_root, target.as_str());
            let span = series.tree.range_of(n);
            let ghost rv = RefView {
                range: spec_scip_range(bytes, span.start, span.end),
                symbol: symbol@,
                display: name@,
            };
            assert(g(pe as nat) == Some(rv));
            record_reference(text, span.start, span.end, symbol.as_str(), name.as_str(), &mut seen, occurrences, symbols, Ghost(base));
            proof {
                let next = prev.push(rv);
                assert(next.drop_last() =~= prev);
                lemma_distinct_prefix(next, prev, prev.len());
                assert(next.map_values(|r: RefView| ref_occurrence(r)) =~= prev.map_values(|r: RefView| ref_occurrence(r)).push(ref_occurrence(rv)));
                assert(symbols@.take(base as int) =~= s0);
            }
        }
        i = i + 1;
    }
    proof {
        lemma_take_full(pf);
        assert(symbols@ =~= symbols@.take(base as int) + symbols@.skip(base as int));
        assert(symbols@.map_values(|s: SymbolInfo| symbol_view(s)) =~= s0.map_values(|s: SymbolInfo| symbol_view(s)) + symbols@.skip(base as int).map_values(|s: SymbolInfo| symbol_view(s)));
    }
}

/// `file://` and the path, when the crate makes no URI of it.
pub open spec fn fallback_uri(path: Seq<char>) -> Seq<char> {
    "file://"@ + path
}

/// The URI text of a path for the index metadata: the path itself when no
/// URI can be made of it.
pub fn path_to_uri(path: &str) -> (r: String)
    ensures
        path@.len() > 0 && path@[0] == '/' ==> r@ == match spec_file_path_uri(path@) {
            Some(u) => u,
            None => path@,
        },
{
    match file_path_uri(path) {
        Some(u) => u,
        None => String::from_str(path),
    }
}

/// The kind of an input file: detected from the URI of its path.
pub fn document_kind(path: &str) -> (r: FileKind)
    ensures
        path@.len() > 0 && path@[0] == '/' ==> r == spec_detect_file_kind(match spec_file_path_uri(path@) {
            Some(u) => u,
            None => fallback_uri(path@),
        }),
{
    let uri = match file_path_uri(path) {
        Some(u) => u,
        None => {
            let mut s = String::from_str("file://");
            push_str(&mut s, path);
            s
        },
    };
    detect_file_kind(uri.as_str())
}

/// One document of the index.
pub struct ScipDocument {
    pub language: String,
    pub relative_path: String,
    pub occurrences: Vec<Occurrence>,
    pub symbols: Vec<SymbolInfo>,
}

/// The references of a document of the given kind.
pub open spec fn document_refs(path: Seq<char>, text: Seq<char>, project_root: Seq<char>, kind: FileKind, is_file: Seq<bool>) -> Seq<RefView> {
    match kind {
        FileKind::Patch => patch_refs(
            crate::syntax::spec_build_tree(crate::patch::spec_patch_events(text)),
            encode_utf8(text),
            project_root,
            is_file,
        ),
        FileKind::Series => series_refs(
            crate::syntax::spec_build_tree(crate::series::spec_series_events(text)),
            encode_utf8(text),
            path,
            project_root,
        ),
    }
}

/// Build a single SCIP document for one input file of the given kind,
/// given for a patch whether each of its reference targets is a file.
pub fn build_document(path: &str, text: &str, project_root: &str, kind: FileKind, is_file: &Vec<bool>) -> (r: ScipDocument)
    requires
        fits(text.spec_bytes()),
        kind == FileKind::Patch ==> is_file@.len() == patch_reference_tokens(
            crate::syntax::spec_build_tree(crate::patch::spec_patch_events(text@)),
        ).len(),
    ensures
        r.language@ == "Diff"@,
        r.relative_path@ == spec_relative_path(project_root@, path@),
        r.occurrences@.map_values(|o: Occurrence| occurrence_view(o)) == document_refs(path@, text@, project_root@, kind, is_file@).map_values(
            |r: RefView| ref_occurrence(r),
        ),
        r.symbols@.map_values(|s: SymbolInfo| symbol_view(s)) == distinct_symbols(
            document_refs(path@, text@, project_root@, kind, is_file@),
            document_refs(path@, text@, project_root@, kind, is_file@).len(),
        ),
{
    let mut occurrences: Vec<Occurrence> = Vec::new();
    let mut symbols: Vec<SymbolInfo> = Vec::new();
    assert(occurrences@.map_values(|o: Occurrence| occurrence_view(o)) =~= Seq::<(Seq<i32>, Seq<char>)>::empty());
    assert(symbols@.map_values(|s: SymbolInfo| symbol_view(s)) =~= Seq::<(Seq<char>, Seq<char>)>::empty());
    match kind {
        FileKind::Patch => {
            let parsed = crate::patch::parse_patch(text);
            collect_patch_references(&parsed, text, project_root, is_file, &mut occurrences, &mut symbols);
        },
        FileKind::Series => {
            let parsed = crate::series::parse_series(text);
            collect_series_references(&parsed, text, path, project_root, &mut occurrences, &mut symbols);
        },
    }
    let ghost refs = document_refs(path@, text@, project_root@, kind, is_file@);
    assert(occurrences@.map_values(|o: Occurrence| occurrence_view(o)) =~= refs.map_values(|r: RefView| ref_occurrence(r)));
    assert(symbols@.map_values(|s: SymbolInfo| symbol_view(s)) =~= distinct_symbols(refs, refs.len()));
    ScipDocument {
        language: String::from_str("Diff"),
        relative_path: relative_path(project_root, path),
        occurrences,
        symbols,
    }
}

/// Build a document with the answers checked: `None` when the kind is a
/// patch and the answers are not one per reference target of the text.
pub fn build_document_checked(path: &str, text: &str, project_root: &str, kind: FileKind, is_file: &Vec<bool>) -> (r: Option<ScipDocument>)
    requires
        fits(text.spec_bytes()),
    ensures
        (kind == FileKind::Patch ==> is_file@.len() == patch_reference_tokens(
            crate::syntax::spec_build_tree(crate::patch::spec_patch_events(text@)),
        ).len()) <==> r is Some,
        r matches Some(d) ==> {
            &&& d.language@ == "Diff"@
            &&& d.relative_path@ == spec_relative_path(project_root@, path@)
            &&& d.occurrences@.map_values(|o: Occurrence| occurrence_view(o)) == document_refs(path@, text@, project_root@, kind, is_file@).map_values(
                |r: RefView| ref_occurrence(r),
            )
            &&& d.symbols@.map_values(|s: SymbolInfo| symbol_view(s)) == distinct_symbols(
                document_refs(path@, text@, project_root@, kind, is_file@),
                document_refs(path@, text@, project_root@, kind, is_file@).len(),
            )
        },
{
    if kind == FileKind::Patch {
        let parsed = crate::patch::parse_patch(text);
        let toks = reference_tokens(&parsed);
        assert(toks@.map_values(|c: usize| c as nat).len() == toks@.len());
        if toks.len() != is_file.len() {
            return None;
        }
    }
    Some(build_document(path, text, project_root, kind, is_file))
}

/// Whether reference `k` is the first of the first `n` with its symbol.
pub open spec fn first_of_symbol(refs: Seq<RefView>, k: int) -> bool {
    0 <= k < refs.len() && forall|m: int| 0 <= m < k ==> refs[m].symbol != refs[k].symbol
}

proof fn lemma_symbols_distinct(refs: Seq<RefView>, n: nat)
    requires
        n <= refs.len(),
    ensures
        forall|i: int, j: int|
            0 <= i < j < distinct_symbols(refs, n).len() ==> (#[trigger] distinct_symbols(refs, n)[i]).0 != (
            #[trigger] distinct_symbols(refs, n)[j]).0,
    decreases n,
{
    if n > 0 {
        lemma_symbols_distinct(refs, (n - 1) as nat);
        let d = distinct_symbols(refs, (n - 1) as nat);
        let e = distinct_symbols(refs, n);
        let r = refs[n - 1];
        if !has_symbol(d, r.symbol) {
            assert(e == d.push((r.symbol, r.display)));
            assert forall|i: int, j: int| 0 <= i < j < e.len() implies (#[trigger] e[i]).0 != (#[trigger] e[j]).0 by {
                if j == d.len() {
                    assert(e[i] == d[i]);
                    if d[i].0 == r.symbol {
                        assert(has_symbol(d, r.symbol));
                    }
                } else {
                    assert(e[i] == d[i] && e[j] == d[j]);
                }
            }
        }
    }
}

proof fn lemma_symbols_cover(refs: Seq<RefView>, n: nat)
    requires
        n <= refs.len(),
    ensures
        forall|k: int| 0 <= k < n ==> #[trigger] has_symbol(distinct_symbols(refs, n), refs[k].symbol),
    decreases n,
{
    if n > 0 {
        lemma_symbols_cover(refs, (n - 1) as nat);
        let d = distinct_symbols(refs, (n - 1) as nat);
        let e = distinct_symbols(refs, n);
        let r = refs[n - 1];
        if !has_symbol(d, r.symbol) {
            assert(e == d.push((r.symbol, r.display)));
            assert forall|k: int| 0 <= k < n implies #[trigger] has_symbol(e, refs[k].symbol) by {
                if k == n - 1 {
                    assert(e[d.len() as int].0 == refs[k].symbol);
                } else {
                    assert(has_symbol(d, refs[k].symbol));
                    let i = choose|i: int| 0 <= i < d.len() && d[i].0 == refs[k].symbol;
                    assert(e[i] == d[i]);
                }
            }
        }
    }
}

proof fn lemma_symbols_first_display(refs: Seq<RefView>, n: nat)
    requires
        n <= refs.len(),
    ensures
        forall|i: int|
            0 <= i < distinct_symbols(refs, n).len() ==> exists|k: int|
                0 <= k < n && #[trigger] first_of_symbol(refs, k) && refs[k].symbol == (#[trigger] distinct_symbols(refs, n)[i]).0
                    && refs[k].display == distinct_symbols(refs, n)[i].1,
    decreases n,
{
    if n > 0 {
        lemma_symbols_first_display(refs, (n - 1) as nat);
        lemma_symbols_cover(refs, (n - 1) as nat);
        let d = distinct_symbols(refs, (n - 1) as nat);
        let e = distinct_symbols(refs, n);
        let r = refs[n - 1];
        if !has_symbol(d, r.symbol) {
            assert(e == d.push((r.symbol, r.display)));
            assert forall|m: int| 0 <= m < n - 1 implies (#[trigger] refs[m]).symbol != r.symbol by {
                assert(has_symbol(d, refs[m].symbol));
            }
            assert(first_of_symbol(refs, n - 1));
            assert forall|i: int| 0 <= i < e.len() implies exists|k: int|
                0 <= k < n && #[trigger] first_of_symbol(refs, k) && refs[k].symbol == (#[trigger] e[i]).0 && refs[k].display == e[i].1 by {
                if i == d.len() {
                    assert(refs[n - 1].symbol == e[i].0);
                } else {
                    assert(e[i] == d[i]);
                }
            }
        }
    }
}

/// A document records each symbol of its references once: no symbol twice,
/// and every reference's symbol among them.
pub proof fn lemma_symbols_once_each(refs: Seq<RefView>)
    ensures
        forall|i: int, j: int|
            0 <= i < j < distinct_symbols(refs, refs.len()).len() ==> (#[trigger] distinct_symbols(refs, refs.len())[i]).0 != (
            #[trigger] distinct_symbols(refs, refs.len())[j]).0,
        forall|k: int| 0 <= k < refs.len() ==> #[trigger] has_symbol(distinct_symbols(refs, refs.len()), refs[k].symbol),
{
    lemma_symbols_distinct(refs, refs.len());
    lemma_symbols_cover(refs, refs.len());
}

/// Each recorded symbol comes from the first reference to it, whose index
/// this gives, and bears that reference's display name.
pub proof fn lemma_symbol_from_first_reference(refs: Seq<RefView>, i: int) -> (k: int)
    requires
        0 <= i < distinct_symbols(refs, refs.len()).len(),
    ensures
        first_of_symbol(refs, k),
        refs[k].symbol == distinct_symbols(refs, refs.len())[i].0,
        refs[k].display == distinct_symbols(refs, refs.len())[i].1,
{
    lemma_symbols_first_display(refs, refs.len());
    let d = distinct_symbols(refs, refs.len());
    assert(d[i] == d[i]);
    choose|k: int| 0 <= k < refs.len() && #[trigger] first_of_symbol(refs, k) && refs[k].symbol == d[i].0 && refs[k].display == d[i].1
}

} // verus!
