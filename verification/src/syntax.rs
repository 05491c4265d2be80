//! Syntax trees as plain data.
//!
//! The parsers of patch and series files produce lossless syntax trees. Each
//! tree is handed over as its preorder walk (an event when an element is
//! entered and one when it is left) and rebuilt here as a vector of elements
//! in preorder, each knowing its parent. Navigation — children of a kind,
//! the token at an offset, the ancestors of an element — is done on that
//! vector.
use vstd::prelude::*;
use vstd::utf8::encode_utf8;
use crate::position::{fits, lemma_offset_to_position_monotone, range_within, spec_offset_to_position, spec_position_to_offset, text_range_to_lsp_range, try_position_to_offset, Position, Range, TextRange};
use vstd::string::StringSliceAdditionalSpecFns;

verus! {

/// One step of a preorder walk over a syntax tree.
pub struct SyntaxEvent {
    /// Entering the element (or leaving it).
    pub enter: bool,
    /// The syntax kind, as the parser numbers it.
    pub kind: u16,
    /// A token (or a node).
    pub is_token: bool,
    /// Byte span of the element.
    pub start: u32,
    pub end: u32,
    /// The element's text.
    pub text: String,
}

pub struct EventView {
    pub enter: bool,
    pub kind: u16,
    pub is_token: bool,
    pub start: u32,
    pub end: u32,
    pub text: Seq<char>,
}

impl View for SyntaxEvent {
    type V = EventView;

    open spec fn view(&self) -> EventView {
        EventView {
            enter: self.enter,
            kind: self.kind,
            is_token: self.is_token,
            start: self.start,
            end: self.end,
            text: self.text@,
        }
    }
}

/// An element of a syntax tree.
pub struct SyntaxElement {
    pub kind: u16,
    pub is_token: bool,
    pub start: u32,
    pub end: u32,
    /// Index of the enclosing node; an element outside every node holds its
    /// own index.
    pub parent: usize,
    pub text: String,
}

pub struct ElementView {
    pub kind: u16,
    pub is_token: bool,
    pub start: u32,
    pub end: u32,
    pub parent: nat,
    pub text: Seq<char>,
}

impl View for SyntaxElement {
    type V = ElementView;

    open spec fn view(&self) -> ElementView {
        ElementView {
            kind: self.kind,
            is_token: self.is_token,
            start: self.start,
            end: self.end,
            parent: self.parent as nat,
            text: self.text@,
        }
    }
}

/// A syntax tree: its elements in preorder.
pub struct SyntaxTree {
    pub elements: Vec<SyntaxElement>,
}

impl View for SyntaxTree {
    type V = Seq<ElementView>;

    open spec fn view(&self) -> Seq<ElementView> {
        self.elements@.map_values(|e: SyntaxElement| e@)
    }
}

/// A parse error with the byte span it concerns.
pub struct ParseErrorInfo {
    pub start: u32,
    pub end: u32,
    pub message: String,
}

/// Every element's parent comes before it.
pub open spec fn wf(t: Seq<ElementView>) -> bool {
    forall|i: int| 0 <= i < t.len() ==> #[trigger] t[i].parent <= i
}

/// Elements and open nodes after the first `n` events.
pub open spec fn build_upto(evs: Seq<EventView>, n: nat) -> (Seq<ElementView>, Seq<nat>)
    decreases n,
{
    if n == 0 || n > evs.len() {
        (Seq::empty(), Seq::empty())
    } else {
        let (els, stack) = build_upto(evs, (n - 1) as nat);
        let e = evs[n - 1];
        if e.enter {
            let parent = if stack.len() > 0 {
                stack.last()
            } else {
                els.len()
            };
            (
                els.push(
                    ElementView {
                        kind: e.kind,
                        is_token: e.is_token,
                        start: e.start,
                        end: e.end,
                        parent,
                        text: e.text,
                    },
                ),
                stack.push(els.len()),
            )
        } else if stack.len() > 0 {
            (els, stack.drop_last())
        } else {
            (els, stack)
        }
    }
}

/// The tree that a preorder walk describes.
pub open spec fn spec_build_tree(evs: Seq<EventView>) -> Seq<ElementView> {
    build_upto(evs, evs.len()).0
}

/// Rebuild a tree from its preorder walk.
pub fn build_tree(events: &Vec<SyntaxEvent>) -> (r: SyntaxTree)
    ensures
        r@ == spec_build_tree(events@.map_values(|e: SyntaxEvent| e@)),
        wf(r@),
{
    let ghost evs = events@.map_values(|e: SyntaxEvent| e@);
    let mut elements: Vec<SyntaxElement> = Vec::new();
    let mut stack: Vec<usize> = Vec::new();
    let mut i: usize = 0;
    while i < events.len()
        invariant
            i <= events@.len(),
            evs == events@.map_values(|e: SyntaxEvent| e@),
            elements@.map_values(|e: SyntaxElement| e@) == build_upto(evs, i as nat).0,
            stack@.map_values(|s: usize| s as nat) == build_upto(evs, i as nat).1,
            forall|k: int| 0 <= k < stack@.len() ==> #[trigger] stack@[k] < elements@.len(),
            wf(elements@.map_values(|e: SyntaxElement| e@)),
        decreases events@.len() - i,
    {
        let ev = &events[i];
        assert(evs[i as int] == ev@);
        let ghost old_elements = elements@;
        let ghost old_stack = stack@;
        if ev.enter {
            let n = stack.len();
            let parent = if n > 0 {
                stack[n - 1]
            } else {
                elements.len()
            };
            let idx = elements.len();
            elements.push(
                SyntaxElement {
                    kind: ev.kind,
                    is_token: ev.is_token,
                    start: ev.start,
                    end: ev.end,
                    parent,
                    text: ev.text.clone(),
                },
            );
            stack.push(idx);
            proof {
                assert(elements@.map_values(|e: SyntaxElement| e@) =~= old_elements.map_values(
                    |e: SyntaxElement| e@,
                ).push(elements@[idx as int]@));
                assert(stack@.map_values(|s: usize| s as nat) =~= old_stack.map_values(
                    |s: usize| s as nat,
                ).push(idx as nat));
                if n > 0 {
                    assert(old_stack.map_values(|s: usize| s as nat).last() == old_stack[n - 1] as nat);
                }
            }
        } else {
            if stack.len() > 0 {
                stack.pop();
                proof {
                    assert(stack@.map_values(|s: usize| s as nat) =~= old_stack.map_values(
                        |s: usize| s as nat,
                    ).drop_last());
                }
            }
        }
        i = i + 1;
    }
    assert(events@.map_values(|e: SyntaxEvent| e@).len() == events@.len());
    SyntaxTree { elements }
}

/// Whether `c` is a child of `p`.
pub open spec fn is_child(t: Seq<ElementView>, p: nat, c: nat) -> bool {
    c < t.len() && p < c && t[c as int].parent == p
}

/// The children of `p` of a kind, among the first `n` elements, in order.
pub open spec fn children_of_kind_upto(t: Seq<ElementView>, p: nat, kind: u16, n: nat) -> Seq<nat>
    decreases n,
{
    if n == 0 || n > t.len() {
        Seq::empty()
    } else {
        let rest = children_of_kind_upto(t, p, kind, (n - 1) as nat);
        if is_child(t, p, (n - 1) as nat) && t[n - 1].kind == kind {
            rest.push((n - 1) as nat)
        } else {
            rest
        }
    }
}

/// The children of `p` of a kind, in order.
pub open spec fn children_of_kind(t: Seq<ElementView>, p: nat, kind: u16) -> Seq<nat> {
    children_of_kind_upto(t, p, kind, t.len())
}

/// The first child of `p` of a kind.
pub open spec fn first_child_of_kind(t: Seq<ElementView>, p: nat, kind: u16) -> Option<nat> {
    let c = children_of_kind(t, p, kind);
    if c.len() > 0 {
        Some(c[0])
    } else {
        None
    }
}

pub proof fn lemma_children_bounds(t: Seq<ElementView>, p: nat, kind: u16, n: nat)
    ensures
        forall|k: int|
            0 <= k < children_of_kind_upto(t, p, kind, n).len() ==> {
                let c = #[trigger] children_of_kind_upto(t, p, kind, n)[k];
                &&& c < n
                &&& c < t.len()
                &&& is_child(t, p, c)
                &&& t[c as int].kind == kind
            },
        children_of_kind_upto(t, p, kind, n).len() <= n,
    decreases n,
{
    if n > 0 && n <= t.len() {
        lemma_children_bounds(t, p, kind, (n - 1) as nat);
    }
}

/// Children come in the order of their indices.
pub proof fn lemma_children_increasing(t: Seq<ElementView>, p: nat, kind: u16, n: nat)
    ensures
        forall|k: int, m: int|
            0 <= k < m < children_of_kind_upto(t, p, kind, n).len() ==> #[trigger] children_of_kind_upto(t, p, kind, n)[k]
                < #[trigger] children_of_kind_upto(t, p, kind, n)[m],
    decreases n,
{
    if n > 0 && n <= t.len() {
        lemma_children_increasing(t, p, kind, (n - 1) as nat);
        lemma_children_bounds(t, p, kind, (n - 1) as nat);
        let rest = children_of_kind_upto(t, p, kind, (n - 1) as nat);
        let all = children_of_kind_upto(t, p, kind, n);
        assert forall|k: int, m: int| 0 <= k < m < all.len() implies #[trigger] all[k] < #[trigger] all[m] by {
            if m < rest.len() {
                assert(all[k] == rest[k] && all[m] == rest[m]);
            } else {
                assert(all[k] == rest[k]);
                assert(rest[k] < n - 1);
            }
        }
    }
}

impl SyntaxTree {
    pub fn len(&self) -> (r: usize)
        ensures
            r == self@.len(),
    {
        self.elements.len()
    }

    /// The children of `p` of a kind, in order.
    pub fn children_of_kind(&self, p: usize, kind: u16) -> (r: Vec<usize>)
        ensures
            r@.map_values(|c: usize| c as nat) == children_of_kind(self@, p as nat, kind),
            forall|k: int| 0 <= k < r@.len() ==> #[trigger] r@[k] < self@.len(),
    {
        let mut out: Vec<usize> = Vec::new();
        let mut i: usize = 0;
        while i < self.elements.len()
            invariant
                i <= self@.len(),
                self@.len() == self.elements@.len(),
                out@.map_values(|c: usize| c as nat) == children_of_kind_upto(
                    self@,
                    p as nat,
                    kind,
                    i as nat,
                ),
                forall|k: int| 0 <= k < out@.len() ==> #[trigger] out@[k] < i,
            decreases self@.len() - i,
        {
            let e = &self.elements[i];
            assert(self@[i as int] == e@);
            if p < i && e.parent == p && e.kind == kind {
                let ghost before = out@;
                out.push(i);
                assert(out@.map_values(|c: usize| c as nat) =~= before.map_values(
                    |c: usize| c as nat,
                ).push(i as nat));
            }
            i = i + 1;
        }
        out
    }

    /// The first child of `p` of a kind.
    pub fn first_child_of_kind(&self, p: usize, kind: u16) -> (r: Option<usize>)
        ensures
            r matches Some(c) ==> first_child_of_kind(self@, p as nat, kind) == Some(c as nat),
            r is None ==> first_child_of_kind(self@, p as nat, kind) is None,
            r matches Some(c) ==> c < self@.len(),
    {
        let cs = self.children_of_kind(p, kind);
        if cs.len() > 0 {
            assert(cs@.map_values(|c: usize| c as nat)[0] == cs@[0] as nat);
            Some(cs[0])
        } else {
            None
        }
    }
}

/// The last non-empty token, in preorder among the first `n` elements,
/// whose span holds `offset` (its ends included).
pub open spec fn token_at_upto(t: Seq<ElementView>, offset: nat, n: nat) -> Option<nat>
    decreases n,
{
    if n == 0 || n > t.len() {
        None
    } else {
        let e = t[n - 1];
        if e.is_token && e.start < e.end && e.start <= offset <= e.end {
            Some((n - 1) as nat)
        } else {
            token_at_upto(t, offset, (n - 1) as nat)
        }
    }
}

/// The token at an offset, preferring the right one where two touch
/// (rowan's `token_at_offset(..).right_biased()`).
pub open spec fn token_at(t: Seq<ElementView>, offset: nat) -> Option<nat> {
    token_at_upto(t, offset, t.len())
}

/// The enclosing nodes of element `i`, innermost first.
pub open spec fn ancestors(t: Seq<ElementView>, i: nat) -> Seq<nat>
    decreases i,
{
    if i >= t.len() || t[i as int].parent >= i {
        Seq::empty()
    } else {
        seq![t[i as int].parent].add(ancestors(t, t[i as int].parent))
    }
}

impl SyntaxTree {
    /// The token at an offset.
    pub fn token_at(&self, offset: u32) -> (r: Option<usize>)
        ensures
            r matches Some(i) ==> token_at(self@, offset as nat) == Some(i as nat) && i
                < self@.len(),
            r is None ==> token_at(self@, offset as nat) is None,
    {
        let mut found: Option<usize> = None;
        let mut i: usize = 0;
        while i < self.elements.len()
            invariant
                i <= self@.len(),
                self@.len() == self.elements@.len(),
                found matches Some(j) ==> token_at_upto(self@, offset as nat, i as nat) == Some(
                    j as nat,
                ) && j < i,
                found is None ==> token_at_upto(self@, offset as nat, i as nat) is None,
            decreases self@.len() - i,
        {
            let e = &self.elements[i];
            assert(self@[i as int] == e@);
            if e.is_token && e.start < e.end && e.start <= offset && offset <= e.end {
                found = Some(i);
            }
            i = i + 1;
        }
        found
    }

    /// The enclosing nodes of an element, innermost first.
    pub fn ancestors(&self, i: usize) -> (r: Vec<usize>)
        requires
            wf(self@),
        ensures
            r@.map_values(|c: usize| c as nat) == ancestors(self@, i as nat),
            forall|k: int| 0 <= k < r@.len() ==> #[trigger] r@[k] < self@.len(),
    {
        let mut out: Vec<usize> = Vec::new();
        let mut cur = i;
        while cur < self.elements.len() && self.elements[cur].parent < cur
            invariant
                self@.len() == self.elements@.len(),
                wf(self@),
                out@.map_values(|c: usize| c as nat) + ancestors(self@, cur as nat) == ancestors(
                    self@,
                    i as nat,
                ),
                forall|k: int| 0 <= k < out@.len() ==> #[trigger] out@[k] < self@.len(),
            decreases cur,
        {
            assert(self@[cur as int] == self.elements@[cur as int]@);
            let p = self.elements[cur].parent;
            let ghost before = out@;
            out.push(p);
            assert(out@.map_values(|c: usize| c as nat) =~= before.map_values(|c: usize| c as nat).push(
                p as nat,
            ));
            assert(ancestors(self@, cur as nat) == seq![p as nat].add(ancestors(self@, p as nat)));
            assert(out@.map_values(|c: usize| c as nat) + ancestors(self@, p as nat) =~= before.map_values(
                |c: usize| c as nat,
            ) + ancestors(self@, cur as nat));
            cur = p;
        }
        proof {
            if cur < self@.len() {
                assert(self@[cur as int] == self.elements@[cur as int]@);
            }
            assert(ancestors(self@, cur as nat) =~= Seq::<nat>::empty());
            assert(out@.map_values(|c: usize| c as nat) + Seq::<nat>::empty() =~= out@.map_values(
                |c: usize| c as nat,
            ));
        }
        out
    }
}

impl SyntaxTree {
    /// The byte span of an element.
    pub fn range_of(&self, i: usize) -> (r: TextRange)
        requires
            i < self@.len(),
        ensures
            r.start == self@[i as int].start,
            r.end == self@[i as int].end,
    {
        assert(self@[i as int] == self.elements@[i as int]@);
        TextRange { start: self.elements[i].start, end: self.elements[i].end }
    }

    /// The text of an element.
    pub fn text_of(&self, i: usize) -> (r: &String)
        requires
            i < self@.len(),
        ensures
            r@ == self@[i as int].text,
    {
        assert(self@[i as int] == self.elements@[i as int]@);
        &self.elements[i].text
    }

    /// The kind of an element.
    pub fn kind_of(&self, i: usize) -> (r: u16)
        requires
            i < self@.len(),
        ensures
            r == self@[i as int].kind,
    {
        assert(self@[i as int] == self.elements@[i as int]@);
        self.elements[i].kind
    }
}

/// The positions of an element's span.
pub open spec fn lsp_range(bytes: Seq<u8>, e: ElementView) -> Range {
    Range {
        start: spec_offset_to_position(bytes, e.start as int),
        end: spec_offset_to_position(bytes, e.end as int),
    }
}

impl SyntaxTree {
    /// The positions of an element's span in the text.
    pub fn lsp_range_of(&self, text: &str, i: usize) -> (r: Range)
        requires
            i < self@.len(),
            fits(text.spec_bytes()),
        ensures
            r == lsp_range(text.spec_bytes(), self@[i as int]),
    {
        text_range_to_lsp_range(text, self.range_of(i))
    }
}

/// All children of `p` among the first `n` elements, in order.
pub open spec fn children_upto(t: Seq<ElementView>, p: nat, n: nat) -> Seq<nat>
    decreases n,
{
    if n == 0 || n > t.len() {
        Seq::empty()
    } else {
        let rest = children_upto(t, p, (n - 1) as nat);
        if is_child(t, p, (n - 1) as nat) {
            rest.push((n - 1) as nat)
        } else {
            rest
        }
    }
}

/// All children of `p`, in order.
pub open spec fn children(t: Seq<ElementView>, p: nat) -> Seq<nat> {
    children_upto(t, p, t.len())
}

/// The first of `anc` (from position `k` on) whose kind is in `kinds`.
pub open spec fn first_of_kinds(t: Seq<ElementView>, anc: Seq<nat>, kinds: Seq<u16>, k: nat) -> Option<nat>
    decreases anc.len() - k,
{
    if k >= anc.len() {
        None
    } else if kinds.contains(t[anc[k as int] as int].kind) {
        Some(anc[k as int])
    } else {
        first_of_kinds(t, anc, kinds, k + 1)
    }
}

impl SyntaxTree {
    /// All children of `p`, in order.
    pub fn children(&self, p: usize) -> (r: Vec<usize>)
        ensures
            r@.map_values(|c: usize| c as nat) == children(self@, p as nat),
            forall|k: int| 0 <= k < r@.len() ==> #[trigger] r@[k] < self@.len(),
    {
        let mut out: Vec<usize> = Vec::new();
        let mut i: usize = 0;
        while i < self.elements.len()
            invariant
                i <= self@.len(),
                self@.len() == self.elements@.len(),
                out@.map_values(|c: usize| c as nat) == children_upto(self@, p as nat, i as nat),
                forall|k: int| 0 <= k < out@.len() ==> #[trigger] out@[k] < i,
            decreases self@.len() - i,
        {
            let e = &self.elements[i];
            assert(self@[i as int] == e@);
            if p < i && e.parent == p {
                let ghost before = out@;
                out.push(i);
                assert(out@.map_values(|c: usize| c as nat) =~= before.map_values(|c: usize| c as nat).push(i as nat));
            }
            i = i + 1;
        }
        out
    }

    /// The first of `anc` whose kind is in `kinds`.
    pub fn first_of_kinds(&self, anc: &Vec<usize>, kinds: &[u16]) -> (r: Option<usize>)
        requires
            forall|k: int| 0 <= k < anc@.len() ==> #[trigger] anc@[k] < self@.len(),
        ensures
            r matches Some(x) ==> first_of_kinds(self@, anc@.map_values(|c: usize| c as nat), kinds@, 0) == Some(x as nat) && x < self@.len(),
            r is None ==> first_of_kinds(self@, anc@.map_values(|c: usize| c as nat), kinds@, 0) is None,
    {
        let ghost a = anc@.map_values(|c: usize| c as nat);
        let mut k: usize = 0;
        while k < anc.len()
            invariant
                k <= anc@.len(),
                a == anc@.map_values(|c: usize| c as nat),
                forall|j: int| 0 <= j < anc@.len() ==> #[trigger] anc@[j] < self@.len(),
                first_of_kinds(self@, a, kinds@, 0) == first_of_kinds(self@, a, kinds@, k as nat),
            decreases anc@.len() - k,
        {
            let kind = self.kind_of(anc[k]);
            assert(a[k as int] == anc@[k as int] as nat);
            let mut j: usize = 0;
            let mut found = false;
            while j < kinds.len()
                invariant
                    j <= kinds@.len(),
                    found == (exists|q: int| 0 <= q < j && kinds@[q] == kind),
                decreases kinds@.len() - j,
            {
                if kinds[j] == kind {
                    found = true;
                }
                j = j + 1;
            }
            assert(found == kinds@.contains(kind));
            if found {
                return Some(anc[k]);
            }
            k = k + 1;
        }
        None
    }
}

/// Extend a selection chain with the ranges of the ancestors from position
/// `k` on whose kind is in `kinds`, skipping a range equal to the last one.
pub open spec fn chain_from(t: Seq<ElementView>, bytes: Seq<u8>, anc: Seq<nat>, kinds: Seq<u16>, k: nat, acc: Seq<Range>) -> Seq<Range>
    decreases anc.len() - k,
{
    if k >= anc.len() {
        acc
    } else {
        let n = anc[k as int];
        let next = if kinds.contains(t[n as int].kind) {
            let r = lsp_range(bytes, t[n as int]);
            if acc.len() > 0 && acc.last() == r {
                acc
            } else {
                acc.push(r)
            }
        } else {
            acc
        };
        chain_from(t, bytes, anc, kinds, k + 1, next)
    }
}

/// The selection chain at a position, innermost first: the token there,
/// then its enclosing nodes of the given kinds; none when the position is
/// outside the text or its token has no parent.
pub open spec fn spec_selection_chain(t: Seq<ElementView>, bytes: Seq<u8>, position: Position, kinds: Seq<u16>) -> Option<Seq<Range>> {
    match spec_position_to_offset(bytes, position) {
        None => None,
        Some(off) => match token_at(t, off) {
            None => None,
            Some(tok) => if t[tok as int].parent >= tok {
                None
            } else {
                Some(chain_from(t, bytes, ancestors(t, tok), kinds, 0, seq![lsp_range(bytes, t[tok as int])]))
            },
        },
    }
}

impl SyntaxTree {
    /// The selection chain at a position.
    pub fn selection_chain(&self, text: &str, position: Position, kinds: &[u16]) -> (r: Option<Vec<Range>>)
        requires
            fits(text.spec_bytes()),
            wf(self@),
        ensures
            r matches Some(v) ==> spec_selection_chain(self@, text.spec_bytes(), position, kinds@) == Some(v@),
            r is None ==> spec_selection_chain(self@, text.spec_bytes(), position, kinds@) is None,
    {
        let ghost bytes = text.spec_bytes();
        let off = match try_position_to_offset(text, position) {
            None => return None,
            Some(o) => o,
        };
        let tok = match self.token_at(off) {
            None => return None,
            Some(t) => t,
        };
        assert(self@[tok as int] == self.elements@[tok as int]@);
        if self.elements[tok].parent >= tok {
            return None;
        }
        let anc = self.ancestors(tok);
        let ghost a = anc@.map_values(|c: usize| c as nat);
        let mut acc: Vec<Range> = Vec::new();
        acc.push(self.lsp_range_of(text, tok));
        let ghost target = chain_from(self@, bytes, a, kinds@, 0, acc@);
        let mut k: usize = 0;
        while k < anc.len()
            invariant
                bytes == text.spec_bytes(),
                fits(bytes),
                k <= anc@.len(),
                a == anc@.map_values(|c: usize| c as nat),
                forall|j: int| 0 <= j < anc@.len() ==> #[trigger] anc@[j] < self@.len(),
                target == chain_from(self@, bytes, a, kinds@, k as nat, acc@),
            decreases anc@.len() - k,
        {
            let n = anc[k];
            assert(a[k as int] == n as nat);
            let kind = self.kind_of(n);
            let mut j: usize = 0;
            let mut found = false;
            while j < kinds.len()
                invariant
                    j <= kinds@.len(),
                    found == (exists|q: int| 0 <= q < j && kinds@[q] == kind),
                decreases kinds@.len() - j,
            {
                if kinds[j] == kind {
                    found = true;
                }
                j = j + 1;
            }
            assert(found == kinds@.contains(kind));
            if found {
                let r = self.lsp_range_of(text, n);
                let len = acc.len();
                if !(len > 0 && acc[len - 1] == r) {
                    acc.push(r);
                }
            }
            k = k + 1;
        }
        Some(acc)
    }
}

/// Whether every element's span lies within its parent's, as in every tree
/// the parser builds.
pub open spec fn spans_nest(t: Seq<ElementView>) -> bool {
    forall|i: int|
        0 <= i < t.len() && #[trigger] t[i].parent < i ==> t[t[i].parent as int].start <= t[i].start
            && t[i].end <= t[t[i].parent as int].end
}

/// Whether element 0 is the root of a tree over `len` bytes: it spans them
/// all, and every later element has an earlier parent.
pub open spec fn rooted(t: Seq<ElementView>, len: nat) -> bool {
    &&& t.len() > 0
    &&& t[0].parent == 0
    &&& t[0].start == 0
    &&& t[0].end == len
    &&& forall|i: int| 1 <= i < t.len() ==> (#[trigger] t[i]).parent < i
}

/// Whether each element's text is the text of its span.
pub open spec fn texts_match(t: Seq<ElementView>, bytes: Seq<u8>) -> bool {
    forall|i: int|
        0 <= i < t.len() ==> (#[trigger] t[i]).start <= t[i].end <= bytes.len() && encode_utf8(t[i].text)
            == bytes.subrange(t[i].start as int, t[i].end as int)
}

/// Whether an element that is not inside an earlier one starts no sooner
/// than that one ends.
pub open spec fn spans_in_preorder(t: Seq<ElementView>) -> bool {
    forall|i: int, j: int|
        #![trigger t[i], t[j]]
        0 <= i < j < t.len() && !ancestors(t, j as nat).contains(i as nat) ==> t[i].end <= t[j].start
}

/// The shape of every tree a parser gives for a text: its spans nest, come
/// in document order and hold their elements' texts, and a root of kind
/// `root_kind` spans the whole text.
pub open spec fn parsed_shape(t: Seq<ElementView>, bytes: Seq<u8>, root_kind: u16) -> bool {
    &&& wf(t)
    &&& spans_nest(t)
    &&& spans_in_preorder(t)
    &&& texts_match(t, bytes)
    &&& rooted(t, bytes.len())
    &&& t[0].kind == root_kind
}

/// Whether the span of element `outer` holds the span `[s, e]`.
pub open spec fn span_holds(t: Seq<ElementView>, outer: nat, s: nat, e: nat) -> bool {
    t[outer as int].start <= s && e <= t[outer as int].end
}

/// Whether the ranges of a chain each lie within the next one and differ
/// from it.
pub open spec fn chain_grows(c: Seq<Range>) -> bool {
    forall|k: int| 0 <= k < c.len() - 1 ==> #[trigger] range_within(c[k], c[k + 1]) && c[k] != c[k + 1]
}

proof fn lemma_token_at_bound(t: Seq<ElementView>, offset: nat, n: nat)
    ensures
        token_at_upto(t, offset, n) matches Some(i) ==> i < n && n <= t.len(),
    decreases n,
{
    if n > 0 && n <= t.len() {
        lemma_token_at_bound(t, offset, (n - 1) as nat);
    }
}

proof fn lemma_ancestors_walk(t: Seq<ElementView>, i: nat)
    requires
        i < t.len(),
        wf(t),
    ensures
        ({
            let a = ancestors(t, i);
            &&& a.len() > 0 ==> t[i as int].parent < i && a[0] == t[i as int].parent
            &&& forall|j: int| 0 <= j < a.len() ==> #[trigger] a[j] < i
            &&& forall|j: int| 0 < j < a.len() ==> #[trigger] a[j] == t[a[j - 1] as int].parent
                && t[a[j - 1] as int].parent < a[j - 1]
        }),
    decreases i,
{
    if t[i as int].parent < i {
        let p = t[i as int].parent;
        lemma_ancestors_walk(t, p);
        let a = ancestors(t, i);
        let b = ancestors(t, p);
        assert(a =~= seq![p].add(b));
        assert forall|j: int| 0 <= j < a.len() implies #[trigger] a[j] < i by {
            if j > 0 {
                assert(a[j] == b[j - 1]);
            }
        }
        assert forall|j: int| 0 < j < a.len() implies #[trigger] a[j] == t[a[j - 1] as int].parent
            && t[a[j - 1] as int].parent < a[j - 1] by {
            assert(a[j] == b[j - 1]);
            if j == 1 {
                assert(a[0] == p);
            } else {
                assert(a[j - 1] == b[j - 2]);
            }
        }
    }
}

proof fn lemma_chain_from_grows(t: Seq<ElementView>, bytes: Seq<u8>, anc: Seq<nat>, kinds: Seq<u16>, k: nat, acc: Seq<Range>, s: nat, e: nat)
    requires
        fits(bytes),
        k <= anc.len(),
        forall|j: int| 0 <= j < anc.len() ==> #[trigger] anc[j] < t.len(),
        forall|j: int| 0 <= j < anc.len() - 1 ==> span_holds(t, #[trigger] anc[j + 1], t[anc[j] as int].start as nat, t[anc[j] as int].end as nat),
        k < anc.len() ==> span_holds(t, anc[k as int], s, e),
        acc.len() > 0,
        acc.last() == (Range { start: spec_offset_to_position(bytes, s as int), end: spec_offset_to_position(bytes, e as int) }),
        chain_grows(acc),
    ensures
        chain_grows(chain_from(t, bytes, anc, kinds, k, acc)),
    decreases anc.len() - k,
{
    if k < anc.len() {
        let n = anc[k as int];
        let el = t[n as int];
        let r = lsp_range(bytes, el);
        if kinds.contains(el.kind) && !(acc.len() > 0 && acc.last() == r) {
            lemma_offset_to_position_monotone(bytes, el.start as int, s as int);
            lemma_offset_to_position_monotone(bytes, e as int, el.end as int);
            let next = acc.push(r);
            assert forall|m: int| 0 <= m < next.len() - 1 implies #[trigger] range_within(next[m], next[m + 1]) && next[m] != next[m + 1] by {
                if m < acc.len() - 1 {
                    assert(next[m] == acc[m] && next[m + 1] == acc[m + 1]);
                }
            }
            if k + 1 < anc.len() {
                assert(span_holds(t, anc[k + 1 as int], t[anc[k as int] as int].start as nat, t[anc[k as int] as int].end as nat));
            }
            lemma_chain_from_grows(t, bytes, anc, kinds, k + 1, next, el.start as nat, el.end as nat);
        } else {
            if k + 1 < anc.len() {
                assert(span_holds(t, anc[k + 1 as int], t[anc[k as int] as int].start as nat, t[anc[k as int] as int].end as nat));
            }
            lemma_chain_from_grows(t, bytes, anc, kinds, k + 1, acc, s, e);
        }
    }
}

/// A selection chain grows outward: each range lies within the next one and
/// differs from it, in a tree whose spans nest.
pub proof fn lemma_selection_chain_grows(t: Seq<ElementView>, bytes: Seq<u8>, position: Position, kinds: Seq<u16>)
    requires
        wf(t),
        spans_nest(t),
        fits(bytes),
    ensures
        spec_selection_chain(t, bytes, position, kinds) matches Some(c) ==> chain_grows(c),
{
    if let Some(off) = spec_position_to_offset(bytes, position) {
        if let Some(tok) = token_at(t, off) {
            lemma_token_at_bound(t, off, t.len());
            if t[tok as int].parent < tok {
                let a = ancestors(t, tok);
                lemma_ancestors_walk(t, tok);
                assert forall|j: int| 0 <= j < a.len() - 1 implies span_holds(t, #[trigger] a[j + 1], t[a[j] as int].start as nat, t[a[j] as int].end as nat) by {
                    assert(a[j + 1] == t[a[j] as int].parent && t[a[j] as int].parent < a[j]) by {
                        let j1 = j + 1;
                        assert(a[j1] == t[a[j1 - 1] as int].parent);
                    }
                    assert(a[j] < tok);
                    let c = a[j] as int;
                    assert(0 <= c < t.len() && t[c].parent < c);
                }
                if a.len() > 0 {
                    assert(t[tok as int].parent < tok);
                }
                let first = seq![lsp_range(bytes, t[tok as int])];
                lemma_chain_from_grows(t, bytes, a, kinds, 0, first, t[tok as int].start as nat, t[tok as int].end as nat);
            }
        }
    }
}

proof fn lemma_ancestors_reach_root(t: Seq<ElementView>, i: nat)
    requires
        0 < i < t.len(),
        forall|j: int| 1 <= j < t.len() ==> (#[trigger] t[j]).parent < j,
        t[0].parent == 0,
    ensures
        ancestors(t, i).len() > 0,
        ancestors(t, i).last() == 0,
    decreases i,
{
    let p = t[i as int].parent;
    assert(t[i as int].parent < i);
    if p == 0 {
        assert(ancestors(t, 0) =~= Seq::<nat>::empty());
        assert(ancestors(t, i) =~= seq![0nat]);
    } else {
        lemma_ancestors_reach_root(t, p);
        assert(ancestors(t, i) =~= seq![p].add(ancestors(t, p)));
    }
}

proof fn lemma_chain_from_ends(t: Seq<ElementView>, bytes: Seq<u8>, anc: Seq<nat>, kinds: Seq<u16>, k: nat, acc: Seq<Range>)
    requires
        k < anc.len(),
        kinds.contains(t[anc.last() as int].kind),
    ensures
        chain_from(t, bytes, anc, kinds, k, acc).len() > 0,
        chain_from(t, bytes, anc, kinds, k, acc).last() == lsp_range(bytes, t[anc.last() as int]),
    decreases anc.len() - k,
{
    let n = anc[k as int];
    let next = if kinds.contains(t[n as int].kind) {
        let r = lsp_range(bytes, t[n as int]);
        if acc.len() > 0 && acc.last() == r {
            acc
        } else {
            acc.push(r)
        }
    } else {
        acc
    };
    if k + 1 < anc.len() {
        lemma_chain_from_ends(t, bytes, anc, kinds, k + 1, next);
    } else {
        assert(n == anc.last());
        assert(chain_from(t, bytes, anc, kinds, k + 1, next) == next);
    }
}

/// Every selection chain in a parsed tree grows outward from the token at
/// the position to the whole text: each range lies within the next one and
/// differs from it, and the last one is the root's, from the start of the
/// text to its end.
pub proof fn lemma_selection_chain_of_parsed(t: Seq<ElementView>, bytes: Seq<u8>, position: Position, kinds: Seq<u16>, root_kind: u16)
    requires
        parsed_shape(t, bytes, root_kind),
        kinds.contains(root_kind),
        fits(bytes),
    ensures
        spec_selection_chain(t, bytes, position, kinds) matches Some(c) ==> {
            &&& chain_grows(c)
            &&& c.last() == (Range { start: spec_offset_to_position(bytes, 0), end: spec_offset_to_position(bytes, bytes.len() as int) })
        },
{
    lemma_selection_chain_grows(t, bytes, position, kinds);
    if let Some(off) = spec_position_to_offset(bytes, position) {
        if let Some(tok) = token_at(t, off) {
            lemma_token_at_bound(t, off, t.len());
            if t[tok as int].parent < tok {
                lemma_ancestors_reach_root(t, tok);
                let a = ancestors(t, tok);
                lemma_chain_from_ends(t, bytes, a, kinds, 0, seq![lsp_range(bytes, t[tok as int])]);
            }
        }
    }
}

} // verus!
