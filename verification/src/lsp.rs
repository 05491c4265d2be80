//! The editor-facing results of the features, as plain data, with their
//! mathematical views; and the sequence combinators their contracts use.
use vstd::prelude::*;
use crate::position::{Position, Range};
use vstd::wrapping::u32_specs::{wrapping_add, wrapping_sub};

verus! {

/// Apply `f` to each index of `s`, keeping the results that exist.
pub open spec fn filter_map<A>(s: Seq<nat>, f: spec_fn(nat) -> Option<A>) -> Seq<A>
    decreases s.len(),
{
    if s.len() == 0 {
        Seq::empty()
    } else {
        let rest = filter_map(s.drop_last(), f);
        match f(s.last()) {
            Some(a) => rest.push(a),
            None => rest,
        }
    }
}

/// Concatenate `f` of each index of `s`.
pub open spec fn flat_map<A>(s: Seq<nat>, f: spec_fn(nat) -> Seq<A>) -> Seq<A>
    decreases s.len(),
{
    if s.len() == 0 {
        Seq::empty()
    } else {
        flat_map(s.drop_last(), f) + f(s.last())
    }
}

pub proof fn lemma_filter_map_step<A>(s: Seq<nat>, f: spec_fn(nat) -> Option<A>, k: int)
    requires
        0 <= k < s.len(),
    ensures
        filter_map(s.take(k + 1), f) == match f(s[k]) {
            Some(a) => filter_map(s.take(k), f).push(a),
            None => filter_map(s.take(k), f),
        },
{
    assert(s.take(k + 1).drop_last() =~= s.take(k));
}

pub proof fn lemma_flat_map_step<A>(s: Seq<nat>, f: spec_fn(nat) -> Seq<A>, k: int)
    requires
        0 <= k < s.len(),
    ensures
        flat_map(s.take(k + 1), f) == flat_map(s.take(k), f) + f(s[k]),
{
    assert(s.take(k + 1).drop_last() =~= s.take(k));
}

/// Two filters that keep the same positions keep as many.
pub proof fn lemma_filter_map_same_len<A, B>(s: Seq<nat>, f: spec_fn(nat) -> Option<A>, g: spec_fn(nat) -> Option<B>)
    requires
        forall|x: nat| (#[trigger] f(x)) is Some <==> g(x) is Some,
    ensures
        filter_map(s, f).len() == filter_map(s, g).len(),
    decreases s.len(),
{
    if s.len() > 0 {
        lemma_filter_map_same_len(s.drop_last(), f, g);
        assert(f(s.last()) is Some <==> g(s.last()) is Some);
    }
}

/// What holds of every item that each position gives holds of all of them.
pub proof fn lemma_flat_map_all<A>(s: Seq<nat>, f: spec_fn(nat) -> Seq<A>, p: spec_fn(A) -> bool)
    requires
        forall|k: int, j: int| 0 <= k < s.len() && 0 <= j < f(s[k]).len() ==> p(#[trigger] f(s[k])[j]),
    ensures
        forall|j: int| 0 <= j < flat_map(s, f).len() ==> p(#[trigger] flat_map(s, f)[j]),
    decreases s.len(),
{
    if s.len() > 0 {
        let init = s.drop_last();
        assert forall|k: int, j: int| 0 <= k < init.len() && 0 <= j < f(init[k]).len() implies p(#[trigger] f(init[k])[j]) by {
            assert(init[k] == s[k]);
        }
        lemma_flat_map_all(init, f, p);
        let a = flat_map(init, f);
        let b = f(s.last());
        assert forall|j: int| 0 <= j < flat_map(s, f).len() implies p(#[trigger] flat_map(s, f)[j]) by {
            if j < a.len() {
                assert(flat_map(s, f)[j] == a[j]);
            } else {
                assert(flat_map(s, f)[j] == b[j - a.len()]);
                assert(p(f(s[s.len() - 1])[j - a.len()]));
            }
        }
    }
}

/// What a position gives is among what the filter keeps.
pub proof fn lemma_filter_map_contains<A>(s: Seq<nat>, f: spec_fn(nat) -> Option<A>, k: int)
    requires
        0 <= k < s.len(),
        f(s[k]) is Some,
    ensures
        filter_map(s, f).contains(f(s[k])->0),
    decreases s.len(),
{
    let init = s.drop_last();
    if k < s.len() - 1 {
        assert(init[k] == s[k]);
        lemma_filter_map_contains(init, f, k);
        let r = filter_map(init, f);
        let j = choose|j: int| 0 <= j < r.len() && r[j] == f(s[k])->0;
        match f(s.last()) {
            Some(a) => {
                assert(filter_map(s, f) == r.push(a));
                assert(filter_map(s, f)[j] == r[j]);
            },
            None => {},
        }
    } else {
        let r = filter_map(init, f);
        assert(filter_map(s, f) == r.push(f(s[k])->0));
        assert(filter_map(s, f)[r.len() as int] == f(s[k])->0);
    }
}

/// What holds of every item that a position gives holds of all of them.
pub proof fn lemma_filter_map_all<A>(s: Seq<nat>, f: spec_fn(nat) -> Option<A>, p: spec_fn(A) -> bool)
    requires
        forall|k: int| 0 <= k < s.len() ==> (#[trigger] f(s[k]) matches Some(a) ==> p(a)),
    ensures
        forall|j: int| 0 <= j < filter_map(s, f).len() ==> p(#[trigger] filter_map(s, f)[j]),
    decreases s.len(),
{
    if s.len() > 0 {
        let init = s.drop_last();
        assert forall|k: int| 0 <= k < init.len() implies (#[trigger] f(init[k]) matches Some(a) ==> p(a)) by {
            assert(init[k] == s[k]);
        }
        lemma_filter_map_all(init, f, p);
        let a = filter_map(init, f);
        assert(f(s[s.len() - 1]) matches Some(x) ==> p(x));
        assert forall|j: int| 0 <= j < filter_map(s, f).len() implies p(#[trigger] filter_map(s, f)[j]) by {
            if j < a.len() {
                assert(filter_map(s, f)[j] == a[j]);
            }
        }
    }
}

pub proof fn lemma_take_full<A>(s: Seq<A>)
    ensures
        s.take(s.len() as int) == s,
{
    assert(s.take(s.len() as int) =~= s);
}

/// A text replacement.
pub struct TextEdit {
    pub range: Range,
    pub new_text: String,
}

pub struct TextEditView {
    pub range: Range,
    pub new_text: Seq<char>,
}

impl View for TextEdit {
    type V = TextEditView;

    open spec fn view(&self) -> TextEditView {
        TextEditView { range: self.range, new_text: self.new_text@ }
    }
}

/// A command for the client to run, with its string arguments.
pub struct Command {
    pub title: String,
    pub command: String,
    pub arguments: Vec<String>,
}

pub struct CommandView {
    pub title: Seq<char>,
    pub command: Seq<char>,
    pub arguments: Seq<Seq<char>>,
}

impl View for Command {
    type V = CommandView;

    open spec fn view(&self) -> CommandView {
        CommandView {
            title: self.title@,
            command: self.command@,
            arguments: self.arguments@.map_values(|a: String| a@),
        }
    }
}

#[derive(Debug, Clone, Copy, PartialEq, Eq, Structural)]
pub enum ActionKind {
    Refactor,
    QuickFix,
    Source,
}

/// A code action: edits to the document it was asked for, or a command.
pub struct CodeAction {
    pub title: String,
    pub kind: ActionKind,
    pub edits: Vec<TextEdit>,
    pub command: Option<Command>,
    pub is_preferred: bool,
}

pub struct CodeActionView {
    pub title: Seq<char>,
    pub kind: ActionKind,
    pub edits: Seq<TextEditView>,
    pub command: Option<CommandView>,
    pub is_preferred: bool,
}

impl View for CodeAction {
    type V = CodeActionView;

    open spec fn view(&self) -> CodeActionView {
        CodeActionView {
            title: self.title@,
            kind: self.kind,
            edits: self.edits@.map_values(|e: TextEdit| e@),
            command: match self.command {
                Some(c) => Some(c@),
                None => None,
            },
            is_preferred: self.is_preferred,
        }
    }
}

/// A code lens: a label shown at a range.
pub struct CodeLens {
    pub range: Range,
    pub title: String,
}

pub struct CodeLensView {
    pub range: Range,
    pub title: Seq<char>,
}

impl View for CodeLens {
    type V = CodeLensView;

    open spec fn view(&self) -> CodeLensView {
        CodeLensView { range: self.range, title: self.title@ }
    }
}

#[derive(Debug, Clone, Copy, PartialEq, Eq, Structural)]
pub enum Severity {
    Error,
    Warning,
    Hint,
}

/// A diagnostic; its source is this server.
pub struct Diagnostic {
    pub range: Range,
    pub severity: Severity,
    pub code: String,
    pub message: String,
}

pub struct DiagnosticView {
    pub range: Range,
    pub severity: Severity,
    pub code: Seq<char>,
    pub message: Seq<char>,
}

impl View for Diagnostic {
    type V = DiagnosticView;

    open spec fn view(&self) -> DiagnosticView {
        DiagnosticView {
            range: self.range,
            severity: self.severity,
            code: self.code@,
            message: self.message@,
        }
    }
}

/// A link from a range of the document to a URI.
pub struct DocumentLink {
    pub range: Range,
    pub target: String,
    pub tooltip: String,
}

pub struct DocumentLinkView {
    pub range: Range,
    pub target: Seq<char>,
    pub tooltip: Seq<char>,
}

impl View for DocumentLink {
    type V = DocumentLinkView;

    open spec fn view(&self) -> DocumentLinkView {
        DocumentLinkView { range: self.range, target: self.target@, tooltip: self.tooltip@ }
    }
}

/// A foldable region.
pub struct FoldingRange {
    pub start_line: u32,
    pub start_character: Option<u32>,
    pub end_line: u32,
    pub end_character: Option<u32>,
    pub collapsed_text: Option<String>,
}

pub struct FoldingRangeView {
    pub start_line: u32,
    pub start_character: Option<u32>,
    pub end_line: u32,
    pub end_character: Option<u32>,
    pub collapsed_text: Option<Seq<char>>,
}

impl View for FoldingRange {
    type V = FoldingRangeView;

    open spec fn view(&self) -> FoldingRangeView {
        FoldingRangeView {
            start_line: self.start_line,
            start_character: self.start_character,
            end_line: self.end_line,
            end_character: self.end_character,
            collapsed_text: match self.collapsed_text {
                Some(t) => Some(t@),
                None => None,
            },
        }
    }
}

#[derive(Debug, Clone, Copy, PartialEq, Eq, Structural)]
pub enum HighlightKind {
    Read,
    Write,
}

#[derive(Debug, Clone, Copy, PartialEq, Eq, Structural)]
pub struct DocumentHighlight {
    pub range: Range,
    pub kind: HighlightKind,
}

/// Hover text (markdown) and the range it is about.
pub struct Hover {
    pub contents: String,
    pub range: Option<Range>,
}

pub struct HoverView {
    pub contents: Seq<char>,
    pub range: Option<Range>,
}

impl View for Hover {
    type V = HoverView;

    open spec fn view(&self) -> HoverView {
        HoverView { contents: self.contents@, range: self.range }
    }
}

/// A label shown inline at a position.
pub struct InlayHint {
    pub position: Position,
    pub label: String,
}

pub struct InlayHintView {
    pub position: Position,
    pub label: Seq<char>,
}

impl View for InlayHint {
    type V = InlayHintView;

    open spec fn view(&self) -> InlayHintView {
        InlayHintView { position: self.position, label: self.label@ }
    }
}

/// A semantic token, placed relative to the one before it.
#[derive(Debug, Clone, Copy, PartialEq, Eq, Structural)]
pub struct SemanticToken {
    pub delta_line: u32,
    pub delta_start: u32,
    pub length: u32,
    pub token_type: u32,
}

/// Where a client places the first `n` tokens' last one: each token's line
/// is the previous line plus its line delta, its column the previous column
/// plus its start delta on the same line, or its start delta on a new line.
pub open spec fn decode_tokens(toks: Seq<SemanticToken>, n: nat) -> (u32, u32)
    decreases n,
{
    if n == 0 || n > toks.len() {
        (0, 0)
    } else {
        let (line, col) = decode_tokens(toks, (n - 1) as nat);
        let t = toks[n - 1];
        if t.delta_line == 0 {
            (line, wrapping_add(col, t.delta_start))
        } else {
            (wrapping_add(line, t.delta_line), t.delta_start)
        }
    }
}

/// A token placed relative to the one before it at (`prev_line`,
/// `prev_col`) decodes to where it was placed.
pub proof fn lemma_decode_relative(toks: Seq<SemanticToken>, prev_line: u32, prev_col: u32, line: u32, col: u32, length: u32, ty: u32)
    requires
        decode_tokens(toks, toks.len()) == (prev_line, prev_col),
    ensures
        ({
            let delta_line = wrapping_sub(line, prev_line);
            let delta_start = if delta_line == 0 {
                wrapping_sub(col, prev_col)
            } else {
                col
            };
            let next = toks.push(SemanticToken { delta_line, delta_start, length, token_type: ty });
            decode_tokens(next, next.len()) == (line, col)
        }),
{
    let delta_line = wrapping_sub(line, prev_line);
    let delta_start = if delta_line == 0 {
        wrapping_sub(col, prev_col)
    } else {
        col
    };
    let next = toks.push(SemanticToken { delta_line, delta_start, length, token_type: ty });
    lemma_decode_prefix(next, toks, toks.len());
}

pub proof fn lemma_decode_prefix(a: Seq<SemanticToken>, b: Seq<SemanticToken>, n: nat)
    requires
        n <= a.len(),
        n <= b.len(),
        forall|k: int| 0 <= k < n ==> a[k] == b[k],
    ensures
        decode_tokens(a, n) == decode_tokens(b, n),
    decreases n,
{
    if n > 0 {
        lemma_decode_prefix(a, b, (n - 1) as nat);
    }
}

#[derive(Debug, Clone, Copy, PartialEq, Eq, Structural)]
pub enum SymbolKind {
    File,
    Struct,
}

/// An outline entry.
pub struct DocumentSymbol {
    pub name: String,
    pub detail: Option<String>,
    pub kind: SymbolKind,
    pub range: Range,
    pub selection_range: Range,
    pub children: Vec<DocumentSymbol>,
}

pub struct SymbolLeafView {
    pub name: Seq<char>,
    pub detail: Option<Seq<char>>,
    pub kind: SymbolKind,
    pub range: Range,
    pub selection_range: Range,
}

impl DocumentSymbol {
    /// The symbol without its children.
    pub open spec fn leaf(&self) -> SymbolLeafView {
        SymbolLeafView {
            name: self.name@,
            detail: match self.detail {
                Some(d) => Some(d@),
                None => None,
            },
            kind: self.kind,
            range: self.range,
            selection_range: self.selection_range,
        }
    }
}

/// A completion proposal: the name is label and insert text alike.
pub struct CompletionItem {
    pub label: String,
}

} // verus!
