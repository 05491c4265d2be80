//! Code actions for quilt series files: apply or unapply a patch (quilt
//! push and pop), all of them at once, remove an entry from the series, and
//! delete a patch (quilt delete).
use vstd::prelude::*;
use vstd::string::{StringExecFns, StringSliceAdditionalSpecFns};
use crate::code_actions::overlaps;
use crate::lsp::{flat_map, lemma_flat_map_step, lemma_take_full, ActionKind, CodeAction, CodeActionView, Command, CommandView, TextEdit, TextEditView};
use crate::position::{fits, range_is_ordered, spec_position_to_offset, try_lsp_range_to_text_range, Range, TextRange};
use crate::quilt::{applied_patches, names_contain, nonempty_lines};
use crate::series::{entry_name, patch_entries, SeriesDocument};
use crate::syntax::{lsp_range, ElementView};
use crate::text::{push_str, str_eq};

verus! {

/// Command identifiers for quilt operations.
pub const CMD_QUILT_PUSH: &'static str = "diff-lsp.quiltPush";
pub const CMD_QUILT_POP: &'static str = "diff-lsp.quiltPop";
pub const CMD_QUILT_PUSH_ALL: &'static str = "diff-lsp.quiltPushAll";
pub const CMD_QUILT_POP_ALL: &'static str = "diff-lsp.quiltPopAll";
pub const CMD_QUILT_DELETE: &'static str = "diff-lsp.quiltDelete";
pub const CMD_QUILT_REFRESH: &'static str = "diff-lsp.quiltRefresh";
pub const CMD_QUILT_NEW: &'static str = "diff-lsp.quiltNew";
pub const CMD_QUILT_IMPORT: &'static str = "diff-lsp.quiltImport";

/// The command identifiers this server offers to its client.
pub fn commands() -> (r: Vec<String>)
    ensures
        r@.map_values(|s: String| s@) == seq![
            CMD_QUILT_PUSH@,
            CMD_QUILT_POP@,
            CMD_QUILT_PUSH_ALL@,
            CMD_QUILT_POP_ALL@,
            CMD_QUILT_DELETE@,
            CMD_QUILT_REFRESH@,
        ],
{
    let mut v: Vec<String> = Vec::new();
    v.push(String::from_str(CMD_QUILT_PUSH));
    v.push(String::from_str(CMD_QUILT_POP));
    v.push(String::from_str(CMD_QUILT_PUSH_ALL));
    v.push(String::from_str(CMD_QUILT_POP_ALL));
    v.push(String::from_str(CMD_QUILT_DELETE));
    v.push(String::from_str(CMD_QUILT_REFRESH));
    assert(v@.map_values(|s: String| s@) =~= seq![
        CMD_QUILT_PUSH@,
        CMD_QUILT_POP@,
        CMD_QUILT_PUSH_ALL@,
        CMD_QUILT_POP_ALL@,
        CMD_QUILT_DELETE@,
        CMD_QUILT_REFRESH@,
    ]);
    v
}

/// The commands the server advertises to its client: those of series
/// files, then creating and importing a patch.
pub fn advertised_commands() -> (r: Vec<String>)
    ensures
        r@.map_values(|s: String| s@) == seq![
            CMD_QUILT_PUSH@,
            CMD_QUILT_POP@,
            CMD_QUILT_PUSH_ALL@,
            CMD_QUILT_POP_ALL@,
            CMD_QUILT_DELETE@,
            CMD_QUILT_REFRESH@,
            CMD_QUILT_NEW@,
            CMD_QUILT_IMPORT@,
        ],
{
    let mut v = commands();
    let ghost before = v@;
    v.push(String::from_str(CMD_QUILT_NEW));
    v.push(String::from_str(CMD_QUILT_IMPORT));
    assert(before.map_values(|s: String| s@).len() == 6);
    assert(v@.map_values(|s: String| s@) =~= before.map_values(|s: String| s@).push(CMD_QUILT_NEW@).push(CMD_QUILT_IMPORT@));
    v
}

/// A `source` action that runs a command.
pub open spec fn command_action(title: Seq<char>, command_title: Seq<char>, command: Seq<char>, arguments: Seq<Seq<char>>) -> CodeActionView {
    CodeActionView {
        title,
        kind: ActionKind::Source,
        edits: Seq::empty(),
        command: Some(CommandView { title: command_title, command, arguments }),
        is_preferred: false,
    }
}

pub open spec fn push_action(uri: Seq<char>, name: Seq<char>) -> CodeActionView {
    command_action(
        "Apply patch (quilt push "@ + name + ")"@,
        "Apply patch "@ + name,
        CMD_QUILT_PUSH@,
        seq![uri, name],
    )
}

pub open spec fn pop_action(uri: Seq<char>, name: Seq<char>) -> CodeActionView {
    command_action(
        "Unapply patch (quilt pop "@ + name + ")"@,
        "Unapply patch "@ + name,
        CMD_QUILT_POP@,
        seq![uri, name],
    )
}

pub open spec fn delete_action(uri: Seq<char>, name: Seq<char>) -> CodeActionView {
    command_action(
        "Delete patch (quilt delete "@ + name + ")"@,
        "Delete patch "@ + name,
        CMD_QUILT_DELETE@,
        seq![uri, name],
    )
}

/// Removing an entry from the series: its span replaced by nothing.
pub open spec fn remove_action(bytes: Seq<u8>, e: ElementView, name: Seq<char>) -> CodeActionView {
    CodeActionView {
        title: "Remove '"@ + name + "' from series"@,
        kind: ActionKind::Refactor,
        edits: seq![TextEditView { range: lsp_range(bytes, e), new_text: Seq::empty() }],
        command: None,
        is_preferred: false,
    }
}

pub open spec fn push_all_action(uri: Seq<char>) -> CodeActionView {
    command_action("Apply all patches (quilt push -a)"@, "Apply all patches"@, CMD_QUILT_PUSH_ALL@, seq![uri])
}

pub open spec fn pop_all_action(uri: Seq<char>) -> CodeActionView {
    command_action("Unapply all patches (quilt pop -a)"@, "Unapply all patches"@, CMD_QUILT_POP_ALL@, seq![uri])
}

/// The actions on a named patch entry that the range touches: push or pop,
/// then remove, then (when not applied) delete.
pub open spec fn entry_actions(t: Seq<ElementView>, bytes: Seq<u8>, tr: TextRange, uri: Seq<char>, applied: Seq<Seq<char>>, pe: nat) -> Seq<CodeActionView> {
    if !overlaps(t[pe as int], tr) {
        Seq::empty()
    } else {
        match entry_name(t, pe) {
            None => Seq::empty(),
            Some(name) => {
                let is_applied = applied.contains(name);
                let first = if is_applied {
                    pop_action(uri, name)
                } else {
                    push_action(uri, name)
                };
                let last: Seq<CodeActionView> = if is_applied {
                    Seq::empty()
                } else {
                    seq![delete_action(uri, name)]
                };
                seq![first, remove_action(bytes, t[pe as int], name)] + last
            },
        }
    }
}

/// Whether a name exists and is not among the applied patches.
pub open spec fn names_unapplied(name: Option<Seq<char>>, applied: Seq<Seq<char>>) -> bool {
    match name {
        Some(n) => !applied.contains(n),
        None => false,
    }
}

/// Whether some named patch entry is not applied.
pub open spec fn has_unapplied(t: Seq<ElementView>, applied: Seq<Seq<char>>) -> bool {
    exists|k: int|
        0 <= k < patch_entries(t).len() && names_unapplied(#[trigger] entry_name(t, patch_entries(t)[k]), applied)
}

/// The byte range of an LSP range, when both ends lie in the text.
pub open spec fn spec_text_range(bytes: Seq<u8>, range: Range) -> Option<TextRange> {
    match (spec_position_to_offset(bytes, range.start), spec_position_to_offset(bytes, range.end)) {
        (Some(s), Some(e)) => Some(TextRange { start: s as u32, end: e as u32 }),
        _ => None,
    }
}

/// The actions at a range: those of each patch entry it touches and then,
/// when there are any, apply-all (if a patch is not applied) and unapply-all
/// (if one is).
pub open spec fn spec_series_code_actions(t: Seq<ElementView>, bytes: Seq<u8>, range: Range, uri: Seq<char>, applied_content: Option<Seq<char>>) -> Seq<CodeActionView> {
    match spec_text_range(bytes, range) {
        None => Seq::empty(),
        Some(tr) => {
            let applied = match applied_content {
                Some(c) => nonempty_lines(c),
                None => Seq::empty(),
            };
            let per = flat_map(patch_entries(t), |pe: nat| entry_actions(t, bytes, tr, uri, applied, pe));
            if per.len() == 0 {
                per
            } else {
                let all_push: Seq<CodeActionView> = if has_unapplied(t, applied) {
                    seq![push_all_action(uri)]
                } else {
                    Seq::empty()
                };
                let all_pop: Seq<CodeActionView> = if applied.len() > 0 {
                    seq![pop_all_action(uri)]
                } else {
                    Seq::empty()
                };
                per + all_push + all_pop
            }
        },
    }
}

fn string_pair(a: &str, b: &str) -> (r: Vec<String>)
    ensures
        r@.map_values(|s: String| s@) == seq![a@, b@],
{
    let mut v: Vec<String> = Vec::new();
    v.push(String::from_str(a));
    v.push(String::from_str(b));
    assert(v@.map_values(|s: String| s@) =~= seq![a@, b@]);
    v
}

fn string_single(a: &str) -> (r: Vec<String>)
    ensures
        r@.map_values(|s: String| s@) == seq![a@],
{
    let mut v: Vec<String> = Vec::new();
    v.push(String::from_str(a));
    assert(v@.map_values(|s: String| s@) =~= seq![a@]);
    v
}

/// `<a><name><b>`.
fn around(a: &str, name: &str, b: &str) -> (r: String)
    ensures
        r@ == a@ + name@ + b@,
{
    let mut s = String::new();
    push_str(&mut s, a);
    push_str(&mut s, name);
    push_str(&mut s, b);
    s
}

fn command_action_exec(title: String, command_title: String, command: &str, arguments: Vec<String>) -> (r: CodeAction)
    ensures
        r@ == command_action(title@, command_title@, command@, arguments@.map_values(|s: String| s@)),
{
    let r = CodeAction {
        title,
        kind: ActionKind::Source,
        edits: Vec::new(),
        command: Some(Command { title: command_title, command: String::from_str(command), arguments }),
        is_preferred: false,
    };
    assert(r@.edits =~= Seq::<TextEditView>::empty());
    r
}

fn entry_command(verb: &str, title_head: &str, command: &str, uri: &str, name: &str) -> (r: CodeAction)
    ensures
        r@ == command_action(title_head@ + name@ + ")"@, verb@ + name@, command@, seq![uri@, name@]),
{
    let mut command_title = String::new();
    push_str(&mut command_title, verb);
    push_str(&mut command_title, name);
    command_action_exec(around(title_head, name, ")"), command_title, command, string_pair(uri, name))
}

/// Get code actions for a series file at the given range, given the text of
/// `.pc/applied-patches` if there is one.
pub fn get_series_code_actions(series: &SeriesDocument, source_text: &str, range: Range, uri: &str, applied_content: Option<&str>) -> (r: Vec<CodeAction>)
    requires
        fits(source_text.spec_bytes()),
        range_is_ordered(source_text.spec_bytes(), range),
    ensures
        r@.map_values(|a: CodeAction| a@) == spec_series_code_actions(
            series.tree@,
            source_text.spec_bytes(),
            range,
            uri@,
            match applied_content {
                Some(c) => Some(c@),
                None => None,
            },
        ),
{
    let ghost t = series.tree@;
    let ghost bytes = source_text.spec_bytes();
    let tr = match try_lsp_range_to_text_range(source_text, &range) {
        Some(tr) => tr,
        None => return Vec::new(),
    };
    let applied: Vec<String> = match applied_content {
        Some(c) => applied_patches(c),
        None => Vec::new(),
    };
    let ghost av = match applied_content {
        Some(c) => nonempty_lines(c@),
        None => Seq::<Seq<char>>::empty(),
    };
    assert(applied@.map_values(|s: String| s@) =~= av);
    let pes = series.patch_entries();
    let ghost pf = patch_entries(t);
    let ghost g = |pe: nat| entry_actions(t, bytes, tr, uri@, av, pe);
    let mut out: Vec<CodeAction> = Vec::new();
    let mut unapplied_seen = false;
    let mut i: usize = 0;
    while i < pes.len()
        invariant
            t == series.tree@,
            bytes == source_text.spec_bytes(),
            fits(bytes),
            applied@.map_values(|s: String| s@) == av,
            pf == patch_entries(t),
            pes@.map_values(|c: usize| c as nat) == pf,
            forall|k: int| 0 <= k < pes@.len() ==> #[trigger] pes@[k] < t.len(),
            g == (|pe: nat| entry_actions(t, bytes, tr, uri@, av, pe)),
            i <= pes@.len(),
            out@.map_values(|a: CodeAction| a@) == flat_map(pf.take(i as int), g),
            unapplied_seen <==> exists|k: int|
                0 <= k < i && names_unapplied(#[trigger] entry_name(t, pf[k]), av),
        decreases pes@.len() - i,
    {
        proof {
            lemma_flat_map_step(pf, g, i as int);
        }
        let pe = pes[i];
        assert(pf[i as int] == pe as nat);
        let ghost before = out@.map_values(|a: CodeAction| a@);
        let name_opt = series.entry_name(pe);
        if let Some(name) = &name_opt {
            let is_applied = names_contain(&applied, name.as_str());
            if !is_applied {
                unapplied_seen = true;
            }
            let span = series.tree.range_of(pe);
            if !(span.end < tr.start || span.start > tr.end) {
                if is_applied {
                    out.push(entry_command("Unapply patch ", "Unapply patch (quilt pop ", CMD_QUILT_POP, uri, name.as_str()));
                } else {
                    out.push(entry_command("Apply patch ", "Apply patch (quilt push ", CMD_QUILT_PUSH, uri, name.as_str()));
                }
                let edit = TextEdit { range: series.tree.lsp_range_of(source_text, pe), new_text: String::new() };
                let mut edits = Vec::new();
                edits.push(edit);
                let remove = CodeAction { title: around("Remove '", name.as_str(), "' from series"), kind: ActionKind::Refactor, edits, command: None, is_preferred: false };
                assert(remove@.edits =~= seq![edit@]);
                assert(remove@ == remove_action(bytes, t[pe as int], name@));
                out.push(remove);
                if !is_applied {
                    out.push(entry_command("Delete patch ", "Delete patch (quilt delete ", CMD_QUILT_DELETE, uri, name.as_str()));
                }
            }
        }
        assert(out@.map_values(|a: CodeAction| a@) =~= before + g(pe as nat));
        i = i + 1;
    }
    proof {
        lemma_take_full(pf);
    }
    if out.len() > 0 {
        if unapplied_seen {
            let s = command_action_exec(String::from_str("Apply all patches (quilt push -a)"), String::from_str("Apply all patches"), CMD_QUILT_PUSH_ALL, string_single(uri));
            out.push(s);
        }
        if applied.len() > 0 {
            let s = command_action_exec(String::from_str("Unapply all patches (quilt pop -a)"), String::from_str("Unapply all patches"), CMD_QUILT_POP_ALL, string_single(uri));
            out.push(s);
        }
    }
    out
}

/// An applied patch is offered to be unapplied and removed, never to be
/// applied or deleted; a patch not applied is offered to be applied,
/// removed and deleted.
pub proof fn lemma_actions_follow_applied(t: Seq<ElementView>, bytes: Seq<u8>, tr: TextRange, uri: Seq<char>, applied: Seq<Seq<char>>, pe: nat)
    requires
        overlaps(t[pe as int], tr),
        entry_name(t, pe) is Some,
    ensures
        applied.contains(entry_name(t, pe).unwrap()) ==> entry_actions(t, bytes, tr, uri, applied, pe) == seq![
            pop_action(uri, entry_name(t, pe).unwrap()),
            remove_action(bytes, t[pe as int], entry_name(t, pe).unwrap()),
        ],
        !applied.contains(entry_name(t, pe).unwrap()) ==> entry_actions(t, bytes, tr, uri, applied, pe) == seq![
            push_action(uri, entry_name(t, pe).unwrap()),
            remove_action(bytes, t[pe as int], entry_name(t, pe).unwrap()),
            delete_action(uri, entry_name(t, pe).unwrap()),
        ],
{
    let name = entry_name(t, pe).unwrap();
    if applied.contains(name) {
        assert(entry_actions(t, bytes, tr, uri, applied, pe) =~= seq![pop_action(uri, name), remove_action(bytes, t[pe as int], name)]);
    } else {
        assert(entry_actions(t, bytes, tr, uri, applied, pe) =~= seq![
            push_action(uri, name),
            remove_action(bytes, t[pe as int], name),
            delete_action(uri, name),
        ]);
    }
}

} // verus!
