//! Inlay hints for quilt series files: after each patch entry, how many
//! files its patch changes and how many lines it adds and deletes.
use vstd::prelude::*;
use vstd::string::StringSliceAdditionalSpecFns;
use crate::code_actions::positions;
use crate::lsp::{filter_map, lemma_filter_map_step, lemma_take_full, InlayHint, InlayHintView};
use crate::position::{fits, range_is_ordered, try_lsp_range_to_text_range, Range, TextRange};
use crate::series::{named_entries, SeriesDocument};
use crate::series_code_actions::spec_text_range;
use crate::series_hover::{capped, change_stats, compute_stats, lemma_files_total_counts_lines, lines_in_files, patches_dir_from_uri, push_stats, spec_hover_dir, stats_text};
use crate::syntax::{lsp_range, spec_build_tree, ElementView};
use crate::patch::{patch_files, spec_patch_events, ADD_LINE, DELETE_LINE};
use crate::text::decimal;

verus! {

/// The hint of the `k`-th named patch entry: when its span meets the range
/// (if there is one) and its patch could be read and adds or deletes lines.
pub open spec fn entry_hint(t: Seq<ElementView>, bytes: Seq<u8>, tr: Option<TextRange>, contents: Seq<Option<Seq<char>>>, k: nat) -> Option<InlayHintView> {
    let e = t[named_entries(t)[k as int] as int];
    let outside = match tr {
        Some(r) => e.end <= r.start || e.start > r.end,
        None => false,
    };
    if outside {
        None
    } else {
        match contents[k as int] {
            None => None,
            Some(c) => {
                let (a, d, files) = change_stats(c);
                if a == 0 && d == 0 {
                    None
                } else {
                    Some(InlayHintView { position: lsp_range(bytes, e).end, label: seq![' '] + stats_text(files, a, d) })
                }
            },
        }
    }
}

/// The hints of a series file; none when its patches directory cannot be
/// told from its URI.
pub open spec fn spec_series_inlay_hints(t: Seq<ElementView>, bytes: Seq<u8>, range: Range, uri: Seq<char>, contents: Seq<Option<Seq<char>>>) -> Seq<InlayHintView> {
    match spec_hover_dir(uri) {
        None => Seq::empty(),
        Some(_) => filter_map(
            positions(named_entries(t).len()),
            |k: nat| entry_hint(t, bytes, spec_text_range(bytes, range), contents, k),
        ),
    }
}

/// Generate inlay hints for series entries within the given range, given
/// for each named patch entry, in order, the text of its patch file
/// (`None` when it could not be read).
pub fn get_series_inlay_hints(series: &SeriesDocument, source_text: &str, range: Range, uri: &str, contents: &Vec<Option<String>>) -> (r: Vec<InlayHint>)
    requires
        fits(source_text.spec_bytes()),
        range_is_ordered(source_text.spec_bytes(), range),
        contents@.len() == named_entries(series.tree@).len(),
        forall|k: int| 0 <= k < contents@.len() ==> (#[trigger] contents@[k] matches Some(c) ==> fits(vstd::utf8::encode_utf8(c@))),
    ensures
        r@.map_values(|h: InlayHint| h@) == spec_series_inlay_hints(
            series.tree@,
            source_text.spec_bytes(),
            range,
            uri@,
            contents@.map_values(|c: Option<String>| match c {
                Some(s) => Some(s@),
                None => None,
            }),
        ),
{
    let ghost t = series.tree@;
    let ghost bytes = source_text.spec_bytes();
    let ghost cv = contents@.map_values(|c: Option<String>| match c {
        Some(s) => Some(s@),
        None => None,
    });
    let tr = try_lsp_range_to_text_range(source_text, &range);
    assert(tr == spec_text_range(bytes, range));
    if patches_dir_from_uri(uri).is_none() {
        return Vec::new();
    }
    let (ids, _) = series.named_entries();
    let ghost g = |k: nat| entry_hint(t, bytes, tr, cv, k);
    let mut out: Vec<InlayHint> = Vec::new();
    let mut k: usize = 0;
    while k < ids.len()
        invariant
            t == series.tree@,
            bytes == source_text.spec_bytes(),
            fits(bytes),
            ids@.map_values(|c: usize| c as nat) == named_entries(t),
            forall|i: int| 0 <= i < ids@.len() ==> #[trigger] ids@[i] < t.len(),
            contents@.len() == ids@.len(),
            forall|j: int| 0 <= j < contents@.len() ==> (#[trigger] contents@[j] matches Some(c) ==> fits(vstd::utf8::encode_utf8(c@))),
            cv == contents@.map_values(|c: Option<String>| match c {
                Some(s) => Some(s@),
                None => None,
            }),
            g == (|k: nat| entry_hint(t, bytes, tr, cv, k)),
            k <= ids@.len(),
            out@.map_values(|h: InlayHint| h@) == filter_map(positions(ids@.len() as nat).take(k as int), g),
        decreases ids@.len() - k,
    {
        proof {
            lemma_filter_map_step(positions(ids@.len() as nat), g, k as int);
        }
        let pe = ids[k];
        assert(ids@[k as int] as nat == named_entries(t)[k as int]);
        let span = series.tree.range_of(pe);
        let outside = match tr {
            Some(r) => span.end <= r.start || span.start > r.end,
            None => false,
        };
        if !outside {
            if let Some(c) = &contents[k] {
                let cs = c.as_str();
                assert(fits(cs.spec_bytes()));
                let (a, d, files) = compute_stats(cs);
                if !(a == 0 && d == 0) {
                    let mut label = String::new();
                    label.push(' ');
                    push_stats(&mut label, files, a, d);
                    let hint = InlayHint { position: series.tree.lsp_range_of(source_text, pe).end, label };
                    let ghost before = out@;
                    out.push(hint);
                    assert(out@.map_values(|h: InlayHint| h@) =~= before.map_values(|h: InlayHint| h@).push(hint@));
                }
            }
        }
        k = k + 1;
    }
    proof {
        lemma_take_full(positions(ids@.len() as nat));
    }
    out
}

/// A named patch entry gets a hint exactly when its span meets the range,
/// its patch could be read, and that patch's hunks add or delete a line; the
/// hint stands at the end of the entry and reads ` <n> file(s), +<a> −<d>`
/// with the number of files of the patch and the lines its hunks add and
/// delete (each kept within `u64`).
pub proof fn lemma_entry_hint_counts(t: Seq<ElementView>, bytes: Seq<u8>, tr: Option<TextRange>, contents: Seq<Option<Seq<char>>>, k: nat)
    requires
        k < named_entries(t).len(),
        k < contents.len(),
    ensures
        ({
            let e = t[named_entries(t)[k as int] as int];
            let inside = match tr {
                Some(r) => !(e.end <= r.start || e.start > r.end),
                None => true,
            };
            match contents[k as int] {
                None => entry_hint(t, bytes, tr, contents, k) is None,
                Some(c) => {
                    let pt = spec_build_tree(spec_patch_events(c));
                    let fs = patch_files(pt);
                    let a = capped(lines_in_files(pt, fs, fs.len(), ADD_LINE));
                    let d = capped(lines_in_files(pt, fs, fs.len(), DELETE_LINE));
                    &&& entry_hint(t, bytes, tr, contents, k) is Some <==> inside && (a > 0 || d > 0)
                    &&& entry_hint(t, bytes, tr, contents, k) matches Some(h) ==> h == InlayHintView {
                        position: lsp_range(bytes, e).end,
                        label: " "@ + decimal(fs.len()) + " file"@ + (if fs.len() == 1 {
                            Seq::<char>::empty()
                        } else {
                            seq!['s']
                        }) + ", +"@ + decimal(a) + " −"@ + decimal(d),
                    }
                },
            }
        }),
{
    if let Some(c) = contents[k as int] {
        let pt = spec_build_tree(spec_patch_events(c));
        let fs = patch_files(pt);
        lemma_files_total_counts_lines(pt, fs, fs.len());
        let e = t[named_entries(t)[k as int] as int];
        let a = capped(lines_in_files(pt, fs, fs.len(), ADD_LINE));
        let d = capped(lines_in_files(pt, fs, fs.len(), DELETE_LINE));
        assert(seq![' '] + stats_text(fs.len(), a, d) =~= " "@ + decimal(fs.len()) + " file"@ + (if fs.len() == 1 {
            Seq::<char>::empty()
        } else {
            seq!['s']
        }) + ", +"@ + decimal(a) + " −"@ + decimal(d)) by {
            reveal_strlit(" ");
        }
    }
}

} // verus!
