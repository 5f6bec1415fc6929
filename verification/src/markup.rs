//! Laws of the detector: how it decides, and what its operations do to a
//! document.
//!
//! The detector computes its offsets from the start of the run and the place
//! of the typed marker. Where the markers stand at those places, its
//! operations, replayed in the order in which they are emitted, remove the
//! marker characters and nothing else, and lay the tag over exactly the text
//! that stood between them.

use vstd::prelude::*;
use crate::document::{DocModel, SpanModel};
use crate::replay::{apply_model, lemma_replay_push, replay_model};
use crate::tags::{BoldItalicTagState, Outcome};
use crate::text_ops::OpModel;

verus! {

/// Replaying three operations is applying them one after the other.
proof fn lemma_replay_three(doc: DocModel, first: OpModel, second: OpModel, third: OpModel)
    ensures
        replay_model(doc, seq![first, second, third]) == apply_model(
            apply_model(apply_model(doc, first), second),
            third,
        ),
{
    let none = Seq::<OpModel>::empty();
    lemma_replay_push(doc, none, first);
    lemma_replay_push(doc, none.push(first), second);
    lemma_replay_push(doc, none.push(first).push(second), third);
    assert(none.push(first).push(second).push(third) =~= seq![first, second, third]);
}

/// A completed single run: in a document that holds an opening marker at
/// `start_offset` and the closing marker just typed at `offset`, the emitted
/// operations remove those two characters, leave every other character in
/// place, and add one span of the single tag over the run between them.
pub proof fn lemma_commit_single(doc: DocModel, state: BoldItalicTagState, offset: i32)
    requires
        doc.wf(),
        0 <= state.start_offset,
        state.start_offset + 2 <= offset < doc.text.len(),
    ensures
        ({
            let start = state.start_offset as int;
            let run = doc.text.subrange(start + 1, offset as int);
            let after = replay_model(doc, state.emitted(Outcome::CommitSingle, offset));
            &&& after.wf()
            &&& after.text == doc.text.take(start) + run + doc.text.skip(offset + 1)
            &&& after.spans.len() == doc.spans.len() + 1
            &&& after.spans.last() == SpanModel {
                tag: state.single_asterisk_tag_name@,
                start,
                end: start + run.len(),
            }
            &&& after.current_tag == doc.current_tag
            &&& after.registry == doc.registry
        }),
{
    let start = state.start_offset as int;
    let ops = state.emitted(Outcome::CommitSingle, offset);
    lemma_replay_three(doc, ops[0], ops[1], ops[2]);
    assert(ops =~= seq![ops[0], ops[1], ops[2]]);
    let opened = apply_model(doc, ops[0]);
    assert(opened.text =~= doc.text.take(start) + doc.text.skip(start + 1));
    let closed = apply_model(opened, ops[1]);
    assert(closed.text =~= doc.text.take(start) + doc.text.subrange(start + 1, offset as int)
        + doc.text.skip(offset + 1));
    let after = apply_model(closed, ops[2]);
    crate::replay::lemma_apply_keeps(doc, ops[0]);
    crate::replay::lemma_apply_keeps(opened, ops[1]);
    crate::replay::lemma_apply_keeps(closed, ops[2]);
}

/// A completed double run: in a document that holds two opening markers from
/// `start_offset` on and two closing markers up to the one just typed at
/// `offset`, the emitted operations remove those four characters, leave every
/// other character in place, and add one span of the double tag over the
/// text between the pairs.
pub proof fn lemma_commit_double(doc: DocModel, state: BoldItalicTagState, offset: i32)
    requires
        doc.wf(),
        0 <= state.start_offset,
        state.start_offset + 4 <= offset < doc.text.len(),
    ensures
        ({
            let start = state.start_offset as int;
            let run = doc.text.subrange(start + 2, offset - 1);
            let after = replay_model(doc, state.emitted(Outcome::CommitDouble, offset));
            &&& after.wf()
            &&& after.text == doc.text.take(start) + run + doc.text.skip(offset + 1)
            &&& after.spans.len() == doc.spans.len() + 1
            &&& after.spans.last() == SpanModel {
                tag: state.double_asterisk_tag_name@,
                start,
                end: start + run.len(),
            }
            &&& after.current_tag == doc.current_tag
            &&& after.registry == doc.registry
        }),
{
    let start = state.start_offset as int;
    let ops = state.emitted(Outcome::CommitDouble, offset);
    lemma_replay_three(doc, ops[0], ops[1], ops[2]);
    assert(ops =~= seq![ops[0], ops[1], ops[2]]);
    let opened = apply_model(doc, ops[0]);
    assert(opened.text =~= doc.text.take(start) + doc.text.skip(start + 2));
    let closed = apply_model(opened, ops[1]);
    assert(closed.text =~= doc.text.take(start) + doc.text.subrange(start + 2, offset - 1)
        + doc.text.skip(offset + 1));
    let after = apply_model(closed, ops[2]);
    crate::replay::lemma_apply_keeps(doc, ops[0]);
    crate::replay::lemma_apply_keeps(opened, ops[1]);
    crate::replay::lemma_apply_keeps(closed, ops[2]);
}

/// Only a marker moves the detector: any other typed text leaves the state
/// as it is and emits nothing.
pub proof fn lemma_other_text_stays(
    state: BoldItalicTagState,
    offset: i32,
    run: Seq<char>,
    typed: Seq<char>,
)
    requires
        typed != seq!['*'],
    ensures
        state.on_char(run, typed) is Stay,
        state.after(state.on_char(run, typed), offset) == state,
        state.emitted(state.on_char(run, typed), offset) == Seq::<OpModel>::empty(),
{
    if typed.len() == 1 && typed[0] == '*' {
        assert(typed =~= seq!['*']);
    }
}

/// A run is neither completed nor validated next to a blank: a single run
/// that is completed, and a double run that is validated, neither begins nor
/// ends with one. Where a run that is not bare has a blank at an end, the
/// typed marker opens a new candidate where it stands.
pub proof fn lemma_blank_end_restarts(state: BoldItalicTagState, offset: i32, run: Seq<char>)
    ensures
        state.on_marker(run) is CommitSingle ==> crate::tags::tight(run),
        state.on_marker(run) is Validate ==> crate::tags::tight(run),
        (state.phase() is SingleMarkerOpen || state.phase() is DoubleMarkerOpen) && run.len() > 0
            && (crate::tags::is_blank(run.first()) || crate::tags::is_blank(run.last()))
            ==> state.on_marker(run) is Open && state.after(Outcome::Open, offset).phase()
            is SingleMarkerOpen && state.after(Outcome::Open, offset).start_offset == offset
            && state.emitted(Outcome::Open, offset) == Seq::<OpModel>::empty(),
{
}

/// Two adjacent markers make a double candidate, not an empty emphasis: a
/// marker behind a single opening marker and a bare run emits nothing and
/// keeps the start.
pub proof fn lemma_bare_run_escalates(state: BoldItalicTagState, offset: i32, run: Seq<char>)
    requires
        state.phase() is SingleMarkerOpen,
        crate::tags::bare(run),
    ensures
        state.on_marker(run) is Escalate,
        state.emitted(state.on_marker(run), offset) == Seq::<OpModel>::empty(),
        state.after(state.on_marker(run), offset).double_asterisk_active,
        state.after(state.on_marker(run), offset).start_offset == state.start_offset,
{
}

/// Operations are emitted exactly where a run is completed: by a marker
/// behind a single opening marker and a run that is neither bare nor has a
/// blank at an end, and by a marker behind a validated double run. The
/// detector is then left with no candidate.
pub proof fn lemma_commits(state: BoldItalicTagState, offset: i32, run: Seq<char>)
    ensures
        ({
            let outcome = state.on_marker(run);
            &&& outcome is CommitSingle <==> state.phase() is SingleMarkerOpen && !crate::tags::bare(
                run,
            ) && crate::tags::tight(run)
            &&& outcome is CommitDouble <==> state.phase() is SingleMarkerClosedPendingDouble
            &&& state.emitted(outcome, offset).len() == 3 <==> outcome is CommitSingle
                || outcome is CommitDouble
            &&& outcome is CommitSingle || outcome is CommitDouble ==> state.after(
                outcome,
                offset,
            ).phase() is Idle
        }),
{
}

/// `op` with its offsets moved by `by`.
pub open spec fn op_moved(op: OpModel, by: int) -> OpModel {
    match op {
        OpModel::Delete { start, end } => OpModel::Delete {
            start: (start + by) as i32,
            end: (end + by) as i32,
        },
        OpModel::ApplyTag { tag, start, end } => OpModel::ApplyTag {
            tag,
            start: (start + by) as i32,
            end: (end + by) as i32,
        },
        _ => op,
    }
}

/// The detector knows no place but the two it is given: with the start of
/// the run and the typed marker both moved by `by`, a marker does the same,
/// and every offset it emits is moved by `by`.
pub proof fn lemma_offsets_move(state: BoldItalicTagState, offset: i32, run: Seq<char>, by: int)
    requires
        i32::MIN <= state.start_offset + by <= i32::MAX,
        i32::MIN <= offset + by <= i32::MAX,
        state.in_range(state.on_marker(run), offset),
        i32::MIN <= state.start_offset + by + 2 <= i32::MAX,
        i32::MIN <= offset + by - 3 <= i32::MAX,
    ensures
        ({
            let moved = BoldItalicTagState {
                start_offset: (state.start_offset + by) as i32,
                ..state
            };
            let outcome = state.on_marker(run);
            let there = moved.emitted(outcome, (offset + by) as i32);
            let here = state.emitted(outcome, offset);
            &&& moved.on_marker(run) == outcome
            &&& there.len() == here.len()
            &&& forall|i: int| 0 <= i < here.len() ==> #[trigger] there[i] == op_moved(here[i], by)
        }),
{
}

} // verus!
