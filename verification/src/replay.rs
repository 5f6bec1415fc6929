//! The replay engine: a plain interpreter that carries out operations on a
//! document, one by one and in order.
//!
//! It decides nothing. The one thing it refuses is an operation that names a
//! tag the document's registry does not hold.

use vstd::prelude::*;
use crate::document::{DocModel, Document};
use crate::text_ops::{OpModel, Ops, ops_view};

verus! {

/// An operation names a tag that does not exist.
#[derive(Debug, PartialEq, Eq)]
pub struct InvariantViolation {
    /// Index of the operation in the sequence that was being replayed; `0`
    /// for a single operation.
    pub position: usize,
    /// The name that was not found.
    pub tag: String,
}

/// The tag that an operation names, if it names one.
pub open spec fn named_tag(op: OpModel) -> Option<Seq<char>> {
    match op {
        OpModel::Insert { tag, .. } => Some(tag),
        OpModel::SelectColorTag { tag } => Some(tag),
        OpModel::ApplyTag { tag, .. } => Some(tag),
        _ => None,
    }
}

/// Whether `doc` can carry out `op`: every tag it names exists.
pub open spec fn admissible(doc: DocModel, op: OpModel) -> bool {
    named_tag(op) matches Some(tag) ==> doc.knows(tag)
}

/// The document after `op`.
pub open spec fn apply_model(doc: DocModel, op: OpModel) -> DocModel {
    match op {
        OpModel::Insert { content, tag } => doc.insert_at_cursor(content, tag),
        OpModel::Delete { start, end } => doc.delete(start as int, end as int),
        OpModel::MoveCursor { position } => doc.place_cursor(position as int),
        OpModel::SelectColorTag { tag } => doc.select_tag(tag),
        OpModel::ApplyTag { tag, start, end } => doc.apply_tag(tag, start as int, end as int),
    }
}

/// The document after `ops`, carried out first to last.
pub open spec fn replay_model(doc: DocModel, ops: Seq<OpModel>) -> DocModel
    decreases ops.len(),
{
    if ops.len() == 0 {
        doc
    } else {
        apply_model(replay_model(doc, ops.drop_last()), ops.last())
    }
}

/// Carries out one operation on `into`.
///
/// An operation that names an unknown tag is refused and leaves the document
/// as it was.
pub fn apply(op: &Ops, into: &mut Document) -> (result: Result<(), InvariantViolation>)
    requires
        old(into)@.wf(),
    ensures
        final(into)@.wf(),
        match result {
            Ok(_) => admissible(old(into)@, op@) && final(into)@ == apply_model(old(into)@, op@),
            Err(violation) => !admissible(old(into)@, op@) && final(into)@ == old(into)@
                && violation.position == 0 && named_tag(op@) == Some(violation.tag@),
        },
{
    match op {
        Ops::Insert(data) => {
            if !into.lookup_tag(&data.tag) {
                return Err(InvariantViolation { position: 0, tag: data.tag.clone() });
            }
            into.insert_at_cursor(data.content.as_str(), &data.tag);
        },
        Ops::Delete(range) => {
            into.delete(range.0, range.1);
        },
        Ops::MoveCursor(position) => {
            into.place_cursor(*position);
        },
        Ops::SelectColorTag(tag) => {
            if !into.lookup_tag(tag) {
                return Err(InvariantViolation { position: 0, tag: tag.clone() });
            }
            into.select_tag(tag);
        },
        Ops::ApplyTag(span) => {
            if !into.lookup_tag(&span.0) {
                return Err(InvariantViolation { position: 0, tag: span.0.clone() });
            }
            into.apply_tag(&span.0, span.1, span.2);
        },
    }
    Ok(())
}

/// Carries out `log` on `into`, first entry to last.
///
/// Replay stops at the first operation that names an unknown tag: the
/// document then holds what the operations before it made of it.
pub fn hydrate(log: &Vec<Ops>, into: &mut Document) -> (result: Result<(), InvariantViolation>)
    requires
        old(into)@.wf(),
    ensures
        final(into)@.wf(),
        match result {
            Ok(_) => {
                &&& forall|i: int|
                    0 <= i < log.len() ==> admissible(old(into)@, #[trigger] log@[i]@)
                &&& final(into)@ == replay_model(old(into)@, ops_view(log@))
            },
            Err(violation) => {
                &&& violation.position < log.len()
                &&& forall|i: int|
                    0 <= i < violation.position ==> admissible(old(into)@, #[trigger] log@[i]@)
                &&& !admissible(old(into)@, log@[violation.position as int]@)
                &&& named_tag(log@[violation.position as int]@) == Some(violation.tag@)
                &&& final(into)@ == replay_model(
                    old(into)@,
                    ops_view(log@).take(violation.position as int),
                )
            },
        },
{
    let ghost ops = ops_view(log@);
    let mut i: usize = 0;
    assert(ops.take(0) =~= Seq::<OpModel>::empty());
    while i < log.len()
        invariant
            i <= log.len(),
            ops == ops_view(log@),
            into@.wf(),
            into@.registry == old(into)@.registry,
            into@ == replay_model(old(into)@, ops.take(i as int)),
            forall|j: int| 0 <= j < i ==> admissible(old(into)@, #[trigger] log@[j]@),
        decreases log.len() - i,
    {
        let ghost before = into@;
        proof {
            lemma_apply_keeps(before, log@[i as int]@);
            assert(ops.take(i + 1).drop_last() =~= ops.take(i as int));
            assert(ops.take(i + 1).last() == log@[i as int]@);
        }
        match apply(&log[i], into) {
            Ok(_) => {},
            Err(violation) => {
                return Err(InvariantViolation { position: i, tag: violation.tag });
            },
        }
        i += 1;
    }
    assert(ops.take(i as int) =~= ops);
    Ok(())
}

/// An operation leaves a well-formed document well-formed and its registry
/// as it was.
pub proof fn lemma_apply_keeps(doc: DocModel, op: OpModel)
    requires
        doc.wf(),
    ensures
        apply_model(doc, op).wf(),
        apply_model(doc, op).registry == doc.registry,
{
    let next = apply_model(doc, op);
    assert forall|i: int| 0 <= i < next.spans.len() implies 0 <= (#[trigger] next.spans[i]).start
        <= next.spans[i].end <= next.text.len() by {
        if i < doc.spans.len() {
            assert(0 <= doc.spans[i].start);
        }
    }
}

/// Replaying a well-formed document's log leaves it well-formed, whatever the
/// log holds, and never touches the registry.
pub proof fn lemma_replay_keeps(doc: DocModel, ops: Seq<OpModel>)
    requires
        doc.wf(),
    ensures
        replay_model(doc, ops).wf(),
        replay_model(doc, ops).registry == doc.registry,
    decreases ops.len(),
{
    if ops.len() > 0 {
        lemma_replay_keeps(doc, ops.drop_last());
        lemma_apply_keeps(replay_model(doc, ops.drop_last()), ops.last());
    }
}

/// Replaying nothing changes nothing.
pub proof fn lemma_replay_empty(doc: DocModel)
    ensures
        replay_model(doc, Seq::empty()) == doc,
{
}

/// Replay depends on nothing but the starting document and the log: two
/// replays of one log from equal documents end in equal documents, text,
/// cursor and spans alike.
pub proof fn lemma_replay_deterministic(first: DocModel, second: DocModel, ops: Seq<OpModel>)
    requires
        first == second,
    ensures
        replay_model(first, ops) == replay_model(second, ops),
        replay_model(first, ops).text == replay_model(second, ops).text,
        replay_model(first, ops).spans == replay_model(second, ops).spans,
{
}

/// A log is a strict sequence: replaying `head` and then `tail` is replaying
/// `head + tail`, so every prefix of a log yields the document from which the
/// rest continues.
pub proof fn lemma_replay_concat(doc: DocModel, head: Seq<OpModel>, tail: Seq<OpModel>)
    ensures
        replay_model(doc, head + tail) == replay_model(replay_model(doc, head), tail),
    decreases tail.len(),
{
    if tail.len() == 0 {
        assert(head + tail =~= head);
    } else {
        lemma_replay_concat(doc, head, tail.drop_last());
        assert((head + tail).drop_last() =~= head + tail.drop_last());
        assert((head + tail).last() == tail.last());
    }
}

/// Replaying one more operation is applying it to what the log before it
/// gave.
pub proof fn lemma_replay_push(doc: DocModel, ops: Seq<OpModel>, op: OpModel)
    ensures
        replay_model(doc, ops.push(op)) == apply_model(replay_model(doc, ops), op),
{
    assert(ops.push(op).drop_last() =~= ops);
}

} // verus!
