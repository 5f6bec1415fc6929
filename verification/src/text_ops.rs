//! The edit operations that make up a note, and the two events a text widget
//! raises.

use vstd::prelude::*;

verus! {

/// Payload of [`Ops::Insert`]: the inserted characters and the formatting tag
/// that was current when they were typed.
#[derive(Debug, Clone, PartialEq, Eq)]
pub struct InsertOpsData {
    pub content: String,
    pub tag: String,
}

impl InsertOpsData {
    pub fn new(content: String, tag: String) -> (data: Self)
        ensures
            data.content == content,
            data.tag == tag,
    {
        InsertOpsData { content, tag }
    }
}

/// One entry of the operation log.
///
/// Offsets count characters from the start of the document as it stands once
/// every earlier entry of the log has been applied. Ranges are half-open.
#[derive(Debug, PartialEq, Eq)]
pub enum Ops {
    /// Insert text at the cursor.
    Insert(InsertOpsData),
    /// Remove the characters in `[start, end)`.
    Delete((i32, i32)),
    /// Move the cursor.
    MoveCursor(i32),
    /// Make the named tag the one that later insertions carry.
    SelectColorTag(String),
    /// Apply the named tag over `[start, end)`, leaving the text as it is.
    ApplyTag((String, i32, i32)),
}

/// What an operation is, with its strings as character sequences.
pub enum OpModel {
    Insert { content: Seq<char>, tag: Seq<char> },
    Delete { start: i32, end: i32 },
    MoveCursor { position: i32 },
    SelectColorTag { tag: Seq<char> },
    ApplyTag { tag: Seq<char>, start: i32, end: i32 },
}

impl View for Ops {
    type V = OpModel;

    open spec fn view(&self) -> OpModel {
        match *self {
            Ops::Insert(data) => OpModel::Insert { content: data.content@, tag: data.tag@ },
            Ops::Delete(range) => OpModel::Delete { start: range.0, end: range.1 },
            Ops::MoveCursor(position) => OpModel::MoveCursor { position },
            Ops::SelectColorTag(tag) => OpModel::SelectColorTag { tag: tag@ },
            Ops::ApplyTag(span) => OpModel::ApplyTag { tag: span.0@, start: span.1, end: span.2 },
        }
    }
}

/// The models of a sequence of operations, entry by entry.
pub open spec fn ops_view(ops: Seq<Ops>) -> Seq<OpModel> {
    Seq::new(ops.len(), |i: int| ops[i]@)
}

impl Ops {
    /// A copy of this operation.
    pub fn duplicate(&self) -> (copy: Ops)
        ensures
            copy@ == self@,
    {
        match self {
            Ops::Insert(data) => Ops::Insert(
                InsertOpsData { content: data.content.clone(), tag: data.tag.clone() },
            ),
            Ops::Delete(range) => Ops::Delete((range.0, range.1)),
            Ops::MoveCursor(position) => Ops::MoveCursor(*position),
            Ops::SelectColorTag(tag) => Ops::SelectColorTag(tag.clone()),
            Ops::ApplyTag(span) => Ops::ApplyTag((span.0.clone(), span.1, span.2)),
        }
    }
}

impl Clone for Ops {
    fn clone(&self) -> (copy: Self)
        ensures
            copy@ == self@,
    {
        self.duplicate()
    }
}

/// Raised by the text widget when characters enter the buffer at `offset`.
pub struct InsertTextEventData {
    pub offset: i32,
    pub content: String,
}

impl InsertTextEventData {
    pub fn new(offset: i32, content: &str) -> (event: Self)
        ensures
            event.offset == offset,
            event.content@ == content@,
    {
        InsertTextEventData { offset, content: content.to_owned() }
    }
}

/// Raised by the text widget when the range `[start_offset, end_offset)`
/// leaves the buffer.
pub struct DeleteTextEventData {
    pub start_offset: i32,
    pub end_offset: i32,
}

impl DeleteTextEventData {
    pub fn new(start_offset: i32, end_offset: i32) -> (event: Self)
        ensures
            event.start_offset == start_offset,
            event.end_offset == end_offset,
    {
        DeleteTextEventData { start_offset, end_offset }
    }
}

} // verus!
