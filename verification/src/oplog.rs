//! The operation log: the edits of a note in the order in which they were
//! made. Nothing is ever removed from it or moved within it, so what a log
//! replays to can only be continued, never rewritten.

use vstd::prelude::*;
use crate::codec::{DecodeError, decoded, encode, load, log_bytes};
use crate::text_ops::{OpModel, Ops, ops_view};

verus! {

/// An append-only sequence of operations.
pub struct OperationLog {
    entries: Vec<Ops>,
}

impl View for OperationLog {
    type V = Seq<OpModel>;

    closed spec fn view(&self) -> Seq<OpModel> {
        ops_view(self.entries@)
    }
}

impl OperationLog {
    /// The empty log.
    pub fn new() -> (log: Self)
        ensures
            log@ == Seq::<OpModel>::empty(),
    {
        let log = OperationLog { entries: Vec::new() };
        assert(log@ =~= Seq::<OpModel>::empty());
        log
    }

    /// The number of operations.
    pub fn len(&self) -> (len: usize)
        ensures
            len == self@.len(),
    {
        self.entries.len()
    }

    /// Adds `op` at the end. What was there stays, in its order.
    pub fn append(&mut self, op: Ops)
        ensures
            final(self)@ == old(self)@.push(op@),
    {
        self.entries.push(op);
        assert(self@ =~= old(self)@.push(op@));
    }

    /// The operations, first to last.
    pub fn snapshot(&self) -> (entries: &Vec<Ops>)
        ensures
            ops_view(entries@) == self@,
    {
        &self.entries
    }

    /// The stored form of the log.
    pub fn save(&self) -> (bytes: Vec<u8>)
        ensures
            bytes@ == log_bytes(self@),
            decoded(bytes@) == Ok::<Seq<OpModel>, DecodeError>(self@),
    {
        encode(&self.entries)
    }

    /// The log that `bytes` store. Malformed bytes give an error and no log.
    pub fn load(bytes: &[u8]) -> (outcome: Result<Self, DecodeError>)
        ensures
            match outcome {
                Ok(log) => decoded(bytes@) == Ok::<Seq<OpModel>, DecodeError>(log@),
                Err(error) => decoded(bytes@) == Err::<Seq<OpModel>, DecodeError>(error),
            },
    {
        match load(bytes) {
            Ok(entries) => Ok(OperationLog { entries }),
            Err(error) => Err(error),
        }
    }
}

} // verus!
