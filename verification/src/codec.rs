//! The stored form of an operation log.
//!
//! A log is written as the number of its operations followed by the
//! operations in order. An operation is its variant's index followed by its
//! fields. Counts and lengths take eight bytes, variant indices four, offsets
//! four in two's complement, all least significant byte first; a string is
//! its length in bytes followed by its UTF-8 text. This is what bincode
//! writes for a sequence of such values with fixed-width integers, and
//! bincode itself reads and writes the strings.

use vstd::prelude::*;
use vstd::bytes::{
    lemma_auto_spec_u64_to_from_le_bytes, spec_u32_from_le_bytes, spec_u32_to_le_bytes,
    spec_u64_from_le_bytes, spec_u64_to_le_bytes, u32_from_le_bytes, u32_to_le_bytes,
    u64_from_le_bytes, u64_to_le_bytes,
};
use vstd::slice::slice_subrange;
use vstd::utf8::{decode_utf8, decode_utf8_encode_utf8, encode_utf8, valid_utf8};
use crate::codec_laws::{lemma_ops_bytes_push, lemma_round_trip};
use crate::text_ops::{InsertOpsData, OpModel, Ops, ops_view};

verus! {

/// Why stored bytes are not a log.
#[derive(Debug, Clone, Copy, PartialEq, Eq)]
pub enum DecodeError {
    /// The bytes end inside a count, a variant index or an offset.
    Truncated,
    /// A variant index is none of the five that exist.
    UnknownVariant,
    /// A string is cut short, or its bytes are not UTF-8.
    BadText,
}

// ---------------------------------------------------------------------------
// What is written
// ---------------------------------------------------------------------------
/// The unsigned word with the bit pattern of `value`.
pub open spec fn offset_word(value: i32) -> u32 {
    if value >= 0 {
        value as u32
    } else {
        (value + 0x1_0000_0000) as u32
    }
}

/// The offset with the bit pattern of `word`.
pub open spec fn word_offset(word: u32) -> i32 {
    if word < 0x8000_0000 {
        word as i32
    } else {
        (word - 0x1_0000_0000) as i32
    }
}

/// The stored form of an offset.
pub open spec fn offset_bytes(value: i32) -> Seq<u8> {
    spec_u32_to_le_bytes(offset_word(value))
}

/// The stored form of a string.
pub open spec fn text_bytes(text: Seq<char>) -> Seq<u8> {
    spec_u64_to_le_bytes(encode_utf8(text).len() as u64) + encode_utf8(text)
}

/// The stored form of one operation.
pub open spec fn op_bytes(op: OpModel) -> Seq<u8> {
    match op {
        OpModel::Insert { content, tag } => spec_u32_to_le_bytes(0) + text_bytes(content)
            + text_bytes(tag),
        OpModel::Delete { start, end } => spec_u32_to_le_bytes(1) + offset_bytes(start)
            + offset_bytes(end),
        OpModel::MoveCursor { position } => spec_u32_to_le_bytes(2) + offset_bytes(position),
        OpModel::SelectColorTag { tag } => spec_u32_to_le_bytes(3) + text_bytes(tag),
        OpModel::ApplyTag { tag, start, end } => spec_u32_to_le_bytes(4) + text_bytes(tag)
            + offset_bytes(start) + offset_bytes(end),
    }
}

/// The stored forms of `ops`, one after the other.
pub open spec fn ops_bytes(ops: Seq<OpModel>) -> Seq<u8>
    decreases ops.len(),
{
    if ops.len() == 0 {
        Seq::empty()
    } else {
        op_bytes(ops.first()) + ops_bytes(ops.drop_first())
    }
}

/// The stored form of a log.
pub open spec fn log_bytes(ops: Seq<OpModel>) -> Seq<u8> {
    spec_u64_to_le_bytes(ops.len() as u64) + ops_bytes(ops)
}

/// A string whose length in bytes fits the eight bytes that store it.
pub open spec fn text_fits(text: Seq<char>) -> bool {
    encode_utf8(text).len() <= u64::MAX
}

/// An operation whose strings fit.
pub open spec fn op_fits(op: OpModel) -> bool {
    match op {
        OpModel::Insert { content, tag } => text_fits(content) && text_fits(tag),
        OpModel::SelectColorTag { tag } => text_fits(tag),
        OpModel::ApplyTag { tag, .. } => text_fits(tag),
        _ => true,
    }
}

/// A log whose count and strings fit. Every log that a machine can hold does.
pub open spec fn log_fits(ops: Seq<OpModel>) -> bool {
    &&& ops.len() <= u64::MAX
    &&& forall|i: int| 0 <= i < ops.len() ==> op_fits(#[trigger] ops[i])
}

// ---------------------------------------------------------------------------
// What is read
// ---------------------------------------------------------------------------
/// Reads a four-byte word off the front of `bytes`.
pub open spec fn take_word(bytes: Seq<u8>) -> Result<(u32, Seq<u8>), DecodeError> {
    if bytes.len() < 4 {
        Err(DecodeError::Truncated)
    } else {
        Ok((spec_u32_from_le_bytes(bytes.take(4)), bytes.skip(4)))
    }
}

/// Reads an eight-byte count off the front of `bytes`.
pub open spec fn take_count(bytes: Seq<u8>) -> Result<(u64, Seq<u8>), DecodeError> {
    if bytes.len() < 8 {
        Err(DecodeError::Truncated)
    } else {
        Ok((spec_u64_from_le_bytes(bytes.take(8)), bytes.skip(8)))
    }
}

/// Reads an offset off the front of `bytes`.
pub open spec fn take_offset(bytes: Seq<u8>) -> Result<(i32, Seq<u8>), DecodeError> {
    match take_word(bytes) {
        Ok((word, rest)) => Ok((word_offset(word), rest)),
        Err(error) => Err(error),
    }
}

/// The length that the first eight bytes give for the string behind them.
pub open spec fn text_length(bytes: Seq<u8>) -> int {
    spec_u64_from_le_bytes(bytes.take(8)) as int
}

/// The bytes of the string at the front of `bytes`.
pub open spec fn text_payload(bytes: Seq<u8>) -> Seq<u8> {
    bytes.subrange(8, 8 + text_length(bytes))
}

/// Whether `bytes` begins with a whole string: a length, that many bytes,
/// and those bytes UTF-8.
pub open spec fn text_present(bytes: Seq<u8>) -> bool {
    &&& bytes.len() >= 8
    &&& 8 + text_length(bytes) <= bytes.len()
    &&& valid_utf8(text_payload(bytes))
}

/// Reads a string off the front of `bytes`.
pub open spec fn take_text(bytes: Seq<u8>) -> Result<(Seq<char>, Seq<u8>), DecodeError> {
    if text_present(bytes) {
        Ok((decode_utf8(text_payload(bytes)), bytes.skip(8 + text_length(bytes))))
    } else {
        Err(DecodeError::BadText)
    }
}

/// Reads two offsets off the front of `bytes`.
pub open spec fn take_range(bytes: Seq<u8>) -> Result<((i32, i32), Seq<u8>), DecodeError> {
    match take_offset(bytes) {
        Ok((start, rest)) => match take_offset(rest) {
            Ok((end, rest)) => Ok(((start, end), rest)),
            Err(error) => Err(error),
        },
        Err(error) => Err(error),
    }
}

/// Reads the fields of the variant with index `variant` off the front of
/// `bytes`.
pub open spec fn take_fields(variant: u32, bytes: Seq<u8>) -> Result<
    (OpModel, Seq<u8>),
    DecodeError,
> {
    if variant == 0 {
        match take_text(bytes) {
            Ok((content, rest)) => match take_text(rest) {
                Ok((tag, rest)) => Ok((OpModel::Insert { content, tag }, rest)),
                Err(error) => Err(error),
            },
            Err(error) => Err(error),
        }
    } else if variant == 1 {
        match take_range(bytes) {
            Ok((range, rest)) => Ok((OpModel::Delete { start: range.0, end: range.1 }, rest)),
            Err(error) => Err(error),
        }
    } else if variant == 2 {
        match take_offset(bytes) {
            Ok((position, rest)) => Ok((OpModel::MoveCursor { position }, rest)),
            Err(error) => Err(error),
        }
    } else if variant == 3 {
        match take_text(bytes) {
            Ok((tag, rest)) => Ok((OpModel::SelectColorTag { tag }, rest)),
            Err(error) => Err(error),
        }
    } else if variant == 4 {
        match take_text(bytes) {
            Ok((tag, rest)) => match take_range(rest) {
                Ok((range, rest)) => Ok(
                    (OpModel::ApplyTag { tag, start: range.0, end: range.1 }, rest),
                ),
                Err(error) => Err(error),
            },
            Err(error) => Err(error),
        }
    } else {
        Err(DecodeError::UnknownVariant)
    }
}

/// Reads one operation off the front of `bytes`.
pub open spec fn take_op(bytes: Seq<u8>) -> Result<(OpModel, Seq<u8>), DecodeError> {
    match take_word(bytes) {
        Ok((variant, rest)) => take_fields(variant, rest),
        Err(error) => Err(error),
    }
}

/// Reads `count` operations off the front of `bytes`.
pub open spec fn take_ops(bytes: Seq<u8>, count: nat) -> Result<
    (Seq<OpModel>, Seq<u8>),
    DecodeError,
>
    decreases count,
{
    if count == 0 {
        Ok((Seq::empty(), bytes))
    } else {
        match take_op(bytes) {
            Ok((op, rest)) => match take_ops(rest, (count - 1) as nat) {
                Ok((ops, rest)) => Ok((seq![op] + ops, rest)),
                Err(error) => Err(error),
            },
            Err(error) => Err(error),
        }
    }
}

/// The log that `bytes` store. Bytes behind the last operation are not
/// looked at.
pub open spec fn decoded(bytes: Seq<u8>) -> Result<Seq<OpModel>, DecodeError> {
    match take_count(bytes) {
        Ok((count, rest)) => match take_ops(rest, count as nat) {
            Ok((ops, _)) => Ok(ops),
            Err(error) => Err(error),
        },
        Err(error) => Err(error),
    }
}

// ---------------------------------------------------------------------------
// Writing
// ---------------------------------------------------------------------------
/// bincode's error type, carried through unread.
#[verifier::external_type_specification]
#[verifier::external_body]
pub struct ExErrorKind(bincode::ErrorKind);

/// Calls `bincode::serialize` on a string slice.
///
/// With the options that function fixes, bincode writes the length of the
/// string in bytes as eight bytes, least significant first, and then the
/// string's UTF-8 bytes. Writing into a vector without a size limit does not
/// fail.
#[verifier::external_body]
fn stored_text(text: &str) -> (bytes: Vec<u8>)
    ensures
        bytes@ == text_bytes(text@),
{
    bincode::serialize(text).unwrap_or_default()
}

/// Calls `bincode::deserialize` for a `String` on `bytes`.
///
/// bincode reads eight bytes as a length, takes that many bytes and turns
/// them into a string; it fails when fewer than eight bytes are there, when
/// fewer bytes follow than the length asks for, or when they are not UTF-8.
/// What lies behind the string is left alone.
#[verifier::external_body]
fn stored_text_at_front(bytes: &[u8]) -> (outcome: Result<String, Box<bincode::ErrorKind>>)
    ensures
        match outcome {
            Ok(text) => text_present(bytes@) && text@ == decode_utf8(text_payload(bytes@)),
            Err(_) => !text_present(bytes@),
        },
{
    bincode::deserialize::<String>(bytes)
}

/// The word with the bit pattern of `value`.
fn word_of_offset(value: i32) -> (word: u32)
    ensures
        word == offset_word(value),
{
    if value >= 0 {
        value as u32
    } else {
        (value as i64 + 0x1_0000_0000) as u32
    }
}

/// The offset with the bit pattern of `word`.
fn offset_of_word(word: u32) -> (value: i32)
    ensures
        value == word_offset(word),
{
    if word < 0x8000_0000 {
        word as i32
    } else {
        (word as i64 - 0x1_0000_0000) as i32
    }
}

fn put_word(out: &mut Vec<u8>, word: u32)
    ensures
        final(out)@ == old(out)@ + spec_u32_to_le_bytes(word),
{
    let mut piece = u32_to_le_bytes(word);
    out.append(&mut piece);
}

fn put_offset(out: &mut Vec<u8>, value: i32)
    ensures
        final(out)@ == old(out)@ + offset_bytes(value),
{
    put_word(out, word_of_offset(value));
}

fn put_text(out: &mut Vec<u8>, text: &String)
    ensures
        final(out)@ == old(out)@ + text_bytes(text@),
        text_fits(text@),
{
    let mut piece = stored_text(text.as_str());
    proof {
        lemma_auto_spec_u64_to_from_le_bytes();
        assert(piece@.len() == piece.len());
    }
    out.append(&mut piece);
}

/// Appends the stored form of `op` to `out`.
pub fn encode_op(op: &Ops, out: &mut Vec<u8>)
    ensures
        final(out)@ == old(out)@ + op_bytes(op@),
        op_fits(op@),
{
    let ghost before = out@;
    match op {
        Ops::Insert(data) => {
            put_word(out, 0);
            put_text(out, &data.content);
            put_text(out, &data.tag);
        },
        Ops::Delete(range) => {
            put_word(out, 1);
            put_offset(out, range.0);
            put_offset(out, range.1);
        },
        Ops::MoveCursor(position) => {
            put_word(out, 2);
            put_offset(out, *position);
        },
        Ops::SelectColorTag(tag) => {
            put_word(out, 3);
            put_text(out, tag);
        },
        Ops::ApplyTag(span) => {
            put_word(out, 4);
            put_text(out, &span.0);
            put_offset(out, span.1);
            put_offset(out, span.2);
        },
    }
    assert(out@ =~= before + op_bytes(op@));
}

/// The stored form of `log`.
///
/// Reading the result back gives the log again, whatever bytes are appended
/// to it.
pub fn encode(log: &Vec<Ops>) -> (bytes: Vec<u8>)
    ensures
        bytes@ == log_bytes(ops_view(log@)),
        log_fits(ops_view(log@)),
        decoded(bytes@) == Ok::<Seq<OpModel>, DecodeError>(ops_view(log@)),
{
    let ghost ops = ops_view(log@);
    let mut bytes = u64_to_le_bytes(log.len() as u64);
    let mut i: usize = 0;
    assert(ops.take(0) =~= Seq::<OpModel>::empty());
    while i < log.len()
        invariant
            i <= log.len(),
            ops == ops_view(log@),
            bytes@ == spec_u64_to_le_bytes(log.len() as u64) + ops_bytes(ops.take(i as int)),
            forall|j: int| 0 <= j < i ==> op_fits(#[trigger] ops[j]),
        decreases log.len() - i,
    {
        let ghost before = bytes@;
        encode_op(&log[i], &mut bytes);
        proof {
            lemma_ops_bytes_push(ops.take(i as int), ops[i as int]);
            assert(ops.take(i + 1) =~= ops.take(i as int).push(ops[i as int]));
            assert(bytes@ =~= spec_u64_to_le_bytes(log.len() as u64) + ops_bytes(ops.take(i + 1)));
        }
        i += 1;
    }
    proof {
        assert(ops.take(i as int) =~= ops);
        lemma_round_trip(ops, Seq::empty());
        assert(log_bytes(ops) + Seq::<u8>::empty() =~= log_bytes(ops));
    }
    bytes
}

// ---------------------------------------------------------------------------
// Reading
// ---------------------------------------------------------------------------
fn read_word(bytes: &[u8], at: usize) -> (outcome: Result<(u32, usize), DecodeError>)
    requires
        at <= bytes@.len(),
    ensures
        match outcome {
            Ok((word, next)) => at <= next <= bytes@.len() && take_word(bytes@.skip(at as int))
                == Ok::<(u32, Seq<u8>), DecodeError>((word, bytes@.skip(next as int))),
            Err(error) => take_word(bytes@.skip(at as int)) == Err::<(u32, Seq<u8>), DecodeError>(
                error,
            ),
        },
{
    if bytes.len() - at < 4 {
        return Err(DecodeError::Truncated);
    }
    let word = u32_from_le_bytes(slice_subrange(bytes, at, at + 4));
    proof {
        assert(bytes@.skip(at as int).take(4) =~= bytes@.subrange(at as int, at + 4));
        assert(bytes@.skip(at as int).skip(4) =~= bytes@.skip(at + 4));
    }
    Ok((word, at + 4))
}

fn read_count(bytes: &[u8], at: usize) -> (outcome: Result<(u64, usize), DecodeError>)
    requires
        at <= bytes@.len(),
    ensures
        match outcome {
            Ok((count, next)) => at <= next <= bytes@.len() && take_count(bytes@.skip(at as int))
                == Ok::<(u64, Seq<u8>), DecodeError>((count, bytes@.skip(next as int))),
            Err(error) => take_count(bytes@.skip(at as int)) == Err::<(u64, Seq<u8>), DecodeError>(
                error,
            ),
        },
{
    if bytes.len() - at < 8 {
        return Err(DecodeError::Truncated);
    }
    let count = u64_from_le_bytes(slice_subrange(bytes, at, at + 8));
    proof {
        assert(bytes@.skip(at as int).take(8) =~= bytes@.subrange(at as int, at + 8));
        assert(bytes@.skip(at as int).skip(8) =~= bytes@.skip(at + 8));
    }
    Ok((count, at + 8))
}

fn read_offset(bytes: &[u8], at: usize) -> (outcome: Result<(i32, usize), DecodeError>)
    requires
        at <= bytes@.len(),
    ensures
        match outcome {
            Ok((value, next)) => at <= next <= bytes@.len() && take_offset(bytes@.skip(at as int))
                == Ok::<(i32, Seq<u8>), DecodeError>((value, bytes@.skip(next as int))),
            Err(error) => take_offset(bytes@.skip(at as int)) == Err::<(i32, Seq<u8>), DecodeError>(
                error,
            ),
        },
{
    match read_word(bytes, at) {
        Ok((word, next)) => Ok((offset_of_word(word), next)),
        Err(error) => Err(error),
    }
}

fn read_range(bytes: &[u8], at: usize) -> (outcome: Result<((i32, i32), usize), DecodeError>)
    requires
        at <= bytes@.len(),
    ensures
        match outcome {
            Ok((range, next)) => at <= next <= bytes@.len() && take_range(bytes@.skip(at as int))
                == Ok::<((i32, i32), Seq<u8>), DecodeError>((range, bytes@.skip(next as int))),
            Err(error) => take_range(bytes@.skip(at as int)) == Err::<
                ((i32, i32), Seq<u8>),
                DecodeError,
            >(error),
        },
{
    match read_offset(bytes, at) {
        Ok((start, next)) => match read_offset(bytes, next) {
            Ok((end, next)) => Ok(((start, end), next)),
            Err(error) => Err(error),
        },
        Err(error) => Err(error),
    }
}

fn read_text(bytes: &[u8], at: usize) -> (outcome: Result<(String, usize), DecodeError>)
    requires
        at <= bytes@.len(),
    ensures
        match outcome {
            Ok((text, next)) => at <= next <= bytes@.len() && take_text(bytes@.skip(at as int))
                == Ok::<(Seq<char>, Seq<u8>), DecodeError>((text@, bytes@.skip(next as int))),
            Err(error) => take_text(bytes@.skip(at as int)) == Err::<
                (Seq<char>, Seq<u8>),
                DecodeError,
            >(error),
        },
{
    let rest = slice_subrange(bytes, at, bytes.len());
    assert(rest@ =~= bytes@.skip(at as int));
    match stored_text_at_front(rest) {
        Ok(text) => {
            proof {
                decode_utf8_encode_utf8(text_payload(rest@));
            }
            let used: usize = text.as_str().as_bytes().len();
            assert(used == text_length(rest@));
            let next: usize = at + 8 + used;
            assert(rest@.skip(8 + text_length(rest@)) =~= bytes@.skip(next as int));
            Ok((text, next))
        },
        Err(_) => Err(DecodeError::BadText),
    }
}

/// Reads the operation that starts at `at`; gives it with the place behind
/// it.
fn read_op(bytes: &[u8], at: usize) -> (outcome: Result<(Ops, usize), DecodeError>)
    requires
        at <= bytes@.len(),
    ensures
        match outcome {
            Ok((op, next)) => at <= next <= bytes@.len() && take_op(bytes@.skip(at as int))
                == Ok::<(OpModel, Seq<u8>), DecodeError>((op@, bytes@.skip(next as int))),
            Err(error) => take_op(bytes@.skip(at as int)) == Err::<(OpModel, Seq<u8>), DecodeError>(
                error,
            ),
        },
{
    let (variant, at) = match read_word(bytes, at) {
        Ok(found) => found,
        Err(error) => {
            return Err(error);
        },
    };
    if variant == 0 {
        match read_text(bytes, at) {
            Ok((content, at)) => match read_text(bytes, at) {
                Ok((tag, at)) => Ok((Ops::Insert(InsertOpsData { content, tag }), at)),
                Err(error) => Err(error),
            },
            Err(error) => Err(error),
        }
    } else if variant == 1 {
        match read_range(bytes, at) {
            Ok((range, at)) => Ok((Ops::Delete(range), at)),
            Err(error) => Err(error),
        }
    } else if variant == 2 {
        match read_offset(bytes, at) {
            Ok((position, at)) => Ok((Ops::MoveCursor(position), at)),
            Err(error) => Err(error),
        }
    } else if variant == 3 {
        match read_text(bytes, at) {
            Ok((tag, at)) => Ok((Ops::SelectColorTag(tag), at)),
            Err(error) => Err(error),
        }
    } else if variant == 4 {
        match read_text(bytes, at) {
            Ok((tag, at)) => match read_range(bytes, at) {
                Ok((range, at)) => Ok((Ops::ApplyTag((tag, range.0, range.1)), at)),
                Err(error) => Err(error),
            },
            Err(error) => Err(error),
        }
    } else {
        Err(DecodeError::UnknownVariant)
    }
}

/// `head` in front of what a reading gave.
pub open spec fn glued(
    head: Seq<OpModel>,
    reading: Result<(Seq<OpModel>, Seq<u8>), DecodeError>,
) -> Result<(Seq<OpModel>, Seq<u8>), DecodeError> {
    match reading {
        Ok((ops, rest)) => Ok((head + ops, rest)),
        Err(error) => Err(error),
    }
}

/// Reads a stored log.
///
/// Fails on bytes that end early, on an unknown variant and on a string that
/// is not UTF-8; it never gives part of a log. Bytes behind the last
/// operation are not looked at.
pub fn load(bytes: &[u8]) -> (outcome: Result<Vec<Ops>, DecodeError>)
    ensures
        match outcome {
            Ok(log) => decoded(bytes@) == Ok::<Seq<OpModel>, DecodeError>(ops_view(log@)),
            Err(error) => decoded(bytes@) == Err::<Seq<OpModel>, DecodeError>(error),
        },
{
    assert(bytes@.skip(0) =~= bytes@);
    let (count, start) = match read_count(bytes, 0) {
        Ok(found) => found,
        Err(error) => {
            return Err(error);
        },
    };
    let mut log: Vec<Ops> = Vec::new();
    let mut at: usize = start;
    let mut done: u64 = 0;
    assert(ops_view(log@) =~= Seq::<OpModel>::empty());
    assert(glued(Seq::empty(), take_ops(bytes@.skip(start as int), count as nat)) =~= take_ops(
        bytes@.skip(start as int),
        count as nat,
    )) by {
        match take_ops(bytes@.skip(start as int), count as nat) {
            Ok((ops, rest)) => {
                assert(Seq::<OpModel>::empty() + ops =~= ops);
            },
            Err(_) => {},
        }
    }
    while done < count
        invariant
            done <= count,
            at <= bytes@.len(),
            take_count(bytes@) == Ok::<(u64, Seq<u8>), DecodeError>(
                (count, bytes@.skip(start as int)),
            ),
            take_ops(bytes@.skip(start as int), count as nat) == glued(
                ops_view(log@),
                take_ops(bytes@.skip(at as int), (count - done) as nat),
            ),
        decreases count - done,
    {
        let ghost head = ops_view(log@);
        let ghost front = bytes@.skip(at as int);
        match read_op(bytes, at) {
            Ok((op, next)) => {
                proof {
                    let tail = take_ops(bytes@.skip(next as int), (count - done - 1) as nat);
                    assert(ops_view(log@.push(op)) =~= head.push(op@));
                    match tail {
                        Ok((ops, rest)) => {
                            assert(head + (seq![op@] + ops) =~= head.push(op@) + ops);
                        },
                        Err(_) => {},
                    }
                }
                log.push(op);
                at = next;
            },
            Err(error) => {
                return Err(error);
            },
        }
        done += 1;
    }
    assert(ops_view(log@) + Seq::<OpModel>::empty() =~= ops_view(log@));
    Ok(log)
}

} // verus!
