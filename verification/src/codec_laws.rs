//! Laws of the stored form: what is written is read back, and what is read
//! was written.
//!
//! Together they say that the reader accepts exactly the bytes that begin
//! with the stored form of a log, and gives that log.

use vstd::prelude::*;
use vstd::bytes::{
    lemma_auto_spec_u32_to_from_le_bytes, lemma_auto_spec_u64_to_from_le_bytes,
    spec_u32_to_le_bytes, spec_u64_to_le_bytes,
};
use vstd::utf8::{
    decode_utf8_encode_utf8, encode_utf8, encode_utf8_decode_utf8, encode_utf8_valid_utf8,
};
use crate::codec::{
    DecodeError, decoded, log_bytes, log_fits, offset_bytes, offset_word, op_bytes, op_fits,
    ops_bytes, take_count, take_fields, take_offset, take_op, take_ops, take_range, take_text,
    take_word, text_bytes, text_fits, text_length, text_payload, word_offset,
};
use crate::text_ops::OpModel;

verus! {

/// The stored forms of a sequence with one more operation at its end.
pub proof fn lemma_ops_bytes_push(ops: Seq<OpModel>, op: OpModel)
    ensures
        ops_bytes(ops.push(op)) == ops_bytes(ops) + op_bytes(op),
    decreases ops.len(),
{
    let longer = ops.push(op);
    if ops.len() == 0 {
        assert(longer.drop_first() =~= Seq::<OpModel>::empty());
        assert(ops_bytes(longer.drop_first()) =~= Seq::<u8>::empty());
        assert(ops_bytes(longer) =~= ops_bytes(ops) + op_bytes(op));
    } else {
        lemma_ops_bytes_push(ops.drop_first(), op);
        assert(longer.drop_first() =~= ops.drop_first().push(op));
        assert(longer.first() == ops.first());
        assert(ops_bytes(longer) =~= op_bytes(ops.first()) + (ops_bytes(ops.drop_first())
            + op_bytes(op)));
    }
}

/// A stored word is read back, and what follows it is left over.
pub proof fn lemma_take_word(word: u32, rest: Seq<u8>)
    ensures
        take_word(spec_u32_to_le_bytes(word) + rest) == Ok::<(u32, Seq<u8>), DecodeError>(
            (word, rest),
        ),
{
    lemma_auto_spec_u32_to_from_le_bytes();
    let stored = spec_u32_to_le_bytes(word);
    assert((stored + rest).take(4) =~= stored);
    assert((stored + rest).skip(4) =~= rest);
}

/// A stored offset is read back, and what follows it is left over.
pub proof fn lemma_take_offset(value: i32, rest: Seq<u8>)
    ensures
        take_offset(offset_bytes(value) + rest) == Ok::<(i32, Seq<u8>), DecodeError>(
            (value, rest),
        ),
{
    lemma_take_word(offset_word(value), rest);
}

/// A stored string is read back, and what follows it is left over.
pub proof fn lemma_take_text(text: Seq<char>, rest: Seq<u8>)
    requires
        text_fits(text),
    ensures
        take_text(text_bytes(text) + rest) == Ok::<(Seq<char>, Seq<u8>), DecodeError>(
            (text, rest),
        ),
{
    lemma_auto_spec_u64_to_from_le_bytes();
    let raw = encode_utf8(text);
    let length = spec_u64_to_le_bytes(raw.len() as u64);
    let whole = text_bytes(text) + rest;
    assert(whole.take(8) =~= length);
    assert(text_length(whole) == raw.len());
    assert(text_payload(whole) =~= raw);
    assert(whole.skip(8 + text_length(whole)) =~= rest);
    encode_utf8_valid_utf8(text);
    encode_utf8_decode_utf8(text);
}

/// A stored pair of offsets is read back.
pub proof fn lemma_take_range(start: i32, end: i32, rest: Seq<u8>)
    ensures
        take_range(offset_bytes(start) + offset_bytes(end) + rest) == Ok::<
            ((i32, i32), Seq<u8>),
            DecodeError,
        >(((start, end), rest)),
{
    lemma_take_offset(start, offset_bytes(end) + rest);
    lemma_take_offset(end, rest);
    assert(offset_bytes(start) + offset_bytes(end) + rest =~= offset_bytes(start) + (offset_bytes(
        end,
    ) + rest));
}

/// A stored `Insert` is read back.
proof fn lemma_take_insert(content: Seq<char>, tag: Seq<char>, rest: Seq<u8>)
    requires
        text_fits(content),
        text_fits(tag),
    ensures
        take_op(op_bytes(OpModel::Insert { content, tag }) + rest) == Ok::<
            (OpModel, Seq<u8>),
            DecodeError,
        >((OpModel::Insert { content, tag }, rest)),
{
    let fields = text_bytes(content) + (text_bytes(tag) + rest);
    lemma_take_word(0, fields);
    lemma_take_text(content, text_bytes(tag) + rest);
    lemma_take_text(tag, rest);
    assert(op_bytes(OpModel::Insert { content, tag }) + rest =~= spec_u32_to_le_bytes(0) + fields);
}

/// A stored `Delete` is read back.
proof fn lemma_take_delete(start: i32, end: i32, rest: Seq<u8>)
    ensures
        take_op(op_bytes(OpModel::Delete { start, end }) + rest) == Ok::<
            (OpModel, Seq<u8>),
            DecodeError,
        >((OpModel::Delete { start, end }, rest)),
{
    let fields = offset_bytes(start) + offset_bytes(end) + rest;
    lemma_take_word(1, fields);
    lemma_take_range(start, end, rest);
    assert(op_bytes(OpModel::Delete { start, end }) + rest =~= spec_u32_to_le_bytes(1) + fields);
}

/// A stored `MoveCursor` is read back.
proof fn lemma_take_move(position: i32, rest: Seq<u8>)
    ensures
        take_op(op_bytes(OpModel::MoveCursor { position }) + rest) == Ok::<
            (OpModel, Seq<u8>),
            DecodeError,
        >((OpModel::MoveCursor { position }, rest)),
{
    let fields = offset_bytes(position) + rest;
    lemma_take_word(2, fields);
    lemma_take_offset(position, rest);
    assert(op_bytes(OpModel::MoveCursor { position }) + rest =~= spec_u32_to_le_bytes(2) + fields);
}

/// A stored `SelectColorTag` is read back.
proof fn lemma_take_select(tag: Seq<char>, rest: Seq<u8>)
    requires
        text_fits(tag),
    ensures
        take_op(op_bytes(OpModel::SelectColorTag { tag }) + rest) == Ok::<
            (OpModel, Seq<u8>),
            DecodeError,
        >((OpModel::SelectColorTag { tag }, rest)),
{
    let fields = text_bytes(tag) + rest;
    lemma_take_word(3, fields);
    lemma_take_text(tag, rest);
    assert(op_bytes(OpModel::SelectColorTag { tag }) + rest =~= spec_u32_to_le_bytes(3) + fields);
}

/// A stored `ApplyTag` is read back.
proof fn lemma_take_apply(tag: Seq<char>, start: i32, end: i32, rest: Seq<u8>)
    requires
        text_fits(tag),
    ensures
        take_op(op_bytes(OpModel::ApplyTag { tag, start, end }) + rest) == Ok::<
            (OpModel, Seq<u8>),
            DecodeError,
        >((OpModel::ApplyTag { tag, start, end }, rest)),
{
    let range = offset_bytes(start) + offset_bytes(end) + rest;
    let fields = text_bytes(tag) + range;
    lemma_take_word(4, fields);
    lemma_take_text(tag, range);
    lemma_take_range(start, end, rest);
    assert(op_bytes(OpModel::ApplyTag { tag, start, end }) + rest =~= spec_u32_to_le_bytes(4)
        + fields);
}

/// A stored operation is read back, and what follows it is left over.
pub proof fn lemma_take_op(op: OpModel, rest: Seq<u8>)
    requires
        op_fits(op),
    ensures
        take_op(op_bytes(op) + rest) == Ok::<(OpModel, Seq<u8>), DecodeError>((op, rest)),
{
    match op {
        OpModel::Insert { content, tag } => lemma_take_insert(content, tag, rest),
        OpModel::Delete { start, end } => lemma_take_delete(start, end, rest),
        OpModel::MoveCursor { position } => lemma_take_move(position, rest),
        OpModel::SelectColorTag { tag } => lemma_take_select(tag, rest),
        OpModel::ApplyTag { tag, start, end } => lemma_take_apply(tag, start, end, rest),
    }
}

/// Stored operations are read back in order, and what follows them is left
/// over.
pub proof fn lemma_take_ops(ops: Seq<OpModel>, rest: Seq<u8>)
    requires
        forall|i: int| 0 <= i < ops.len() ==> op_fits(#[trigger] ops[i]),
    ensures
        take_ops(ops_bytes(ops) + rest, ops.len()) == Ok::<(Seq<OpModel>, Seq<u8>), DecodeError>(
            (ops, rest),
        ),
    decreases ops.len(),
{
    if ops.len() == 0 {
        assert(ops_bytes(ops) + rest =~= rest);
        assert(ops =~= Seq::<OpModel>::empty());
    } else {
        let tail = ops.drop_first();
        assert(op_fits(ops[0]));
        assert forall|i: int| 0 <= i < tail.len() implies op_fits(#[trigger] tail[i]) by {
            assert(tail[i] == ops[i + 1]);
        }
        lemma_take_op(ops.first(), ops_bytes(tail) + rest);
        lemma_take_ops(tail, rest);
        assert(ops_bytes(ops) + rest =~= op_bytes(ops.first()) + (ops_bytes(tail) + rest));
        assert(seq![ops.first()] + tail =~= ops);
    }
}

/// Reading what was written gives the log that was written, field for field,
/// whatever bytes follow it.
pub proof fn lemma_round_trip(ops: Seq<OpModel>, rest: Seq<u8>)
    requires
        log_fits(ops),
    ensures
        decoded(log_bytes(ops) + rest) == Ok::<Seq<OpModel>, DecodeError>(ops),
{
    lemma_auto_spec_u64_to_from_le_bytes();
    let count = spec_u64_to_le_bytes(ops.len() as u64);
    let whole = log_bytes(ops) + rest;
    assert(whole.take(8) =~= count);
    assert(whole.skip(8) =~= ops_bytes(ops) + rest);
    lemma_take_ops(ops, rest);
}

/// A word bears the bit pattern of the offset it is read as.
pub proof fn lemma_word_offset(word: u32)
    ensures
        offset_word(word_offset(word)) == word,
{
}

/// Bytes from which a word is read begin with that word's stored form.
pub proof fn lemma_word_taken(bytes: Seq<u8>)
    requires
        take_word(bytes) is Ok,
    ensures
        bytes == spec_u32_to_le_bytes(take_word(bytes)->Ok_0.0) + take_word(bytes)->Ok_0.1,
{
    lemma_auto_spec_u32_to_from_le_bytes();
    assert(bytes =~= bytes.take(4) + bytes.skip(4));
}

/// Bytes from which an offset is read begin with that offset's stored form.
pub proof fn lemma_offset_taken(bytes: Seq<u8>)
    requires
        take_offset(bytes) is Ok,
    ensures
        bytes == offset_bytes(take_offset(bytes)->Ok_0.0) + take_offset(bytes)->Ok_0.1,
{
    lemma_word_taken(bytes);
    lemma_word_offset(take_word(bytes)->Ok_0.0);
}

/// Bytes from which two offsets are read begin with their stored forms.
pub proof fn lemma_range_taken(bytes: Seq<u8>)
    requires
        take_range(bytes) is Ok,
    ensures
        bytes == offset_bytes(take_range(bytes)->Ok_0.0.0) + offset_bytes(
            take_range(bytes)->Ok_0.0.1,
        ) + take_range(bytes)->Ok_0.1,
{
    lemma_offset_taken(bytes);
    let rest = take_offset(bytes)->Ok_0.1;
    lemma_offset_taken(rest);
    let start = take_range(bytes)->Ok_0.0.0;
    let end = take_range(bytes)->Ok_0.0.1;
    assert(bytes =~= offset_bytes(start) + offset_bytes(end) + take_range(bytes)->Ok_0.1);
}

/// Bytes from which a string is read begin with that string's stored form,
/// and the string fits.
pub proof fn lemma_text_taken(bytes: Seq<u8>)
    requires
        take_text(bytes) is Ok,
    ensures
        text_fits(take_text(bytes)->Ok_0.0),
        bytes == text_bytes(take_text(bytes)->Ok_0.0) + take_text(bytes)->Ok_0.1,
{
    lemma_auto_spec_u64_to_from_le_bytes();
    let payload = text_payload(bytes);
    decode_utf8_encode_utf8(payload);
    assert(payload.len() == text_length(bytes));
    assert(spec_u64_to_le_bytes(payload.len() as u64) == bytes.take(8));
    assert(bytes =~= bytes.take(8) + payload + bytes.skip(8 + text_length(bytes)));
}

/// The fields of an `Insert` that was read.
proof fn lemma_insert_taken(bytes: Seq<u8>)
    requires
        take_fields(0, bytes) is Ok,
    ensures
        op_fits(take_fields(0, bytes)->Ok_0.0),
        spec_u32_to_le_bytes(0) + bytes == op_bytes(take_fields(0, bytes)->Ok_0.0) + take_fields(
            0,
            bytes,
        )->Ok_0.1,
{
    lemma_text_taken(bytes);
    let middle = take_text(bytes)->Ok_0.1;
    lemma_text_taken(middle);
    let content = take_text(bytes)->Ok_0.0;
    let tag = take_text(middle)->Ok_0.0;
    let rest = take_text(middle)->Ok_0.1;
    assert(spec_u32_to_le_bytes(0) + bytes =~= spec_u32_to_le_bytes(0) + text_bytes(content)
        + text_bytes(tag) + rest);
}

/// The fields of a `Delete` that was read.
proof fn lemma_delete_taken(bytes: Seq<u8>)
    requires
        take_fields(1, bytes) is Ok,
    ensures
        op_fits(take_fields(1, bytes)->Ok_0.0),
        spec_u32_to_le_bytes(1) + bytes == op_bytes(take_fields(1, bytes)->Ok_0.0) + take_fields(
            1,
            bytes,
        )->Ok_0.1,
{
    lemma_range_taken(bytes);
    let range = take_range(bytes)->Ok_0.0;
    let rest = take_range(bytes)->Ok_0.1;
    assert(spec_u32_to_le_bytes(1) + bytes =~= spec_u32_to_le_bytes(1) + offset_bytes(range.0)
        + offset_bytes(range.1) + rest);
}

/// The field of a `MoveCursor` that was read.
proof fn lemma_move_taken(bytes: Seq<u8>)
    requires
        take_fields(2, bytes) is Ok,
    ensures
        op_fits(take_fields(2, bytes)->Ok_0.0),
        spec_u32_to_le_bytes(2) + bytes == op_bytes(take_fields(2, bytes)->Ok_0.0) + take_fields(
            2,
            bytes,
        )->Ok_0.1,
{
    lemma_offset_taken(bytes);
    let position = take_offset(bytes)->Ok_0.0;
    let rest = take_offset(bytes)->Ok_0.1;
    assert(spec_u32_to_le_bytes(2) + bytes =~= spec_u32_to_le_bytes(2) + offset_bytes(position)
        + rest);
}

/// The field of a `SelectColorTag` that was read.
proof fn lemma_select_taken(bytes: Seq<u8>)
    requires
        take_fields(3, bytes) is Ok,
    ensures
        op_fits(take_fields(3, bytes)->Ok_0.0),
        spec_u32_to_le_bytes(3) + bytes == op_bytes(take_fields(3, bytes)->Ok_0.0) + take_fields(
            3,
            bytes,
        )->Ok_0.1,
{
    lemma_text_taken(bytes);
    let tag = take_text(bytes)->Ok_0.0;
    let rest = take_text(bytes)->Ok_0.1;
    assert(spec_u32_to_le_bytes(3) + bytes =~= spec_u32_to_le_bytes(3) + text_bytes(tag) + rest);
}

/// The fields of an `ApplyTag` that was read.
proof fn lemma_apply_taken(bytes: Seq<u8>)
    requires
        take_fields(4, bytes) is Ok,
    ensures
        op_fits(take_fields(4, bytes)->Ok_0.0),
        spec_u32_to_le_bytes(4) + bytes == op_bytes(take_fields(4, bytes)->Ok_0.0) + take_fields(
            4,
            bytes,
        )->Ok_0.1,
{
    lemma_text_taken(bytes);
    let middle = take_text(bytes)->Ok_0.1;
    lemma_range_taken(middle);
    let tag = take_text(bytes)->Ok_0.0;
    let range = take_range(middle)->Ok_0.0;
    let rest = take_range(middle)->Ok_0.1;
    assert(spec_u32_to_le_bytes(4) + bytes =~= spec_u32_to_le_bytes(4) + text_bytes(tag)
        + offset_bytes(range.0) + offset_bytes(range.1) + rest);
}

/// Bytes from which an operation is read begin with that operation's stored
/// form, and the operation fits.
pub proof fn lemma_op_taken(bytes: Seq<u8>)
    requires
        take_op(bytes) is Ok,
    ensures
        op_fits(take_op(bytes)->Ok_0.0),
        bytes == op_bytes(take_op(bytes)->Ok_0.0) + take_op(bytes)->Ok_0.1,
{
    lemma_word_taken(bytes);
    let variant = take_word(bytes)->Ok_0.0;
    let fields = take_word(bytes)->Ok_0.1;
    if variant == 0 {
        lemma_insert_taken(fields);
    } else if variant == 1 {
        lemma_delete_taken(fields);
    } else if variant == 2 {
        lemma_move_taken(fields);
    } else if variant == 3 {
        lemma_select_taken(fields);
    } else {
        lemma_apply_taken(fields);
    }
}

/// Bytes from which `count` operations are read begin with their stored
/// forms; there are `count` of them and each fits.
pub proof fn lemma_ops_taken(bytes: Seq<u8>, count: nat)
    requires
        take_ops(bytes, count) is Ok,
    ensures
        take_ops(bytes, count)->Ok_0.0.len() == count,
        forall|i: int| 0 <= i < count ==> op_fits(#[trigger] take_ops(bytes, count)->Ok_0.0[i]),
        bytes == ops_bytes(take_ops(bytes, count)->Ok_0.0) + take_ops(bytes, count)->Ok_0.1,
    decreases count,
{
    if count == 0 {
        assert(bytes =~= ops_bytes(Seq::empty()) + bytes);
    } else {
        lemma_op_taken(bytes);
        let op = take_op(bytes)->Ok_0.0;
        let middle = take_op(bytes)->Ok_0.1;
        lemma_ops_taken(middle, (count - 1) as nat);
        let tail = take_ops(middle, (count - 1) as nat)->Ok_0.0;
        let rest = take_ops(middle, (count - 1) as nat)->Ok_0.1;
        let ops = seq![op] + tail;
        assert(ops.first() == op);
        assert(ops.drop_first() =~= tail);
        assert(bytes =~= ops_bytes(ops) + rest);
        assert forall|i: int| 0 <= i < count implies op_fits(#[trigger] ops[i]) by {
            if i > 0 {
                assert(ops[i] == tail[i - 1]);
            }
        }
    }
}

/// Bytes are read as a log exactly when they begin with that log's stored
/// form: the reader accepts nothing else, and gives no other log.
pub proof fn lemma_decoded_iff_stored(bytes: Seq<u8>, ops: Seq<OpModel>)
    ensures
        decoded(bytes) == Ok::<Seq<OpModel>, DecodeError>(ops) <==> log_fits(ops) && log_bytes(
            ops,
        ).is_prefix_of(bytes),
{
    if decoded(bytes) == Ok::<Seq<OpModel>, DecodeError>(ops) {
        lemma_auto_spec_u64_to_from_le_bytes();
        let count = take_count(bytes)->Ok_0.0;
        let middle = take_count(bytes)->Ok_0.1;
        lemma_ops_taken(middle, count as nat);
        let rest = take_ops(middle, count as nat)->Ok_0.1;
        assert(bytes =~= bytes.take(8) + middle);
        assert(bytes =~= log_bytes(ops) + rest);
        assert(log_bytes(ops) =~= bytes.subrange(0, log_bytes(ops).len() as int));
    }
    if log_fits(ops) && log_bytes(ops).is_prefix_of(bytes) {
        let stored = log_bytes(ops);
        let rest = bytes.skip(stored.len() as int);
        assert(bytes =~= stored + rest);
        lemma_round_trip(ops, rest);
    }
}

} // verus!
