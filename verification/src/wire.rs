//! Protocol Buffers fields as bytes.
use crate::bytes::{bits_of_i64, lemma_utf8_read_back};
use protobuf::CodedOutputStream;
use vstd::prelude::*;
use vstd::utf8::encode_utf8;

verus! {

/// The error type of `protobuf`.
#[verifier::external_type_specification]
#[verifier::external_body]
pub struct ExProtobufError(protobuf::Error);

/// A number in groups of seven bits, the lowest first, each but the last with its high bit set.
pub open spec fn varint(n: nat) -> Seq<u8>
    decreases n,
{
    if n < 128 {
        seq![n as u8]
    } else {
        seq![(n % 128 + 128) as u8] + varint(n / 128)
    }
}

/// What a field holds.
pub ghost enum FieldValue {
    Number(nat),
    Text(Seq<char>),
}

/// The bytes of a text field: the tag, the length as a number of 32 bits, and the UTF-8 bytes.
pub open spec fn text_bytes(number: nat, text: Seq<char>) -> Seq<u8> {
    varint(number * 8 + 2) + varint(encode_utf8(text).len() % 0x1_0000_0000) + encode_utf8(text)
}

/// The bytes of a number field: the tag and the number.
pub open spec fn number_bytes(number: nat, value: nat) -> Seq<u8> {
    varint(number * 8) + varint(value)
}

/// The bytes of a field. A field that is zero or empty has none.
pub open spec fn field_bytes(number: nat, value: FieldValue) -> Seq<u8> {
    match value {
        FieldValue::Number(n) => if n == 0 {
            Seq::empty()
        } else {
            number_bytes(number, n)
        },
        FieldValue::Text(text) => if text.len() == 0 {
            Seq::empty()
        } else {
            text_bytes(number, text)
        },
    }
}

/// The bytes of the fields from the one at `from` on, numbered from one, and of what follows.
pub open spec fn message_bytes(fields: Seq<FieldValue>, from: int, rest: Seq<u8>) -> Seq<u8>
    decreases fields.len() - from,
{
    if 0 <= from < fields.len() {
        field_bytes((from + 1) as nat, fields[from]) + message_bytes(fields, from + 1, rest)
    } else {
        rest
    }
}

/// The text of a field is short enough for its length to be written in full.
pub open spec fn has_full_length(value: FieldValue) -> bool {
    value matches FieldValue::Text(text) ==> encode_utf8(text).len() < 0x1_0000_0000
}

/// `CodedOutputStream::write_uint32` appends the tag and the number to the vector that it writes
/// to. Writing to a vector does not fail.
#[verifier::external_body]
fn write_uint32(out: &mut Vec<u8>, number: u32, value: u32) -> (written: Result<
    (),
    protobuf::Error,
>)
    requires
        0 < number <= 0x1fff_ffff,
    ensures
        written is Ok,
        final(out)@ == old(out)@ + number_bytes(number as nat, value as nat),
{
    let mut stream = CodedOutputStream::vec(out);
    stream.write_uint32(number, value)?;
    stream.flush()
}

/// `CodedOutputStream::write_uint64` appends the tag and the number to the vector that it writes
/// to. Writing to a vector does not fail.
#[verifier::external_body]
fn write_uint64(out: &mut Vec<u8>, number: u32, value: u64) -> (written: Result<
    (),
    protobuf::Error,
>)
    requires
        0 < number <= 0x1fff_ffff,
    ensures
        written is Ok,
        final(out)@ == old(out)@ + number_bytes(number as nat, value as nat),
{
    let mut stream = CodedOutputStream::vec(out);
    stream.write_uint64(number, value)?;
    stream.flush()
}

/// `CodedOutputStream::write_int64` appends the tag and the 64 bits of the number to the vector
/// that it writes to. Writing to a vector does not fail.
#[verifier::external_body]
fn write_int64(out: &mut Vec<u8>, number: u32, value: i64) -> (written: Result<
    (),
    protobuf::Error,
>)
    requires
        0 < number <= 0x1fff_ffff,
    ensures
        written is Ok,
        final(out)@ == old(out)@ + number_bytes(number as nat, bits_of_i64(value)),
{
    let mut stream = CodedOutputStream::vec(out);
    stream.write_int64(number, value)?;
    stream.flush()
}

/// `CodedOutputStream::write_enum` appends the tag and the number, widened to 64 bits, to the
/// vector that it writes to. Writing to a vector does not fail.
#[verifier::external_body]
fn write_enum(out: &mut Vec<u8>, number: u32, value: i32) -> (written: Result<
    (),
    protobuf::Error,
>)
    requires
        0 < number <= 0x1fff_ffff,
    ensures
        written is Ok,
        final(out)@ == old(out)@ + number_bytes(number as nat, bits_of_i64(value as i64)),
{
    let mut stream = CodedOutputStream::vec(out);
    stream.write_enum(number, value)?;
    stream.flush()
}

/// `CodedOutputStream::write_string` appends the tag, the length cut to 32 bits and the UTF-8
/// bytes to the vector that it writes to. Writing to a vector does not fail.
#[verifier::external_body]
fn write_string(out: &mut Vec<u8>, number: u32, value: &str) -> (written: Result<
    (),
    protobuf::Error,
>)
    requires
        0 < number <= 0x1fff_ffff,
    ensures
        written is Ok,
        final(out)@ == old(out)@ + text_bytes(number as nat, value@),
{
    let mut stream = CodedOutputStream::vec(out);
    stream.write_string(number, value)?;
    stream.flush()
}

/// Appends a number of 32 bits, unless it is zero.
pub(crate) fn put_uint32(out: &mut Vec<u8>, number: u32, value: u32) -> (written: Result<
    (),
    protobuf::Error,
>)
    requires
        0 < number <= 0x1fff_ffff,
    ensures
        written is Ok,
        final(out)@ == old(out)@ + field_bytes(number as nat, FieldValue::Number(value as nat)),
{
    if value == 0 {
        assert(out@ =~= out@ + Seq::<u8>::empty());
        Ok(())
    } else {
        write_uint32(out, number, value)
    }
}

/// Appends a number of 64 bits, unless it is zero.
pub(crate) fn put_uint64(out: &mut Vec<u8>, number: u32, value: u64) -> (written: Result<
    (),
    protobuf::Error,
>)
    requires
        0 < number <= 0x1fff_ffff,
    ensures
        written is Ok,
        final(out)@ == old(out)@ + field_bytes(number as nat, FieldValue::Number(value as nat)),
{
    if value == 0 {
        assert(out@ =~= out@ + Seq::<u8>::empty());
        Ok(())
    } else {
        write_uint64(out, number, value)
    }
}

/// Appends a signed number of 64 bits, unless it is zero.
pub(crate) fn put_int64(out: &mut Vec<u8>, number: u32, value: i64) -> (written: Result<
    (),
    protobuf::Error,
>)
    requires
        0 < number <= 0x1fff_ffff,
    ensures
        written is Ok,
        final(out)@ == old(out)@ + field_bytes(
            number as nat,
            FieldValue::Number(bits_of_i64(value)),
        ),
{
    if value == 0 {
        assert(out@ =~= out@ + Seq::<u8>::empty());
        Ok(())
    } else {
        write_int64(out, number, value)
    }
}

/// Appends the number of an enumeration's variant, unless it is zero.
pub(crate) fn put_enum(out: &mut Vec<u8>, number: u32, value: i32) -> (written: Result<
    (),
    protobuf::Error,
>)
    requires
        0 < number <= 0x1fff_ffff,
    ensures
        written is Ok,
        final(out)@ == old(out)@ + field_bytes(
            number as nat,
            FieldValue::Number(bits_of_i64(value as i64)),
        ),
{
    if value == 0 {
        assert(out@ =~= out@ + Seq::<u8>::empty());
        Ok(())
    } else {
        write_enum(out, number, value)
    }
}

/// Appends a text, unless it is empty.
pub(crate) fn put_string(out: &mut Vec<u8>, number: u32, value: &str) -> (written: Result<
    (),
    protobuf::Error,
>)
    requires
        0 < number <= 0x1fff_ffff,
    ensures
        written is Ok,
        final(out)@ == old(out)@ + field_bytes(number as nat, FieldValue::Text(value@)),
{
    if value.is_empty() {
        assert(out@ =~= out@ + Seq::<u8>::empty());
        Ok(())
    } else {
        write_string(out, number, value)
    }
}

/// A number, and what follows it, are read back from their bytes.
proof fn lemma_varint_read_back(a: nat, a_rest: Seq<u8>, b: nat, b_rest: Seq<u8>)
    requires
        varint(a) + a_rest == varint(b) + b_rest,
    ensures
        a == b,
        a_rest == b_rest,
    decreases a,
{
    let left = varint(a) + a_rest;
    let right = varint(b) + b_rest;
    assert(left[0] == varint(a)[0]);
    assert(right[0] == varint(b)[0]);
    if a < 128 {
        assert(left.skip(1) =~= a_rest);
        assert(b < 128);
        assert(right.skip(1) =~= b_rest);
    } else {
        assert(b >= 128);
        assert(left.skip(1) =~= varint(a / 128) + a_rest);
        assert(right.skip(1) =~= varint(b / 128) + b_rest);
        lemma_varint_read_back(a / 128, a_rest, b / 128, b_rest);
        assert(a % 128 == b % 128);
    }
}

/// What stands behind field `number` is empty or starts with a higher tag.
pub open spec fn starts_above(rest: Seq<u8>, number: nat) -> bool {
    rest.len() == 0 || rest[0] >= (number + 1) * 8
}

/// The bytes of a field are empty or start with its tag.
proof fn lemma_field_starts(number: nat, value: FieldValue, rest: Seq<u8>)
    requires
        1 <= number <= 15,
        starts_above(rest, number),
    ensures
        starts_above(field_bytes(number, value) + rest, (number - 1) as nat),
        field_bytes(number, value).len() > 0 ==> field_bytes(number, value)[0] == (
        match value {
            FieldValue::Number(_) => number * 8,
            FieldValue::Text(_) => number * 8 + 2,
        }),
{
    let bytes = field_bytes(number, value);
    if bytes.len() == 0 {
        assert(bytes + rest =~= rest);
    } else {
        assert((bytes + rest)[0] == bytes[0]);
    }
}

/// The fields behind field `from` start with higher tags.
proof fn lemma_message_starts(fields: Seq<FieldValue>, from: int, rest: Seq<u8>)
    requires
        0 <= from <= fields.len() <= 15,
        starts_above(rest, fields.len()),
    ensures
        starts_above(message_bytes(fields, from, rest), from as nat),
    decreases fields.len() - from,
{
    if from < fields.len() {
        lemma_message_starts(fields, from + 1, rest);
        lemma_field_starts(
            (from + 1) as nat,
            fields[from],
            message_bytes(fields, from + 1, rest),
        );
    }
}

/// Two values are both numbers or both texts.
pub open spec fn same_kind(a: FieldValue, b: FieldValue) -> bool {
    a is Number <==> b is Number
}

/// A field, and what follows it, are read back from their bytes.
proof fn lemma_message_field_read_back(
    number: nat,
    a: FieldValue,
    a_rest: Seq<u8>,
    b: FieldValue,
    b_rest: Seq<u8>,
)
    requires
        1 <= number <= 15,
        same_kind(a, b),
        has_full_length(a),
        has_full_length(b),
        starts_above(a_rest, number),
        starts_above(b_rest, number),
        field_bytes(number, a) + a_rest == field_bytes(number, b) + b_rest,
    ensures
        a == b,
        a_rest == b_rest,
{
    let left = field_bytes(number, a) + a_rest;
    let right = field_bytes(number, b) + b_rest;
    lemma_field_starts(number, a, a_rest);
    lemma_field_starts(number, b, b_rest);
    if field_bytes(number, a).len() == 0 {
        assert(left =~= a_rest);
        if field_bytes(number, b).len() > 0 {
            assert(right[0] == field_bytes(number, b)[0]);
            assert(false);
        }
        assert(right =~= b_rest);
        match (a, b) {
            (FieldValue::Text(s), FieldValue::Text(t)) => {
                lemma_field_has_bytes(number, a);
                lemma_field_has_bytes(number, b);
                assert(s =~= t);
            },
            _ => {
                lemma_field_has_bytes(number, a);
                lemma_field_has_bytes(number, b);
            },
        }
    } else {
        assert(left[0] == field_bytes(number, a)[0]);
        if field_bytes(number, b).len() == 0 {
            assert(right =~= b_rest);
            assert(false);
        }
        match (a, b) {
            (FieldValue::Number(m), FieldValue::Number(n)) => {
                let tag = varint(number * 8);
                assert(left =~= tag + (varint(m) + a_rest));
                assert(right =~= tag + (varint(n) + b_rest));
                lemma_varint_read_back(
                    number * 8,
                    varint(m) + a_rest,
                    number * 8,
                    varint(n) + b_rest,
                );
                lemma_varint_read_back(m, a_rest, n, b_rest);
            },
            (FieldValue::Text(s), FieldValue::Text(t)) => {
                let u = encode_utf8(s);
                let v = encode_utf8(t);
                let tag = varint(number * 8 + 2);
                assert(left =~= tag + (varint(u.len()) + (u + a_rest)));
                assert(right =~= tag + (varint(v.len()) + (v + b_rest)));
                lemma_varint_read_back(
                    number * 8 + 2,
                    varint(u.len()) + (u + a_rest),
                    number * 8 + 2,
                    varint(v.len()) + (v + b_rest),
                );
                lemma_varint_read_back(u.len(), u + a_rest, v.len(), v + b_rest);
                assert(u =~= (u + a_rest).take(u.len() as int));
                assert(v =~= (v + b_rest).take(v.len() as int));
                assert(a_rest =~= (u + a_rest).skip(u.len() as int));
                assert(b_rest =~= (v + b_rest).skip(v.len() as int));
                lemma_utf8_read_back(s, t);
            },
            _ => {},
        }
    }
}

/// A field without bytes is zero or empty.
proof fn lemma_field_has_bytes(number: nat, value: FieldValue)
    ensures
        field_bytes(number, value).len() == 0 ==> match value {
            FieldValue::Number(n) => n == 0,
            FieldValue::Text(text) => text.len() == 0,
        },
{
    match value {
        FieldValue::Number(n) => {
            assert(varint(number * 8).len() > 0);
        },
        FieldValue::Text(text) => {
            assert(varint(number * 8 + 2).len() > 0);
        },
    }
}

/// Every field of a message, and what follows them, are read back from the bytes of the message:
/// up to 15 fields, in the order of their numbers, followed by nothing or by a field with a higher
/// number.
pub proof fn lemma_message_read_back(
    a: Seq<FieldValue>,
    a_rest: Seq<u8>,
    b: Seq<FieldValue>,
    b_rest: Seq<u8>,
    from: int,
)
    requires
        0 <= from <= a.len() <= 15,
        a.len() == b.len(),
        forall|i: int| 0 <= i < a.len() ==> same_kind(#[trigger] a[i], b[i]),
        forall|i: int| 0 <= i < a.len() ==> has_full_length(#[trigger] a[i]),
        forall|i: int| 0 <= i < b.len() ==> has_full_length(#[trigger] b[i]),
        starts_above(a_rest, a.len()),
        starts_above(b_rest, b.len()),
        message_bytes(a, from, a_rest) == message_bytes(b, from, b_rest),
    ensures
        forall|i: int| from <= i < a.len() ==> #[trigger] a[i] == b[i],
        a_rest == b_rest,
    decreases a.len() - from,
{
    if from < a.len() {
        lemma_message_starts(a, from + 1, a_rest);
        lemma_message_starts(b, from + 1, b_rest);
        assert(same_kind(a[from], b[from]));
        lemma_message_field_read_back(
            (from + 1) as nat,
            a[from],
            message_bytes(a, from + 1, a_rest),
            b[from],
            message_bytes(b, from + 1, b_rest),
        );
        lemma_message_read_back(a, a_rest, b, b_rest, from + 1);
    }
}

} // verus!
