//! Numbers as bytes in network order, and fields that carry their length.
use vstd::prelude::*;
use vstd::utf8::{encode_utf8, encode_utf8_decode_utf8};

verus! {

/// The lowest `width` bytes of a number, the highest of them first.
pub open spec fn be_bytes(n: nat, width: nat) -> Seq<u8>
    decreases width,
{
    if width == 0 {
        Seq::empty()
    } else {
        be_bytes(n / 256, (width - 1) as nat).push((n % 256) as u8)
    }
}

/// The lowest `width` bytes of a number, the highest of them first.
pub(crate) fn big_endian(n: u64, width: usize) -> (bytes: Vec<u8>)
    ensures
        bytes@ == be_bytes(n as nat, width as nat),
        bytes@.len() == width,
    decreases width,
{
    if width == 0 {
        Vec::new()
    } else {
        let mut bytes: Vec<u8> = big_endian(n / 256, width - 1);
        bytes.push((n % 256) as u8);
        bytes
    }
}

/// The number that bytes in network order stand for.
pub open spec fn be_value(bytes: Seq<u8>) -> nat
    decreases bytes.len(),
{
    if bytes.len() == 0 {
        0
    } else {
        be_value(bytes.drop_last()) * 256 + bytes.last() as nat
    }
}

/// The length that stands before a field: the length itself, or the largest number of 32 bits
/// where the length does not fit.
pub open spec fn length_prefix(n: nat) -> nat {
    if n <= u32::MAX {
        n
    } else {
        u32::MAX as nat
    }
}

/// A field: its length in four bytes, then its bytes.
pub open spec fn field(value: Seq<u8>) -> Seq<u8> {
    be_bytes(length_prefix(value.len()), 4) + value
}

/// The 64 bits of a signed number, read as an unsigned one.
pub open spec fn bits_of_i64(n: i64) -> nat {
    if n < 0 {
        (n + 0x1_0000_0000_0000_0000) as nat
    } else {
        n as nat
    }
}

/// The 32 bits of a signed number, read as an unsigned one.
pub open spec fn bits_of_i32(n: i32) -> nat {
    if n < 0 {
        (n + 0x1_0000_0000) as nat
    } else {
        n as nat
    }
}

/// A signed number of 64 bits in network order.
pub open spec fn i64_field(n: i64) -> Seq<u8> {
    be_bytes(bits_of_i64(n), 8)
}

/// A signed number of 32 bits in network order.
pub open spec fn i32_field(n: i32) -> Seq<u8> {
    be_bytes(bits_of_i32(n), 4)
}

/// There are as many bytes as asked for.
pub proof fn lemma_be_bytes_len(n: nat, width: nat)
    ensures
        be_bytes(n, width).len() == width,
    decreases width,
{
    if width > 0 {
        lemma_be_bytes_len(n / 256, (width - 1) as nat);
    }
}

/// Two to the power eight times `width`.
pub open spec fn byte_range(width: nat) -> nat
    decreases width,
{
    if width == 0 {
        1
    } else {
        byte_range((width - 1) as nat) * 256
    }
}

/// A number that fits is read back from its bytes.
pub proof fn lemma_be_bytes_read_back(n: nat, width: nat)
    requires
        n < byte_range(width),
    ensures
        be_value(be_bytes(n, width)) == n,
    decreases width,
{
    if width > 0 {
        lemma_be_bytes_read_back(n / 256, (width - 1) as nat);
        assert(be_bytes(n, width).drop_last() =~= be_bytes(n / 256, (width - 1) as nat));
    }
}

/// Appends a field: its length in four bytes, then its bytes.
pub fn append_bytes(payload: &mut Vec<u8>, value: &[u8])
    ensures
        final(payload)@ == old(payload)@ + field(value@),
{
    let len: u64 = if value.len() <= 0xffff_ffff {
        value.len() as u64
    } else {
        0xffff_ffff
    };
    let prefix: Vec<u8> = big_endian(len, 4);
    payload.extend_from_slice(prefix.as_slice());
    payload.extend_from_slice(value);
    assert(payload@ =~= old(payload)@ + field(value@));
}

/// Appends a text as a field of its UTF-8 bytes.
pub fn append_str(payload: &mut Vec<u8>, value: &str)
    ensures
        final(payload)@ == old(payload)@ + field(encode_utf8(value@)),
{
    append_bytes(payload, value.as_bytes());
}

/// Appends a signed number of 64 bits in network order.
pub fn append_i64(payload: &mut Vec<u8>, value: i64)
    ensures
        final(payload)@ == old(payload)@ + i64_field(value),
{
    let bits: u64 = if value < 0 {
        (value as i128 + 0x1_0000_0000_0000_0000) as u64
    } else {
        value as u64
    };
    let bytes: Vec<u8> = big_endian(bits, 8);
    payload.extend_from_slice(bytes.as_slice());
    assert(payload@ =~= old(payload)@ + i64_field(value));
}

/// Appends a signed number of 32 bits in network order.
pub fn append_i32(payload: &mut Vec<u8>, value: i32)
    ensures
        final(payload)@ == old(payload)@ + i32_field(value),
{
    let bits: u64 = if value < 0 {
        (value as i64 + 0x1_0000_0000) as u64
    } else {
        value as u64
    };
    let bytes: Vec<u8> = big_endian(bits, 4);
    payload.extend_from_slice(bytes.as_slice());
    assert(payload@ =~= old(payload)@ + i32_field(value));
}

/// A field, and what follows it, are read back from their bytes, where the length fits in its
/// prefix.
pub proof fn lemma_field_read_back(a: Seq<u8>, a_rest: Seq<u8>, b: Seq<u8>, b_rest: Seq<u8>)
    requires
        a.len() <= u32::MAX,
        b.len() <= u32::MAX,
        field(a) + a_rest == field(b) + b_rest,
    ensures
        a == b,
        a_rest == b_rest,
{
    let whole = field(a) + a_rest;
    lemma_be_bytes_len(a.len(), 4);
    lemma_be_bytes_len(b.len(), 4);
    assert(whole.take(4) =~= be_bytes(a.len(), 4));
    assert((field(b) + b_rest).take(4) =~= be_bytes(b.len(), 4));
    lemma_byte_ranges();
    lemma_be_bytes_read_back(a.len(), 4);
    lemma_be_bytes_read_back(b.len(), 4);
    assert(a.len() == b.len());
    assert(a =~= whole.subrange(4, 4 + a.len() as int));
    assert(b =~= (field(b) + b_rest).subrange(4, 4 + b.len() as int));
    assert(a_rest =~= whole.skip(4 + a.len() as int));
    assert(b_rest =~= (field(b) + b_rest).skip(4 + b.len() as int));
}

/// The ranges of four and of eight bytes.
pub proof fn lemma_byte_ranges()
    ensures
        byte_range(4) == 0x1_0000_0000,
        byte_range(8) == 0x1_0000_0000_0000_0000,
{
    reveal_with_fuel(byte_range, 9);
}

/// A signed number of 64 bits, and what follows it, are read back from their bytes.
pub proof fn lemma_i64_read_back(a: i64, a_rest: Seq<u8>, b: i64, b_rest: Seq<u8>)
    requires
        i64_field(a) + a_rest == i64_field(b) + b_rest,
    ensures
        a == b,
        a_rest == b_rest,
{
    lemma_byte_ranges();
    lemma_be_bytes_len(bits_of_i64(a), 8);
    lemma_be_bytes_len(bits_of_i64(b), 8);
    lemma_be_bytes_read_back(bits_of_i64(a), 8);
    lemma_be_bytes_read_back(bits_of_i64(b), 8);
    assert((i64_field(a) + a_rest).take(8) =~= i64_field(a));
    assert((i64_field(b) + b_rest).take(8) =~= i64_field(b));
    assert((i64_field(a) + a_rest).skip(8) =~= a_rest);
    assert((i64_field(b) + b_rest).skip(8) =~= b_rest);
}

/// A signed number of 32 bits, and what follows it, are read back from their bytes.
pub proof fn lemma_i32_read_back(a: i32, a_rest: Seq<u8>, b: i32, b_rest: Seq<u8>)
    requires
        i32_field(a) + a_rest == i32_field(b) + b_rest,
    ensures
        a == b,
        a_rest == b_rest,
{
    lemma_byte_ranges();
    lemma_be_bytes_len(bits_of_i32(a), 4);
    lemma_be_bytes_len(bits_of_i32(b), 4);
    lemma_be_bytes_read_back(bits_of_i32(a), 4);
    lemma_be_bytes_read_back(bits_of_i32(b), 4);
    assert((i32_field(a) + a_rest).take(4) =~= i32_field(a));
    assert((i32_field(b) + b_rest).take(4) =~= i32_field(b));
    assert((i32_field(a) + a_rest).skip(4) =~= a_rest);
    assert((i32_field(b) + b_rest).skip(4) =~= b_rest);
}

/// A text is read back from its UTF-8 bytes.
pub proof fn lemma_utf8_read_back(a: Seq<char>, b: Seq<char>)
    requires
        encode_utf8(a) == encode_utf8(b),
    ensures
        a == b,
{
    encode_utf8_decode_utf8(a);
    encode_utf8_decode_utf8(b);
}

} // verus!
