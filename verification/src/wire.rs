//! Little-endian integers on the wire.
//!
//! The bytes are read and written by the `byteorder` crate. What its functions return is
//! stated here over `le_value` and `le_digits`, and the round trips are proved from that.

use byteorder::{ByteOrder, LittleEndian};
use vstd::prelude::*;

verus! {

/// The number that `bytes` spell, least significant byte first.
pub open spec fn le_value(bytes: Seq<u8>) -> nat
    decreases bytes.len(),
{
    if bytes.len() == 0 {
        0
    } else {
        bytes[0] as nat + 256 * le_value(bytes.drop_first())
    }
}

/// The lowest `count` bytes of `value`, least significant byte first.
pub open spec fn le_digits(value: nat, count: nat) -> Seq<u8>
    decreases count,
{
    if count == 0 {
        Seq::empty()
    } else {
        seq![(value % 256) as u8] + le_digits(value / 256, (count - 1) as nat)
    }
}

/// 256 to the power of `count`: the number of values that `count` bytes can spell.
pub open spec fn byte_range(count: nat) -> nat
    decreases count,
{
    if count == 0 {
        1
    } else {
        256 * byte_range((count - 1) as nat)
    }
}

/// The unsigned 64-bit number with the bits of `value` in two's complement.
pub open spec fn as_unsigned(value: i64) -> nat {
    if value < 0 {
        (value + 0x1_0000_0000_0000_0000) as nat
    } else {
        value as nat
    }
}

/// The signed number whose two's complement bits spell the unsigned 64-bit number `bits`.
pub open spec fn as_signed(bits: nat) -> int {
    if bits >= 0x8000_0000_0000_0000 {
        bits - 0x1_0000_0000_0000_0000
    } else {
        bits as int
    }
}

/// `le_digits` yields as many bytes as it is asked for.
pub proof fn lemma_le_digits_len(value: nat, count: nat)
    ensures
        le_digits(value, count).len() == count,
    decreases count,
{
    if count > 0 {
        lemma_le_digits_len(value / 256, (count - 1) as nat);
    }
}

/// A number that fits in `count` bytes is read back from its digits.
pub proof fn lemma_value_of_digits(value: nat, count: nat)
    requires
        value < byte_range(count),
    ensures
        le_value(le_digits(value, count)) == value,
    decreases count,
{
    if count > 0 {
        let rest = le_digits(value / 256, (count - 1) as nat);
        let all = le_digits(value, count);
        lemma_value_of_digits(value / 256, (count - 1) as nat);
        assert(all.drop_first() =~= rest);
        assert(all[0] == (value % 256) as u8);
    }
}

/// Four bytes spell the 32-bit numbers, eight bytes the 64-bit numbers.
pub proof fn lemma_byte_ranges()
    ensures
        byte_range(4) == 0x1_0000_0000,
        byte_range(8) == 0x1_0000_0000_0000_0000,
{
    reveal_with_fuel(byte_range, 9);
}

/// Two's complement loses nothing: a signed number is read back from its bits, which fit in
/// eight bytes.
pub proof fn lemma_signed_round_trip(value: i64)
    ensures
        as_unsigned(value) < byte_range(8),
        as_signed(as_unsigned(value)) == value,
{
    lemma_byte_ranges();
}

/// Reads a `u32` from the first four bytes of `bytes` with `byteorder`'s
/// `LittleEndian::read_u32`, which takes them least significant byte first and panics on
/// fewer than four bytes.
#[verifier::external_body]
pub(crate) fn read_u32(bytes: &[u8]) -> (value: u32)
    requires
        bytes@.len() >= 4,
    ensures
        value == le_value(bytes@.take(4)),
{
    LittleEndian::read_u32(bytes)
}

/// Reads an `i64` from the first eight bytes of `bytes` with `byteorder`'s
/// `LittleEndian::read_i64`, which takes them least significant byte first, in two's
/// complement, and panics on fewer than eight bytes.
#[verifier::external_body]
pub(crate) fn read_i64(bytes: &[u8]) -> (value: i64)
    requires
        bytes@.len() >= 8,
    ensures
        value == as_signed(le_value(bytes@.take(8))),
{
    LittleEndian::read_i64(bytes)
}

/// Spells `value` in four bytes with `byteorder`'s `LittleEndian::write_u32`, which puts the
/// least significant byte first.
#[verifier::external_body]
pub(crate) fn write_u32(value: u32) -> (bytes: Vec<u8>)
    ensures
        bytes@ == le_digits(value as nat, 4),
{
    let mut buf = [0u8; 4];
    LittleEndian::write_u32(&mut buf, value);
    buf.to_vec()
}

/// Spells `value` in eight bytes with `byteorder`'s `LittleEndian::write_i64`, which puts the
/// least significant byte of its two's complement first.
#[verifier::external_body]
pub(crate) fn write_i64(value: i64) -> (bytes: Vec<u8>)
    ensures
        bytes@ == le_digits(as_unsigned(value), 8),
{
    let mut buf = [0u8; 8];
    LittleEndian::write_i64(&mut buf, value);
    buf.to_vec()
}

/// The signed 16-bit number whose two's complement bits spell the unsigned number `bits`.
pub open spec fn as_signed16(bits: nat) -> int {
    if bits >= 0x8000 {
        bits - 0x1_0000
    } else {
        bits as int
    }
}

/// Reads an `i16` from the first two bytes of `bytes` with `byteorder`'s
/// `LittleEndian::read_i16`, which takes them least significant byte first, in two's
/// complement, and panics on fewer than two bytes.
#[verifier::external_body]
pub(crate) fn read_i16(bytes: &[u8]) -> (value: i16)
    requires
        bytes@.len() >= 2,
    ensures
        value == as_signed16(le_value(bytes@.take(2))),
{
    LittleEndian::read_i16(bytes)
}

} // verus!
