//! Little-endian, two's-complement numbers as byte sequences.

use byteorder::{ByteOrder, LittleEndian};
use vstd::prelude::*;

verus! {

/// 256 to the power `n`.
pub open spec fn pow256(n: nat) -> nat
    decreases n,
{
    if n == 0 {
        1
    } else {
        256 * pow256((n - 1) as nat)
    }
}

/// The `n` low bytes of `x`, least significant first.
pub open spec fn le_bytes(x: nat, n: nat) -> Seq<u8>
    decreases n,
{
    if n == 0 {
        Seq::empty()
    } else {
        seq![(x % 256) as u8] + le_bytes(x / 256, (n - 1) as nat)
    }
}

/// The number that the bytes `s` stand for, least significant first.
pub open spec fn le_value(s: Seq<u8>) -> nat
    decreases s.len(),
{
    if s.len() == 0 {
        0
    } else {
        s[0] as nat + 256 * le_value(s.drop_first())
    }
}

/// The 32-bit pattern of `v` in two's complement.
pub open spec fn bits32(v: i32) -> nat {
    if v >= 0 {
        v as nat
    } else {
        (v + 0x1_0000_0000) as nat
    }
}

/// The signed number whose two's-complement pattern is `x`.
pub open spec fn signed32(x: nat) -> i32 {
    if x < 0x8000_0000 {
        x as i32
    } else {
        (x - 0x1_0000_0000) as i32
    }
}

/// The 64-bit pattern of `v` in two's complement.
pub open spec fn bits64(v: i64) -> nat {
    if v >= 0 {
        v as nat
    } else {
        (v + 0x1_0000_0000_0000_0000) as nat
    }
}

/// The signed number whose two's-complement pattern is `x`.
pub open spec fn signed64(x: nat) -> i64 {
    if x < 0x8000_0000_0000_0000 {
        x as i64
    } else {
        (x - 0x1_0000_0000_0000_0000) as i64
    }
}

/// The four bytes of a 32-bit signed integer on the wire.
pub open spec fn int_bytes(v: i32) -> Seq<u8> {
    le_bytes(bits32(v), 4)
}

/// The 32-bit signed integer that four wire bytes hold.
pub open spec fn int_of(s: Seq<u8>) -> i32 {
    signed32(le_value(s))
}

/// The eight bytes of a 64-bit signed integer on the wire.
pub open spec fn long_bytes(v: i64) -> Seq<u8> {
    le_bytes(bits64(v), 8)
}

/// The 64-bit signed integer that eight wire bytes hold.
pub open spec fn long_of(s: Seq<u8>) -> i64 {
    signed64(le_value(s))
}

/// The eight bytes of a 64-bit pattern on the wire.
pub open spec fn word_bytes(v: u64) -> Seq<u8> {
    le_bytes(v as nat, 8)
}

/// The 64-bit pattern that eight wire bytes hold.
pub open spec fn word_of(s: Seq<u8>) -> u64 {
    le_value(s) as u64
}

/// `le_bytes` yields as many bytes as it is asked for.
pub proof fn lemma_le_bytes_len(x: nat, n: nat)
    ensures
        le_bytes(x, n).len() == n,
    decreases n,
{
    if n > 0 {
        lemma_le_bytes_len(x / 256, (n - 1) as nat);
    }
}

/// Reading back the `n` low bytes of a number that fits in them gives the number.
pub proof fn lemma_le_value_of_bytes(x: nat, n: nat)
    requires
        x < pow256(n),
    ensures
        le_value(le_bytes(x, n)) == x,
    decreases n,
{
    if n > 0 {
        let rest = le_bytes(x / 256, (n - 1) as nat);
        let all = le_bytes(x, n);
        lemma_le_bytes_len(x / 256, (n - 1) as nat);
        lemma_le_value_of_bytes(x / 256, (n - 1) as nat);
        assert(all.drop_first() =~= rest);
        assert(all[0] == (x % 256) as u8);
    }
}

/// Sizes of the fixed-width encodings.
pub proof fn lemma_fixed_widths(a: i32, b: i64, c: u64)
    ensures
        int_bytes(a).len() == 4,
        long_bytes(b).len() == 8,
        word_bytes(c).len() == 8,
{
    lemma_le_bytes_len(bits32(a), 4);
    lemma_le_bytes_len(bits64(b), 8);
    lemma_le_bytes_len(c as nat, 8);
}

/// A 32-bit signed integer survives the trip through its four wire bytes.
pub proof fn lemma_int_round_trip(v: i32)
    ensures
        int_of(int_bytes(v)) == v,
{
    reveal_with_fuel(pow256, 5);
    lemma_le_value_of_bytes(bits32(v), 4);
}

/// A 64-bit signed integer survives the trip through its eight wire bytes.
pub proof fn lemma_long_round_trip(v: i64)
    ensures
        long_of(long_bytes(v)) == v,
{
    reveal_with_fuel(pow256, 9);
    lemma_le_value_of_bytes(bits64(v), 8);
}

/// A 64-bit pattern survives the trip through its eight wire bytes.
pub proof fn lemma_word_round_trip(v: u64)
    ensures
        word_of(word_bytes(v)) == v,
{
    reveal_with_fuel(pow256, 9);
    lemma_le_value_of_bytes(v as nat, 8);
}

/// `byteorder::LittleEndian::write_i32` on a buffer of four bytes: the buffer
/// then holds the two's-complement pattern of `n`, least significant byte first.
#[verifier::external_body]
pub(crate) fn put_int(n: i32) -> (b: Vec<u8>)
    ensures
        b@ == int_bytes(n),
{
    let mut buf = [0u8; 4];
    LittleEndian::write_i32(&mut buf, n);
    buf.to_vec()
}

/// `byteorder::LittleEndian::read_i32`: the signed integer whose
/// two's-complement pattern the first four bytes of `b` hold, least
/// significant byte first. It panics on fewer than four bytes.
#[verifier::external_body]
pub(crate) fn get_int(b: &[u8]) -> (n: i32)
    requires
        b@.len() >= 4,
    ensures
        n == int_of(b@.take(4)),
{
    LittleEndian::read_i32(b)
}

/// `byteorder::LittleEndian::write_i64` on a buffer of eight bytes: the buffer
/// then holds the two's-complement pattern of `n`, least significant byte first.
#[verifier::external_body]
pub(crate) fn put_long(n: i64) -> (b: Vec<u8>)
    ensures
        b@ == long_bytes(n),
{
    let mut buf = [0u8; 8];
    LittleEndian::write_i64(&mut buf, n);
    buf.to_vec()
}

/// `byteorder::LittleEndian::read_i64`: the signed integer whose
/// two's-complement pattern the first eight bytes of `b` hold, least
/// significant byte first. It panics on fewer than eight bytes.
#[verifier::external_body]
pub(crate) fn get_long(b: &[u8]) -> (n: i64)
    requires
        b@.len() >= 8,
    ensures
        n == long_of(b@.take(8)),
{
    LittleEndian::read_i64(b)
}

/// `byteorder::LittleEndian::write_u64` on a buffer of eight bytes: the buffer
/// then holds `n`, least significant byte first.
#[verifier::external_body]
pub(crate) fn put_word(n: u64) -> (b: Vec<u8>)
    ensures
        b@ == word_bytes(n),
{
    let mut buf = [0u8; 8];
    LittleEndian::write_u64(&mut buf, n);
    buf.to_vec()
}

/// `byteorder::LittleEndian::read_u64`: the number that the first eight bytes
/// of `b` hold, least significant byte first. It panics on fewer than eight
/// bytes.
#[verifier::external_body]
pub(crate) fn get_word(b: &[u8]) -> (n: u64)
    requires
        b@.len() >= 8,
    ensures
        n == word_of(b@.take(8)),
{
    LittleEndian::read_u64(b)
}

} // verus!
