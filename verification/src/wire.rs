//! Fixed-width little-endian integers on the wire.
//!
//! Every integer of a snapshot or of an input buffer is written by `bincode`
//! in its fixed-width little-endian form.  This module states that form over
//! byte sequences, wraps the calls, and proves that writing and reading are
//! inverse to each other.

use vstd::prelude::*;

verus! {

/// The first `width` little-endian digits of `value` in base 256.
pub open spec fn le_bytes(value: nat, width: nat) -> Seq<u8>
    decreases width,
{
    if width == 0 {
        Seq::empty()
    } else {
        seq![(value % 256) as u8] + le_bytes(value / 256, (width - 1) as nat)
    }
}

/// The number whose little-endian digits in base 256 are `bytes`.
pub open spec fn le_value(bytes: Seq<u8>) -> nat
    decreases bytes.len(),
{
    if bytes.len() == 0 {
        0
    } else {
        bytes[0] as nat + 256 * le_value(bytes.drop_first())
    }
}

/// The number of values that `width` bytes can tell apart: 256 to the `width`.
pub open spec fn span(width: nat) -> nat
    decreases width,
{
    if width == 0 {
        1
    } else {
        256 * span((width - 1) as nat)
    }
}

/// The unsigned 32-bit number that shares its bits with `value`.
pub open spec fn i32_bits(value: i32) -> nat {
    if value < 0 {
        (value + 0x1_0000_0000) as nat
    } else {
        value as nat
    }
}

/// The signed 32-bit number that shares its bits with `bits`.
pub open spec fn bits_i32(bits: nat) -> i32 {
    if bits >= 0x8000_0000 {
        (bits - 0x1_0000_0000) as i32
    } else {
        bits as i32
    }
}

/// The spans of the widths in use.
pub proof fn lemma_span_values()
    ensures
        span(1) == 0x100,
        span(4) == 0x1_0000_0000,
        span(8) == 0x1_0000_0000_0000_0000,
{
    reveal_with_fuel(span, 9);
}

/// A value written at a width takes that many bytes.
pub proof fn lemma_le_bytes_len(value: nat, width: nat)
    ensures
        le_bytes(value, width).len() == width,
    decreases width,
{
    if width > 0 {
        lemma_le_bytes_len(value / 256, (width - 1) as nat);
    }
}

/// Reading back what was written gives the value, reduced to the width.
pub proof fn lemma_le_value_of_bytes(value: nat, width: nat)
    ensures
        le_value(le_bytes(value, width)) == value % span(width),
    decreases width,
{
    if width > 0 {
        let rest = le_bytes(value / 256, (width - 1) as nat);
        let all = le_bytes(value, width);
        lemma_le_bytes_len(value / 256, (width - 1) as nat);
        assert(all.drop_first() =~= rest);
        lemma_le_value_of_bytes(value / 256, (width - 1) as nat);
        let s = span((width - 1) as nat);
        lemma_span_positive((width - 1) as nat);
        lemma_mod_by_digits(value, s);
    }
}

/// Splits a remainder modulo `256 * s` into its lowest digit and the rest.
proof fn lemma_mod_by_digits(value: nat, s: nat)
    requires
        s > 0,
    ensures
        value % (256 * s) == value % 256 + 256 * ((value / 256) % s),
{
    let q = value / 256;
    let low = value % 256;
    let a = q / s;
    let b = q % s;
    assert(q == a * s + b) by {
        vstd::arithmetic::div_mod::lemma_fundamental_div_mod(q as int, s as int);
        assert(s * a == a * s) by (nonlinear_arith);
    }
    let rem = low + 256 * b;
    assert(0 <= rem < 256 * s) by (nonlinear_arith)
        requires
            0 <= low < 256,
            0 <= b < s,
            rem == low + 256 * b,
    ;
    assert(value == a * (256 * s) + rem) by (nonlinear_arith)
        requires
            value == 256 * q + low,
            q == a * s + b,
            rem == low + 256 * b,
    ;
    vstd::arithmetic::div_mod::lemma_fundamental_div_mod_converse(
        value as int,
        (256 * s) as int,
        a as int,
        rem as int,
    );
}

/// Every width tells at least one value apart.
pub proof fn lemma_span_positive(width: nat)
    ensures
        span(width) > 0,
    decreases width,
{
    if width > 0 {
        lemma_span_positive((width - 1) as nat);
    }
}

/// A value read from `bytes` fits the width of `bytes`.
pub proof fn lemma_le_value_bound(bytes: Seq<u8>)
    ensures
        le_value(bytes) < span(bytes.len()),
    decreases bytes.len(),
{
    if bytes.len() > 0 {
        lemma_le_value_bound(bytes.drop_first());
    }
}

/// Writing what was read gives the bytes back.
pub proof fn lemma_le_bytes_of_value(bytes: Seq<u8>)
    ensures
        le_bytes(le_value(bytes), bytes.len()) == bytes,
    decreases bytes.len(),
{
    if bytes.len() > 0 {
        let rest = bytes.drop_first();
        lemma_le_bytes_of_value(rest);
        let value = le_value(bytes);
        assert(value % 256 == bytes[0] as nat);
        assert(value / 256 == le_value(rest));
        assert(le_bytes(value, bytes.len()) =~= bytes);
    } else {
        assert(le_bytes(le_value(bytes), bytes.len()) =~= bytes);
    }
}

/// `bincode::ErrorKind`, the error that `bincode` reports.  It is carried
/// through as it is; nothing is claimed of what it holds.
#[verifier::external_type_specification]
#[verifier::external_body]
pub struct ExErrorKind(bincode::ErrorKind);

/// `bincode::serialize` on a `u8`.  Believed, not proved: the call
/// succeeds, since it writes into a vector and sets no size limit, and
/// gives one byte, the value itself.
#[verifier::external_body]
pub(crate) fn write_u8(value: u8) -> (out: Result<Vec<u8>, bincode::Error>)
    ensures
        out is Ok,
        out->Ok_0@ == le_bytes(value as nat, 1),
{
    bincode::serialize(&value)
}

/// `bincode::serialize` on a `u32`.  Believed, not proved: the call
/// succeeds, since it writes into a vector and sets no size limit, and
/// gives the four little-endian bytes of the value.
#[verifier::external_body]
pub(crate) fn write_u32(value: u32) -> (out: Result<Vec<u8>, bincode::Error>)
    ensures
        out is Ok,
        out->Ok_0@ == le_bytes(value as nat, 4),
{
    bincode::serialize(&value)
}

/// `bincode::serialize` on an `i32`.  Believed, not proved: the call
/// succeeds, since it writes into a vector and sets no size limit, and
/// gives the four little-endian bytes of the value's two's-complement bits.
#[verifier::external_body]
pub(crate) fn write_i32(value: i32) -> (out: Result<Vec<u8>, bincode::Error>)
    ensures
        out is Ok,
        out->Ok_0@ == le_bytes(i32_bits(value), 4),
{
    bincode::serialize(&value)
}

/// `bincode::serialize` on a `u64`.  Believed, not proved: the call
/// succeeds, since it writes into a vector and sets no size limit, and
/// gives the eight little-endian bytes of the value.
#[verifier::external_body]
pub(crate) fn write_u64(value: u64) -> (out: Result<Vec<u8>, bincode::Error>)
    ensures
        out is Ok,
        out->Ok_0@ == le_bytes(value as nat, 8),
{
    bincode::serialize(&value)
}

/// `bincode::deserialize` to a `u8`.  Believed, not proved: the call fails
/// on an empty buffer, and else gives the first byte; bytes after it are
/// ignored.
#[verifier::external_body]
pub(crate) fn read_u8(bytes: &[u8]) -> (out: Result<u8, bincode::Error>)
    ensures
        out is Ok <==> bytes@.len() >= 1,
        out is Ok ==> out->Ok_0 as nat == le_value(bytes@.take(1)),
{
    bincode::deserialize(bytes)
}

/// `bincode::deserialize` to a `u32`.  Believed, not proved: the call
/// fails on fewer than four bytes, and else reads the first four as a
/// little-endian number; bytes after them are ignored.
#[verifier::external_body]
pub(crate) fn read_u32(bytes: &[u8]) -> (out: Result<u32, bincode::Error>)
    ensures
        out is Ok <==> bytes@.len() >= 4,
        out is Ok ==> out->Ok_0 as nat == le_value(bytes@.take(4)),
{
    bincode::deserialize(bytes)
}

/// `bincode::deserialize` to an `i32`.  Believed, not proved: the call
/// fails on fewer than four bytes, and else reads the first four as the
/// little-endian two's-complement bits of the number; bytes after them are
/// ignored.
#[verifier::external_body]
pub(crate) fn read_i32(bytes: &[u8]) -> (out: Result<i32, bincode::Error>)
    ensures
        out is Ok <==> bytes@.len() >= 4,
        out is Ok ==> out->Ok_0 == bits_i32(le_value(bytes@.take(4))),
{
    bincode::deserialize(bytes)
}

/// `bincode::deserialize` to a `u64`.  Believed, not proved: the call
/// fails on fewer than eight bytes, and else reads the first eight as a
/// little-endian number; bytes after them are ignored.
#[verifier::external_body]
pub(crate) fn read_u64(bytes: &[u8]) -> (out: Result<u64, bincode::Error>)
    ensures
        out is Ok <==> bytes@.len() >= 8,
        out is Ok ==> out->Ok_0 as nat == le_value(bytes@.take(8)),
{
    bincode::deserialize(bytes)
}

/// The 32-bit word that `bytes` holds at `at`.
pub open spec fn word_at(bytes: Seq<u8>, at: int) -> u32 {
    le_value(bytes.subrange(at, at + 4)) as u32
}

/// The signed 32-bit number that `bytes` holds at `at`.
pub open spec fn int_at(bytes: Seq<u8>, at: int) -> i32 {
    bits_i32(le_value(bytes.subrange(at, at + 4)))
}

/// The 64-bit count that `bytes` holds at `at`.
pub open spec fn count_at(bytes: Seq<u8>, at: int) -> u64 {
    le_value(bytes.subrange(at, at + 8)) as u64
}

/// The bytes of a write.  No write of an integer fails, so the caller
/// shows that there are bytes to take.
fn written(out: Result<Vec<u8>, bincode::Error>) -> (bytes: Vec<u8>)
    requires
        out is Ok,
    ensures
        bytes@ == out->Ok_0@,
{
    match out {
        Ok(bytes) => bytes,
        Err(_) => vstd::pervasive::unreached(),
    }
}

/// Appends the wire form of `value` to `buffer`.
pub(crate) fn put_u32(buffer: &mut Vec<u8>, value: u32)
    ensures
        final(buffer)@ == old(buffer)@ + le_bytes(value as nat, 4),
{
    let mut bytes = written(write_u32(value));
    buffer.append(&mut bytes);
}

/// Appends the wire form of `value` to `buffer`.
pub(crate) fn put_i32(buffer: &mut Vec<u8>, value: i32)
    ensures
        final(buffer)@ == old(buffer)@ + le_bytes(i32_bits(value), 4),
{
    let mut bytes = written(write_i32(value));
    buffer.append(&mut bytes);
}

/// Appends the wire form of `value` to `buffer`.
pub(crate) fn put_u64(buffer: &mut Vec<u8>, value: u64)
    ensures
        final(buffer)@ == old(buffer)@ + le_bytes(value as nat, 8),
{
    let mut bytes = written(write_u64(value));
    buffer.append(&mut bytes);
}

/// Reads the word at `at`, if the buffer reaches that far.
pub(crate) fn get_u32(bytes: &[u8], at: usize) -> (out: Option<u32>)
    requires
        at <= bytes@.len(),
    ensures
        out is Some <==> at + 4 <= bytes@.len(),
        out is Some ==> out->Some_0 == word_at(bytes@, at as int),
{
    let rest = vstd::slice::slice_subrange(bytes, at, bytes.len());
    proof {
        if at + 4 <= bytes@.len() {
            assert(rest@.take(4) =~= bytes@.subrange(at as int, at + 4));
        }
    }
    match read_u32(rest) {
        Ok(value) => Some(value),
        Err(_) => None,
    }
}

/// Reads the signed number at `at`, if the buffer reaches that far.
pub(crate) fn get_i32(bytes: &[u8], at: usize) -> (out: Option<i32>)
    requires
        at <= bytes@.len(),
    ensures
        out is Some <==> at + 4 <= bytes@.len(),
        out is Some ==> out->Some_0 == int_at(bytes@, at as int),
{
    let rest = vstd::slice::slice_subrange(bytes, at, bytes.len());
    proof {
        if at + 4 <= bytes@.len() {
            assert(rest@.take(4) =~= bytes@.subrange(at as int, at + 4));
        }
    }
    match read_i32(rest) {
        Ok(value) => Some(value),
        Err(_) => None,
    }
}

/// Reads the count at `at`, if the buffer reaches that far.
pub(crate) fn get_u64(bytes: &[u8], at: usize) -> (out: Option<u64>)
    requires
        at <= bytes@.len(),
    ensures
        out is Some <==> at + 8 <= bytes@.len(),
        out is Some ==> out->Some_0 == count_at(bytes@, at as int),
{
    let rest = vstd::slice::slice_subrange(bytes, at, bytes.len());
    proof {
        if at + 8 <= bytes@.len() {
            assert(rest@.take(8) =~= bytes@.subrange(at as int, at + 8));
        }
    }
    match read_u64(rest) {
        Ok(value) => Some(value),
        Err(_) => None,
    }
}

/// A word that was written between `before` and `after` is read back at
/// the place where it starts.
pub proof fn lemma_word_written(before: Seq<u8>, value: u32, after: Seq<u8>)
    ensures
        word_at(before + le_bytes(value as nat, 4) + after, before.len() as int) == value,
{
    let all = before + le_bytes(value as nat, 4) + after;
    lemma_le_bytes_len(value as nat, 4);
    assert(all.subrange(before.len() as int, before.len() as int + 4) =~= le_bytes(value as nat, 4));
    lemma_le_value_of_bytes(value as nat, 4);
    lemma_span_values();
    assert((value as nat) % 0x1_0000_0000 == value as nat);
}

/// A signed number that was written between `before` and `after` is read
/// back at the place where it starts.
pub proof fn lemma_int_written(before: Seq<u8>, value: i32, after: Seq<u8>)
    ensures
        int_at(before + le_bytes(i32_bits(value), 4) + after, before.len() as int) == value,
{
    let all = before + le_bytes(i32_bits(value), 4) + after;
    lemma_le_bytes_len(i32_bits(value), 4);
    assert(all.subrange(before.len() as int, before.len() as int + 4) =~= le_bytes(i32_bits(value), 4));
    lemma_le_value_of_bytes(i32_bits(value), 4);
    lemma_span_values();
    assert(i32_bits(value) % 0x1_0000_0000 == i32_bits(value));
}

/// A count that was written between `before` and `after` is read back at
/// the place where it starts.
pub proof fn lemma_count_written(before: Seq<u8>, value: u64, after: Seq<u8>)
    ensures
        count_at(before + le_bytes(value as nat, 8) + after, before.len() as int) == value,
{
    let all = before + le_bytes(value as nat, 8) + after;
    lemma_le_bytes_len(value as nat, 8);
    assert(all.subrange(before.len() as int, before.len() as int + 8) =~= le_bytes(value as nat, 8));
    lemma_le_value_of_bytes(value as nat, 8);
    lemma_span_values();
    assert((value as nat) % 0x1_0000_0000_0000_0000 == value as nat);
}

} // verus!
