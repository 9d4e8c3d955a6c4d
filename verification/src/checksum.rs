//! The 16-bit additive checksum that guards snapshots.

use vstd::prelude::*;

verus! {

/// Sum of all bytes of `data`.
pub open spec fn byte_sum(data: Seq<u8>) -> int
    decreases data.len(),
{
    if data.len() == 0 {
        0
    } else {
        byte_sum(data.drop_last()) + data.last() as int
    }
}

/// Sum of the byte sums of all non-empty prefixes of `data`: the byte at
/// index `i` is counted `data.len() - i` times.
pub open spec fn prefix_sums(data: Seq<u8>) -> int
    decreases data.len(),
{
    if data.len() == 0 {
        0
    } else {
        prefix_sums(data.drop_last()) + byte_sum(data)
    }
}

/// Low half of the checksum: the byte sum reduced modulo 255.
pub open spec fn low_sum(data: Seq<u8>) -> int {
    byte_sum(data) % 255
}

/// High half of the checksum: the sum of prefix sums reduced modulo 255.
pub open spec fn high_sum(data: Seq<u8>) -> int {
    prefix_sums(data) % 255
}

/// The checksum of `data` as a number: high half times 256 plus low half.
pub open spec fn checksum_of(data: Seq<u8>) -> int {
    high_sum(data) * 256 + low_sum(data)
}

/// Computes the checksum of a byte buffer.
///
/// The result depends on the bytes alone, so equal buffers always have
/// equal checksums.
pub fn fletcher16(data: &[u8]) -> (sum: u16)
    ensures
        sum as int == checksum_of(data@),
{
    let mut sum1: u16 = 0;
    let mut sum2: u16 = 0;
    let mut index: usize = 0;
    while index < data.len()
        invariant
            index <= data.len(),
            sum1 as int == low_sum(data@.take(index as int)),
            sum2 as int == high_sum(data@.take(index as int)),
        decreases data.len() - index,
    {
        proof {
            let next = data@.take(index as int + 1);
            assert(next.drop_last() =~= data@.take(index as int));
            assert(next.last() == data@[index as int]);
        }
        sum1 = (sum1 + data[index] as u16) % 255;
        sum2 = (sum2 + sum1) % 255;
        index += 1;
    }
    proof {
        assert(data@.take(index as int) =~= data@);
        assert((sum2 << 8) | sum1 == sum2 * 256 + sum1) by (bit_vector)
            requires
                sum1 < 255,
                sum2 < 255,
        ;
    }
    (sum2 << 8) | sum1
}

/// Replacing one byte shifts the byte sum by the difference of the two bytes.
proof fn lemma_byte_sum_update(data: Seq<u8>, index: int, byte: u8)
    requires
        0 <= index < data.len(),
    ensures
        byte_sum(data.update(index, byte)) == byte_sum(data) - data[index] + byte,
    decreases data.len(),
{
    let changed = data.update(index, byte);
    if index == data.len() - 1 {
        assert(changed.drop_last() =~= data.drop_last());
    } else {
        assert(changed.drop_last() =~= data.drop_last().update(index, byte));
        lemma_byte_sum_update(data.drop_last(), index, byte);
    }
}

/// The checksum lies below 65536 and its low half can be read back from it.
pub proof fn lemma_checksum_halves(data: Seq<u8>)
    ensures
        0 <= checksum_of(data) < 65536,
        checksum_of(data) % 256 == low_sum(data),
        checksum_of(data) / 256 == high_sum(data),
        0 <= low_sum(data) < 255,
        0 <= high_sum(data) < 255,
{
}

/// A buffer that differs from another in exactly one byte has a different
/// checksum, unless the two bytes are congruent modulo 255 (which holds
/// only of the pair 0 and 255).
pub proof fn lemma_checksum_byte_change(data: Seq<u8>, index: int, byte: u8)
    requires
        0 <= index < data.len(),
        (byte - data[index]) % 255 != 0,
    ensures
        checksum_of(data.update(index, byte)) != checksum_of(data),
{
    lemma_byte_sum_update(data, index, byte);
    lemma_checksum_halves(data);
    lemma_checksum_halves(data.update(index, byte));
    let before = byte_sum(data);
    let delta = byte - data[index];
    assert((before + delta) % 255 != before % 255);
}

/// Flipping any single bit of a buffer changes its checksum.
pub proof fn lemma_checksum_bit_flip(data: Seq<u8>, index: int, bit: u8)
    requires
        0 <= index < data.len(),
        bit < 8,
    ensures
        checksum_of(data.update(index, data[index] ^ (1u8 << bit))) != checksum_of(data),
{
    let old_byte = data[index];
    let new_byte = old_byte ^ (1u8 << bit);
    assert(new_byte != old_byte && (new_byte > old_byte ==> new_byte - old_byte <= 128) && (
    new_byte < old_byte ==> old_byte - new_byte <= 128)) by (bit_vector)
        requires
            bit < 8,
            new_byte == old_byte ^ (1u8 << bit),
    ;
    lemma_checksum_byte_change(data, index, new_byte);
}

} // verus!
