//! CRC-32 as used by both protocols: reflected polynomial `0xEDB88320`,
//! seeded with all ones and inverted at the end.

use vstd::prelude::*;

verus! {

/// The reflected CRC-32 polynomial.
pub const POLYNOMIAL: u32 = 0xEDB8_8320;

/// What a CRC computation starts from.
pub const CRC_SEED: u32 = 0xFFFF_FFFF;

/// One bit of polynomial division.
pub open spec fn divide_bit(remainder: u32) -> u32 {
    if remainder & 1 == 1 {
        (remainder >> 1) ^ POLYNOMIAL
    } else {
        remainder >> 1
    }
}

/// `count` bits of polynomial division.
pub open spec fn divide_bits(remainder: u32, count: nat) -> u32
    decreases count,
{
    if count == 0 {
        remainder
    } else {
        divide_bit(divide_bits(remainder, (count - 1) as nat))
    }
}

/// The running CRC after one more byte.
pub open spec fn crc_of_byte(crc: u32, byte: u8) -> u32 {
    divide_bits((crc ^ byte as u32) & 0xFF, 8) ^ (crc >> 8)
}

/// The running CRC after `bytes`.
pub open spec fn crc_of_bytes(crc: u32, bytes: Seq<u8>) -> u32
    decreases bytes.len(),
{
    if bytes.len() == 0 {
        crc
    } else {
        crc_of_byte(crc_of_bytes(crc, bytes.drop_last()), bytes.last())
    }
}

/// The CRC-32 of `bytes`.
pub open spec fn crc32(bytes: Seq<u8>) -> u32 {
    crc_of_bytes(CRC_SEED, bytes) ^ 0xFFFF_FFFF
}

/// Checksumming in pieces gives the checksum of the whole: the running value
/// after `head` is all that has to be carried over to `tail`.
pub proof fn law_crc_in_pieces(crc: u32, head: Seq<u8>, tail: Seq<u8>)
    ensures
        crc_of_bytes(crc, head + tail) == crc_of_bytes(crc_of_bytes(crc, head), tail),
    decreases tail.len(),
{
    if tail.len() == 0 {
        assert(head + tail =~= head);
    } else {
        law_crc_in_pieces(crc, head, tail.drop_last());
        assert((head + tail).drop_last() =~= head + tail.drop_last());
    }
}

/// One byte more is the byte added to the remainder, and then eight steps of
/// the division: a bit is shifted out, and the polynomial 0xEDB88320 taken away
/// whenever that bit was one.
pub proof fn law_crc_divides_bit_by_bit(crc: u32, byte: u8)
    ensures
        crc_of_byte(crc, byte) == divided(crc ^ byte as u32, 8),
        crc_of_bytes(crc, seq![byte]) == divided(crc ^ byte as u32, 8),
{
    let low = (crc ^ byte as u32) & 0xFF;
    let all = crc ^ byte as u32;
    reveal_with_fuel(divided, 9);
    reveal_with_fuel(divide_bits, 9);
    lemma_divided(low, 8);
    let b = byte as u32;
    assert(all >> 8 == crc >> 8) by (bit_vector)
        requires
            all == crc ^ b,
            b < 0x100,
    ;
    lemma_division_splits(all);
    let one = seq![byte];
    assert(one.drop_last() =~= Seq::<u8>::empty());
    reveal_with_fuel(crc_of_bytes, 2);
}

/// `steps` steps of the division by the CRC-32 polynomial.
pub open spec fn divided(remainder: u32, steps: nat) -> u32
    decreases steps,
{
    if steps == 0 {
        remainder
    } else if remainder % 2 == 1 {
        divided((remainder / 2) as u32 ^ 0xEDB8_8320, (steps - 1) as nat)
    } else {
        divided((remainder / 2) as u32, (steps - 1) as nat)
    }
}

/// Steps can be counted from either end.
proof fn lemma_divided(remainder: u32, steps: nat)
    ensures
        divided(remainder, steps) == divide_bits(remainder, steps),
    decreases steps,
{
    if steps > 0 {
        assert(remainder & 1 == remainder % 2) by (bit_vector);
        assert(remainder >> 1 == remainder / 2) by (bit_vector);
        lemma_divided(divide_bit(remainder), (steps - 1) as nat);
        lemma_divide_first(remainder, (steps - 1) as nat);
    }
}

/// The first step can be taken first.
proof fn lemma_divide_first(remainder: u32, steps: nat)
    ensures
        divide_bits(divide_bit(remainder), steps) == divide_bits(remainder, steps + 1),
    decreases steps,
{
    reveal_with_fuel(divide_bits, 2);
    if steps > 0 {
        lemma_divide_first(remainder, (steps - 1) as nat);
    }
}

/// Only the lower eight bits of a remainder decide what eight steps take away.
proof fn lemma_division_splits(all: u32)
    ensures
        divided(all, 8) == divided(all & 0xFF, 8) ^ (all >> 8),
{
    lemma_divided(all, 8);
    lemma_divided(all & 0xFF, 8);
    let low = all & 0xFF;
    let high = all ^ low;
    assert(all == low ^ high && all >> 8 == high >> 8 && high & 0xFF == 0) by (bit_vector)
        requires
            low == all & 0xFF,
            high == all ^ low,
    ;
    lemma_division_adds(low, high, 8);
    lemma_shifted_out(high, 8);
}

/// Dividing a sum divides its parts.
proof fn lemma_division_adds(a: u32, b: u32, steps: nat)
    ensures
        divide_bits(a ^ b, steps) == divide_bits(a, steps) ^ divide_bits(b, steps),
    decreases steps,
{
    if steps > 0 {
        lemma_division_adds(a, b, (steps - 1) as nat);
        let x = divide_bits(a, (steps - 1) as nat);
        let y = divide_bits(b, (steps - 1) as nat);
        let p = POLYNOMIAL;
        assert((if (x ^ y) & 1 == 1 {
            ((x ^ y) >> 1) ^ p
        } else {
            (x ^ y) >> 1
        }) == (if x & 1 == 1 {
            (x >> 1) ^ p
        } else {
            x >> 1
        }) ^ (if y & 1 == 1 {
            (y >> 1) ^ p
        } else {
            y >> 1
        })) by (bit_vector);
    }
}

/// Bits that are zero are shifted out and leave nothing behind.
proof fn lemma_shifted_out(high: u32, steps: u32)
    requires
        high & 0xFF == 0,
        steps <= 8,
    ensures
        divide_bits(high, steps as nat) == high >> steps,
    decreases steps,
{
    if steps == 0 {
        assert(high >> 0u32 == high) by (bit_vector);
    } else {
        lemma_shifted_out(high, (steps - 1) as u32);
        assert((high >> ((steps - 1) as u32)) & 1 == 0 && (high >> ((steps - 1) as u32)) >> 1
            == high >> steps) by (bit_vector)
            requires
                high & 0xFF == 0,
                1 <= steps <= 8,
        ;
    }
}

/// The CRC-32 starts from all ones and is turned over at the end.
pub proof fn law_crc_starts_from_ones(bytes: Seq<u8>)
    ensures
        crc32(bytes) == crc_of_bytes(0xFFFF_FFFF, bytes) ^ 0xFFFF_FFFF,
        crc32(Seq::empty()) == 0,
{
    assert(0xFFFF_FFFFu32 ^ 0xFFFF_FFFFu32 == 0) by (bit_vector);
}

/// The CRC table entry for `index`: what eight bits of division leave of it.
pub fn table_entry(index: u32) -> (entry: u32)
    ensures
        entry == divide_bits(index, 8),
{
    let mut entry: u32 = index;
    let mut bits: u32 = 0;
    while bits < 8
        invariant
            bits <= 8,
            entry == divide_bits(index, bits as nat),
        decreases 8 - bits,
    {
        entry = if entry & 1 == 1 {
            (entry >> 1) ^ POLYNOMIAL
        } else {
            entry >> 1
        };
        bits = bits + 1;
    }
    entry
}

/// Continue a CRC over `bytes[from..to]`.
pub fn update(crc: u32, bytes: &[u8], from: usize, to: usize) -> (result: u32)
    requires
        from <= to <= bytes@.len(),
    ensures
        result == crc_of_bytes(crc, bytes@.subrange(from as int, to as int)),
{
    let mut result: u32 = crc;
    let mut i: usize = from;
    while i < to
        invariant
            from <= i <= to <= bytes@.len(),
            result == crc_of_bytes(crc, bytes@.subrange(from as int, i as int)),
        decreases to - i,
    {
        result = table_entry((result ^ bytes[i] as u32) & 0xFF) ^ (result >> 8);
        proof {
            let next = bytes@.subrange(from as int, i + 1);
            assert(next.drop_last() =~= bytes@.subrange(from as int, i as int));
        }
        i = i + 1;
    }
    result
}

} // verus!
