//! Byte-level vocabulary shared by every protocol in the crate: integers on
//! the wire, and writing into the middle of a buffer.

use vstd::prelude::*;

verus! {

/// `buffer` with `bytes` written over it from index `at`.
///
/// The length never changes: whatever would land past the end is dropped.
pub open spec fn write_at(buffer: Seq<u8>, at: int, bytes: Seq<u8>) -> Seq<u8> {
    Seq::new(
        buffer.len(),
        |i: int|
            if at <= i < at + bytes.len() {
                bytes[i - at]
            } else {
                buffer[i]
            },
    )
}

/// The four bytes of `value`, most significant first.
pub open spec fn be_bytes(value: u32) -> Seq<u8> {
    seq![
        (value / 0x100_0000) as u8,
        ((value / 0x1_0000) % 0x100) as u8,
        ((value / 0x100) % 0x100) as u8,
        (value % 0x100) as u8,
    ]
}

/// The four bytes of `value`, least significant first.
pub open spec fn le_bytes(value: u32) -> Seq<u8> {
    be_bytes(value).reverse()
}

/// The integer whose bytes, most significant first, start at `bytes[at]`.
pub open spec fn be_u32(bytes: Seq<u8>, at: int) -> u32 {
    (bytes[at] * 0x100_0000 + bytes[at + 1] * 0x1_0000 + bytes[at + 2] * 0x100 + bytes[at
        + 3]) as u32
}

/// The integer whose bytes, least significant first, start at `bytes[at]`.
pub open spec fn le_u32(bytes: Seq<u8>, at: int) -> u32 {
    (bytes[at + 3] * 0x100_0000 + bytes[at + 2] * 0x1_0000 + bytes[at + 1] * 0x100
        + bytes[at]) as u32
}

/// The 16-bit integer whose bytes, most significant first, start at
/// `bytes[at]`.
pub open spec fn be_u16(bytes: Seq<u8>, at: int) -> u16 {
    (bytes[at] * 0x100 + bytes[at + 1]) as u16
}

/// The two bytes of `value`, most significant first.
pub open spec fn be_bytes_u16(value: u16) -> Seq<u8> {
    seq![(value / 0x100) as u8, (value % 0x100) as u8]
}

/// The number that `bytes` write down, most significant first.
pub open spec fn big_endian(bytes: Seq<u8>) -> int
    decreases bytes.len(),
{
    if bytes.len() == 0 {
        0
    } else {
        256 * big_endian(bytes.drop_last()) + bytes.last()
    }
}

/// The number that `bytes` write down, least significant first.
pub open spec fn little_endian(bytes: Seq<u8>) -> int
    decreases bytes.len(),
{
    if bytes.len() == 0 {
        0
    } else {
        bytes[0] + 256 * little_endian(bytes.drop_first())
    }
}

/// The integers read off the wire and out of flash are the numbers that their
/// bytes write down.
pub proof fn law_integers_are_what_their_bytes_say(bytes: Seq<u8>, at: int)
    requires
        0 <= at,
    ensures
        at + 4 <= bytes.len() ==> be_u32(bytes, at) == big_endian(bytes.subrange(at, at + 4)),
        at + 4 <= bytes.len() ==> le_u32(bytes, at) == little_endian(bytes.subrange(at, at + 4)),
        at + 2 <= bytes.len() ==> be_u16(bytes, at) == big_endian(bytes.subrange(at, at + 2)),
{
    reveal_with_fuel(big_endian, 5);
    reveal_with_fuel(little_endian, 5);
    if at + 4 <= bytes.len() {
        let part = bytes.subrange(at, at + 4);
        assert(part.drop_last().drop_last().drop_last().last() == bytes[at]);
        assert(part.drop_last().drop_last().last() == bytes[at + 1]);
        assert(part.drop_last().last() == bytes[at + 2]);
        assert(part.last() == bytes[at + 3]);
        assert(part.drop_first()[0] == bytes[at + 1]);
        assert(part.drop_first().drop_first()[0] == bytes[at + 2]);
        assert(part.drop_first().drop_first().drop_first()[0] == bytes[at + 3]);
    }
    if at + 2 <= bytes.len() {
        let part = bytes.subrange(at, at + 2);
        assert(part.drop_last().last() == bytes[at]);
        assert(part.last() == bytes[at + 1]);
    }
}

/// An integer put on the wire or into flash is the number that its bytes write
/// down there.
pub proof fn law_bytes_say_the_integer(value: u32, short: u16)
    ensures
        be_bytes(value).len() == 4 && big_endian(be_bytes(value)) == value,
        le_bytes(value).len() == 4 && little_endian(le_bytes(value)) == value,
        be_bytes_u16(short).len() == 2 && big_endian(be_bytes_u16(short)) == short,
{
    let be = be_bytes(value);
    let le = le_bytes(value);
    let two = be_bytes_u16(short);
    law_be_round_trip(value);
    law_le_round_trip(value);
    law_integers_are_what_their_bytes_say(be, 0);
    law_integers_are_what_their_bytes_say(le, 0);
    law_integers_are_what_their_bytes_say(two, 0);
    assert(be.subrange(0, 4) =~= be);
    assert(le.subrange(0, 4) =~= le);
    assert(two.subrange(0, 2) =~= two);
}

/// Two integers in the same order of bytes are equal when their bytes are: a
/// number is written down in one way only.
pub proof fn law_numbers_have_one_spelling(a: Seq<u8>, b: Seq<u8>)
    requires
        a.len() == b.len(),
    ensures
        big_endian(a) == big_endian(b) ==> a == b,
        little_endian(a) == little_endian(b) ==> a == b,
    decreases a.len(),
{
    if a.len() > 0 {
        law_numbers_have_one_spelling(a.drop_last(), b.drop_last());
        law_numbers_have_one_spelling(a.drop_first(), b.drop_first());
        if big_endian(a) == big_endian(b) {
            assert(a.last() == b.last());
            assert(a =~= a.drop_last().push(a.last()));
            assert(b =~= b.drop_last().push(b.last()));
        }
        if little_endian(a) == little_endian(b) {
            assert(a[0] == b[0]);
            assert(a =~= seq![a[0]] + a.drop_first());
            assert(b =~= seq![b[0]] + b.drop_first());
        }
    } else {
        assert(a =~= b);
    }
}

/// Writing over part of a buffer puts the bytes there, and leaves the rest and
/// the length alone.
pub proof fn law_write_at_changes_its_range_only(buffer: Seq<u8>, at: int, bytes: Seq<u8>)
    requires
        0 <= at,
        at + bytes.len() <= buffer.len(),
    ensures
        write_at(buffer, at, bytes).len() == buffer.len(),
        write_at(buffer, at, bytes).subrange(at, at + bytes.len()) == bytes,
        write_at(buffer, at, bytes).take(at) == buffer.take(at),
        write_at(buffer, at, bytes).skip(at + bytes.len()) == buffer.skip(
            at + bytes.len(),
        ),
{
    let after = write_at(buffer, at, bytes);
    assert(after.subrange(at, at + bytes.len()) =~= bytes);
    assert(after.take(at) =~= buffer.take(at));
    assert(after.skip(at + bytes.len()) =~= buffer.skip(at + bytes.len()));
}

/// An integer is put together from its bytes.
proof fn lemma_bytes_make_value(value: u32)
    ensures
        value == (value / 0x100_0000) * 0x100_0000 + ((value / 0x1_0000) % 0x100) * 0x1_0000 + ((
        value / 0x100) % 0x100) * 0x100 + value % 0x100,
        value / 0x100_0000 < 0x100,
{
}

/// Reading an address back from its big-endian bytes gives the address.
pub proof fn law_be_round_trip(value: u32)
    ensures
        be_u32(be_bytes(value), 0) == value,
{
    lemma_bytes_make_value(value);
}

/// Reading an address back from its little-endian bytes gives the address.
pub proof fn law_le_round_trip(value: u32)
    ensures
        le_u32(le_bytes(value), 0) == value,
{
    let bytes = be_bytes(value);
    lemma_bytes_make_value(value);
    assert(forall|i: int| 0 <= i < 4 ==> le_bytes(value)[i] == #[trigger] bytes[3 - i]);
    assert(le_u32(le_bytes(value), 0) == be_u32(bytes, 0));
}

/// Reversing four little-endian bytes gives the big-endian ones of the same
/// integer.
pub proof fn law_le_reversed_is_be(value: u32)
    ensures
        le_bytes(value).reverse() == be_bytes(value),
{
    assert(le_bytes(value).reverse() =~= be_bytes(value));
}

/// Write `source` over `buffer` from index `at`.
pub fn copy_into(buffer: &mut Vec<u8>, at: usize, source: &[u8])
    requires
        at + source@.len() <= old(buffer)@.len(),
    ensures
        final(buffer)@ == write_at(old(buffer)@, at as int, source@),
{
    let ghost before = buffer@;
    assert(buffer.len() == buffer@.len());
    let mut i: usize = 0;
    while i < source.len()
        invariant
            i <= source@.len(),
            before.len() <= usize::MAX,
            at + source@.len() <= before.len(),
            buffer@ == write_at(before, at as int, source@.take(i as int)),
        decreases source@.len() - i,
    {
        buffer[at + i] = source[i];
        i = i + 1;
        assert(buffer@ =~= write_at(before, at as int, source@.take(i as int)));
    }
    assert(source@.take(i as int) =~= source@);
}

/// `to_be_bytes` of a 32-bit integer.
pub fn to_be_bytes(value: u32) -> (bytes: [u8; 4])
    ensures
        bytes@ == be_bytes(value),
{
    let bytes = [
        (value / 0x100_0000) as u8,
        ((value / 0x1_0000) % 0x100) as u8,
        ((value / 0x100) % 0x100) as u8,
        (value % 0x100) as u8,
    ];
    assert(bytes@ =~= be_bytes(value));
    bytes
}

/// `to_le_bytes` of a 32-bit integer.
pub fn to_le_bytes(value: u32) -> (bytes: [u8; 4])
    ensures
        bytes@ == le_bytes(value),
{
    let bytes = [
        (value % 0x100) as u8,
        ((value / 0x100) % 0x100) as u8,
        ((value / 0x1_0000) % 0x100) as u8,
        (value / 0x100_0000) as u8,
    ];
    assert(bytes@ =~= le_bytes(value));
    bytes
}

/// The big-endian 32-bit integer at `bytes[at..at + 4]`.
pub fn read_be_u32(bytes: &[u8], at: usize) -> (value: u32)
    requires
        at + 4 <= bytes@.len(),
    ensures
        value == be_u32(bytes@, at as int),
{
    bytes[at] as u32 * 0x100_0000 + bytes[at + 1] as u32 * 0x1_0000 + bytes[at + 2] as u32 * 0x100
        + bytes[at + 3] as u32
}

/// The little-endian 32-bit integer at `bytes[at..at + 4]`.
pub fn read_le_u32(bytes: &[u8], at: usize) -> (value: u32)
    requires
        at + 4 <= bytes@.len(),
    ensures
        value == le_u32(bytes@, at as int),
{
    bytes[at] as u32 + bytes[at + 1] as u32 * 0x100 + bytes[at + 2] as u32 * 0x1_0000 + bytes[at
        + 3] as u32 * 0x100_0000
}

/// The big-endian 16-bit integer at `bytes[at..at + 2]`.
pub fn read_be_u16(bytes: &[u8], at: usize) -> (value: u16)
    requires
        at + 2 <= bytes@.len(),
    ensures
        value == be_u16(bytes@, at as int),
{
    bytes[at] as u16 * 0x100 + bytes[at + 1] as u16
}

} // verus!
