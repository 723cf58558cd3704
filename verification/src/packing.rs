//! Packing of bits into bytes, eight to a byte, least significant bit first.

use vstd::prelude::*;

verus! {

/// The byte that has the bit at position `pos` set if `on` holds, and no other.
pub open spec fn bit_mask(on: bool, pos: u8) -> u8 {
    if on {
        1u8 << pos
    } else {
        0u8
    }
}

/// The byte whose bit at position 0 (the least significant) is `b0`, at
/// position 1 is `b1`, and so on.
pub open spec fn byte_of(
    b0: bool,
    b1: bool,
    b2: bool,
    b3: bool,
    b4: bool,
    b5: bool,
    b6: bool,
    b7: bool,
) -> u8 {
    bit_mask(b0, 0) | bit_mask(b1, 1) | bit_mask(b2, 2) | bit_mask(b3, 3) | bit_mask(b4, 4)
        | bit_mask(b5, 5) | bit_mask(b6, 6) | bit_mask(b7, 7)
}

/// The bit of `byte` at position `pos`, 0 being the least significant.
pub open spec fn byte_bit(byte: u8, pos: u8) -> bool {
    (byte >> pos) & 1u8 == 1u8
}

/// `byte` with the bit at position `pos` set to `value`.
pub open spec fn with_bit(byte: u8, pos: u8, value: bool) -> u8 {
    if value {
        byte | (1u8 << pos)
    } else {
        byte & !(1u8 << pos)
    }
}

/// The bit at index `i`, taken as off where `i` is outside the sequence.
pub open spec fn bit_or_off(bits: Seq<bool>, i: int) -> bool {
    0 <= i < bits.len() && bits[i]
}

/// The number of bytes that `n` bits take up.
pub open spec fn packed_len(n: nat) -> nat {
    (n + 7) / 8
}

/// Byte `k` of the packed form of `bits`: the bits `8k` to `8k + 7`, the
/// lowest index in the least significant position.
pub open spec fn packed_byte(bits: Seq<bool>, k: int) -> u8 {
    byte_of(
        bit_or_off(bits, 8 * k),
        bit_or_off(bits, 8 * k + 1),
        bit_or_off(bits, 8 * k + 2),
        bit_or_off(bits, 8 * k + 3),
        bit_or_off(bits, 8 * k + 4),
        bit_or_off(bits, 8 * k + 5),
        bit_or_off(bits, 8 * k + 6),
        bit_or_off(bits, 8 * k + 7),
    )
}

/// The packed form of `bits`. Where the number of bits is no multiple of
/// eight, the upper bits of the last byte are off.
pub open spec fn pack(bits: Seq<bool>) -> Seq<u8> {
    Seq::new(packed_len(bits.len()), |k: int| packed_byte(bits, k))
}

proof fn lemma_byte_of_bits(
    b0: bool,
    b1: bool,
    b2: bool,
    b3: bool,
    b4: bool,
    b5: bool,
    b6: bool,
    b7: bool,
)
    by (bit_vector)
    ensures
        byte_bit(byte_of(b0, b1, b2, b3, b4, b5, b6, b7), 0) == b0,
        byte_bit(byte_of(b0, b1, b2, b3, b4, b5, b6, b7), 1) == b1,
        byte_bit(byte_of(b0, b1, b2, b3, b4, b5, b6, b7), 2) == b2,
        byte_bit(byte_of(b0, b1, b2, b3, b4, b5, b6, b7), 3) == b3,
        byte_bit(byte_of(b0, b1, b2, b3, b4, b5, b6, b7), 4) == b4,
        byte_bit(byte_of(b0, b1, b2, b3, b4, b5, b6, b7), 5) == b5,
        byte_bit(byte_of(b0, b1, b2, b3, b4, b5, b6, b7), 6) == b6,
        byte_bit(byte_of(b0, b1, b2, b3, b4, b5, b6, b7), 7) == b7,
{
}

proof fn lemma_byte_of_with_bit(
    b0: bool,
    b1: bool,
    b2: bool,
    b3: bool,
    b4: bool,
    b5: bool,
    b6: bool,
    b7: bool,
    v: bool,
)
    by (bit_vector)
    ensures
        with_bit(byte_of(b0, b1, b2, b3, b4, b5, b6, b7), 0, v) == byte_of(v, b1, b2, b3, b4, b5, b6, b7),
        with_bit(byte_of(b0, b1, b2, b3, b4, b5, b6, b7), 1, v) == byte_of(b0, v, b2, b3, b4, b5, b6, b7),
        with_bit(byte_of(b0, b1, b2, b3, b4, b5, b6, b7), 2, v) == byte_of(b0, b1, v, b3, b4, b5, b6, b7),
        with_bit(byte_of(b0, b1, b2, b3, b4, b5, b6, b7), 3, v) == byte_of(b0, b1, b2, v, b4, b5, b6, b7),
        with_bit(byte_of(b0, b1, b2, b3, b4, b5, b6, b7), 4, v) == byte_of(b0, b1, b2, b3, v, b5, b6, b7),
        with_bit(byte_of(b0, b1, b2, b3, b4, b5, b6, b7), 5, v) == byte_of(b0, b1, b2, b3, b4, v, b6, b7),
        with_bit(byte_of(b0, b1, b2, b3, b4, b5, b6, b7), 6, v) == byte_of(b0, b1, b2, b3, b4, b5, v, b7),
        with_bit(byte_of(b0, b1, b2, b3, b4, b5, b6, b7), 7, v) == byte_of(b0, b1, b2, b3, b4, b5, b6, v),
{
}

/// Position `pos` of byte `k` of a packed form holds bit `8k + pos` of the
/// sequence, and is off where the sequence has no such bit.
pub proof fn lemma_packed_byte_bit(bits: Seq<bool>, k: int, pos: u8)
    requires
        pos < 8,
    ensures
        byte_bit(packed_byte(bits, k), pos) == bit_or_off(bits, 8 * k + pos),
{
    lemma_byte_of_bits(
        bit_or_off(bits, 8 * k),
        bit_or_off(bits, 8 * k + 1),
        bit_or_off(bits, 8 * k + 2),
        bit_or_off(bits, 8 * k + 3),
        bit_or_off(bits, 8 * k + 4),
        bit_or_off(bits, 8 * k + 5),
        bit_or_off(bits, 8 * k + 6),
        bit_or_off(bits, 8 * k + 7),
    );
}

/// Bit `i` of a sequence is found again in byte `i / 8` of its packed form, at
/// position `i % 8` from the least significant bit.
pub proof fn lemma_packed_bit(bits: Seq<bool>, i: int)
    requires
        0 <= i < bits.len(),
    ensures
        i / 8 < pack(bits).len(),
        byte_bit(pack(bits)[i / 8], (i % 8) as u8) == bits[i],
{
    lemma_packed_byte_bit(bits, i / 8, (i % 8) as u8);
}

/// In the last byte of a packed form, the positions past the last bit are off.
pub proof fn lemma_packed_padding(bits: Seq<bool>, k: int, pos: u8)
    requires
        0 <= k < pack(bits).len(),
        pos < 8,
        8 * k + pos >= bits.len(),
    ensures
        !byte_bit(pack(bits)[k], pos),
{
    lemma_packed_byte_bit(bits, k, pos);
}

/// Bits that are all off pack into bytes that are all zero.
pub proof fn lemma_pack_all_off(n: nat)
    ensures
        pack(Seq::new(n, |i: int| false)) == Seq::new(packed_len(n), |k: int| 0u8),
{
    assert(byte_of(false, false, false, false, false, false, false, false) == 0u8)
        by (bit_vector);
    assert(pack(Seq::new(n, |i: int| false)) =~= Seq::new(packed_len(n), |k: int| 0u8));
}

/// Writing bit `i` of a sequence changes byte `i / 8` of its packed form at
/// position `i % 8`, and nothing else.
pub proof fn lemma_pack_update(bits: Seq<bool>, i: int, value: bool)
    requires
        0 <= i < bits.len(),
    ensures
        i / 8 < pack(bits).len(),
        pack(bits.update(i, value)) == pack(bits).update(
            i / 8,
            with_bit(pack(bits)[i / 8], (i % 8) as u8, value),
        ),
{
    let k = i / 8;
    let after = bits.update(i, value);
    let expected = pack(bits).update(k, with_bit(pack(bits)[k], (i % 8) as u8, value));
    lemma_byte_of_with_bit(
        bit_or_off(bits, 8 * k),
        bit_or_off(bits, 8 * k + 1),
        bit_or_off(bits, 8 * k + 2),
        bit_or_off(bits, 8 * k + 3),
        bit_or_off(bits, 8 * k + 4),
        bit_or_off(bits, 8 * k + 5),
        bit_or_off(bits, 8 * k + 6),
        bit_or_off(bits, 8 * k + 7),
        value,
    );
    assert(packed_byte(after, k) == expected[k]);
    assert forall|j: int| 0 <= j < expected.len() && j != k implies pack(after)[j]
        == expected[j] by {
        assert(packed_byte(after, j) == packed_byte(bits, j));
    }
    assert(pack(after) =~= expected);
}

} // verus!
