//! Leaf helpers: single-byte bit reversal, a two-byte in-place swap, and a
//! whole-buffer fill with a constant.

use vstd::prelude::*;

verus! {

/// The bit-reversal of a byte: bit `j` of the input becomes bit `7 - j` of
/// the result (MSB and LSB trade places).
pub open spec fn rev8(b: u8) -> u8 {
    ((b & 0x01) << 7) | ((b & 0x02) << 5) | ((b & 0x04) << 3) | ((b & 0x08) << 1) | ((b & 0x10)
        >> 1) | ((b & 0x20) >> 3) | ((b & 0x40) >> 5) | ((b & 0x80) >> 7)
}

/// Reversing the bits of a byte twice yields the original byte:
/// `reverse_bit_endianness` is its own inverse.
pub proof fn lemma_rev8_involutive(b: u8)
    ensures
        rev8(rev8(b)) == b,
{
    assert(rev8(rev8(b)) == b) by (bit_vector);
}

/// Reverses the bits of one byte with a multiply/mask/modulo identity: the
/// byte is widened to 64 bits, spread, masked, and folded back by a modulus.
pub fn reverse_bit_endianness(byte: u8) -> (r: u8)
    ensures
        r == rev8(byte),
{
    proof {
        assert((byte as u64) * 0x0202020202u64 < 0x1_0000_0000_0000) by (bit_vector);
    }
    let mut as_u64: u64 = byte as u64;

    as_u64 = (as_u64 * 0x0202020202u64 & 0x010884422010u64) % 1023;

    proof {
        assert((((((byte as u64) * 0x0202020202u64) as u64) & 0x010884422010u64) % 1023) as u8
            == rev8(byte)) by (bit_vector);
    }
    as_u64 as u8
}

/// Swaps two bytes in place through three XOR assignments, with no temporary.
pub fn swap_bytes(a: &mut u8, b: &mut u8)
    ensures
        *final(a) == *old(b),
        *final(b) == *old(a),
{
    *a = *a ^ *b;
    *b = *b ^ *a;
    *a = *a ^ *b;
    proof {
        let x = *old(a);
        let y = *old(b);
        assert((y ^ (x ^ y)) == x && ((x ^ y) ^ (y ^ (x ^ y))) == y) by (bit_vector);
    }
}

/// Overwrites every byte of the buffer with the given value.
pub fn set_bytes(bytes: &mut [u8], value: u8)
    ensures
        final(bytes)@.len() == old(bytes)@.len(),
        forall|i: int| 0 <= i < final(bytes)@.len() ==> final(bytes)@[i] == value,
{
    let n = bytes.len();
    let mut i: usize = 0;
    while i < n
        invariant
            n == bytes@.len(),
            0 <= i <= n,
            forall|j: int| 0 <= j < i ==> bytes@[j] == value,
        decreases n - i,
    {
        bytes[i] = value;
        i += 1;
    }
}

} // verus!
