//! The buffer view: a byte buffer together with an endianness-interpretation
//! flag, exposing bit/byte counts, zeroing, equality, bitwise boolean
//! operators, rotation, endianness reversal, and left shift.

use crate::bytes_iter::{ascending_positions, descending_positions, BytesIter, BytesIterMut};
use crate::util;
use vstd::prelude::*;

verus! {

/// `s` rotated left by `k` positions: the first `k` elements move to the
/// back.
pub open spec fn rotl_seq(s: Seq<u8>, k: int) -> Seq<u8>
    recommends
        0 <= k <= s.len(),
{
    s.subrange(k, s.len() as int) + s.subrange(0, k)
}

/// `s` rotated right by `k` positions: the last `k` elements move to the
/// front.
pub open spec fn rotr_seq(s: Seq<u8>, k: int) -> Seq<u8>
    recommends
        0 <= k <= s.len(),
{
    s.subrange(s.len() - k, s.len() as int) + s.subrange(0, s.len() - k)
}

/// The byte at position `i` of the result of shifting the big-endian digit
/// sequence `l` left by `byte_part` whole bytes and `bit_part` further bits:
/// the matching source byte moved up, with the top `bit_part` bits of the
/// next less significant source byte carried in; sources past the end of the
/// sequence contribute zero.
pub open spec fn shifted_byte(l: Seq<u8>, i: int, byte_part: int, bit_part: int) -> u8
    recommends
        0 <= bit_part < 8,
{
    let hi: u8 = if i + byte_part < l.len() {
        l[i + byte_part]
    } else {
        0u8
    };
    let lo: u8 = if i + byte_part + 1 < l.len() {
        l[i + byte_part + 1]
    } else {
        0u8
    };
    if bit_part == 0 {
        hi
    } else {
        (hi << bit_part) | (lo >> ((8 - bit_part) as u8))
    }
}

/// The logical byte sequence after shifting the value it spells, as
/// big-endian digits of one unsigned integer, left by `shift` bits: a shift
/// of zero is the identity, a shift of the whole bit width or more clears
/// every byte, and any other shift moves each byte toward the most
/// significant end with carry between adjacent bytes.
pub open spec fn spec_shl(l: Seq<u8>, shift: int) -> Seq<u8>
    recommends
        0 <= shift,
{
    if shift == 0 {
        l
    } else if shift >= 8 * l.len() {
        Seq::new(l.len(), |i: int| 0u8)
    } else {
        Seq::new(l.len(), |i: int| shifted_byte(l, i, shift / 8, shift % 8))
    }
}

/// Shifting a zero byte leaves it zero, whatever carry distance is used.
proof fn lemma_zero_byte_shift(sh: u8)
    by (bit_vector)
    requires
        0 < sh < 8,
    ensures
        ((0u8 << sh) | (0u8 >> ((8 - sh) as u8))) == 0u8,
{
}

/// A right shift of a zero byte is zero.
proof fn lemma_zero_shr(sh: u8)
    by (bit_vector)
    ensures
        (0u8 >> sh) == 0u8,
{
}

/// Pairs `a` and `b` position-wise and combines each pair with `f`; where
/// `b` is the shorter sequence the tail of `a` is kept unchanged.
pub open spec fn combine_logical(a: Seq<u8>, b: Seq<u8>, f: spec_fn(u8, u8) -> u8) -> Seq<u8> {
    Seq::new(a.len(), |i: int| if i < b.len() { f(a[i], b[i]) } else { a[i] })
}

/// After a fill with `v`, a non-empty buffer is all-zero exactly when `v`
/// is zero. (An empty buffer counts as all-zero whatever `v` was.)
pub proof fn lemma_filled_buffer_is_zero(s: Seq<u8>, v: u8)
    requires
        s.len() > 0,
        forall|i: int| 0 <= i < s.len() ==> s[i] == v,
    ensures
        (forall|i: int| 0 <= i < s.len() ==> s[i] == 0) <==> v == 0,
{
    assert(s[0] == v);
}

/// Mirroring a buffer around its center twice restores the original buffer:
/// `ByteString::reverse_byte_endianness` is its own inverse.
pub proof fn lemma_reverse_byte_endianness_involutive(s: Seq<u8>)
    ensures
        s.reverse().reverse() == s,
{
    assert(s.reverse().reverse() =~= s);
}

/// A left shift by zero bits leaves the logical sequence as it was.
pub proof fn lemma_shl_zero(l: Seq<u8>)
    ensures
        spec_shl(l, 0) == l,
{
}

/// A left shift by the whole bit width or more clears every byte.
pub proof fn lemma_shl_width_clears(l: Seq<u8>, shift: int)
    requires
        shift >= 8 * l.len(),
    ensures
        spec_shl(l, shift).len() == l.len(),
        forall|i: int| 0 <= i < l.len() ==> spec_shl(l, shift)[i] == 0u8,
{
}

/// A byte buffer interpreted as the big-endian digits of one unsigned
/// integer, together with a flag that chooses whether the most-significant
/// unit is the first or the last physical byte.
pub struct ByteString {
    bytes: Vec<u8>,
    interpret_reverse_endian: bool,
}

impl View for ByteString {
    type V = Seq<u8>;

    /// The buffer in physical order, unaffected by the flag.
    closed spec fn view(&self) -> Seq<u8> {
        self.bytes@
    }
}

impl ByteString {
    /// Whether the view currently interprets the buffer with reversed
    /// endianness.
    pub closed spec fn spec_reverse_endian(&self) -> bool {
        self.interpret_reverse_endian
    }

    /// The buffer in logical order: physical order normally, reversed when
    /// the flag is set. Every logical operation of the view speaks of this
    /// sequence.
    pub open spec fn logical(&self) -> Seq<u8> {
        if self.spec_reverse_endian() {
            self@.reverse()
        } else {
            self@
        }
    }

    /// Wraps a buffer; the flag starts out unset, so logical and physical
    /// order coincide.
    pub fn new(bytes: Vec<u8>) -> (r: ByteString)
        ensures
            r@ == bytes@,
            !r.spec_reverse_endian(),
    {
        Self { bytes, interpret_reverse_endian: false }
    }

    /// Toggles the endianness flag. The buffer contents are untouched; only
    /// the logical order of every subsequent operation changes.
    pub fn interpret_reverse_endian(&mut self)
        ensures
            final(self)@ == old(self)@,
            final(self).spec_reverse_endian() == !old(self).spec_reverse_endian(),
    {
        self.interpret_reverse_endian = !self.interpret_reverse_endian;
    }

    /// The buffer length in bytes.
    pub fn byte_len(&self) -> (r: usize)
        ensures
            r == self@.len(),
    {
        self.bytes.len()
    }

    /// The buffer length in bits.
    pub fn bit_len(&self) -> (r: usize)
        requires
            self@.len() * 8 <= usize::MAX,
        ensures
            r == self@.len() * 8,
    {
        self.byte_len() * 8
    }

    /// The buffer in physical order.
    pub fn bytes(&self) -> (r: &[u8])
        ensures
            r@ == self@,
    {
        self.bytes.as_slice()
    }

    /// Exclusive access to the buffer in physical order.
    pub fn bytes_mut(&mut self) -> (r: &mut [u8])
        ensures
            r@ == old(self)@,
            final(self)@ == final(r)@,
            final(self).spec_reverse_endian() == old(self).spec_reverse_endian(),
    {
        self.bytes.as_mut_slice()
    }

    /// A reader over the buffer in logical order.
    pub fn iter(&self) -> (r: BytesIter<'_>)
        ensures
            r.wf(),
            r@ == self.logical(),
    {
        BytesIter::new(self.bytes.as_slice(), self.interpret_reverse_endian)
    }

    /// A writer over the buffer in logical order. The view is consumed: it
    /// hands its buffer to the writer, and [`BytesIterMut::into_bytes`]
    /// hands the buffer back.
    pub fn iter_mut(self) -> (r: BytesIterMut)
        ensures
            r.wf(),
            r.buffer() == self@,
            r.positions() == if self.spec_reverse_endian() {
                descending_positions(0, self@.len() as usize)
            } else {
                ascending_positions(0, self@.len() as usize)
            },
            r.remaining() == self.logical(),
    {
        let ByteString { bytes, interpret_reverse_endian } = self;
        BytesIterMut::new(bytes, interpret_reverse_endian)
    }

    /// Overwrites every physical byte with `value`.
    pub fn set_bytes_with_value(&mut self, value: u8)
        ensures
            final(self)@.len() == old(self)@.len(),
            forall|i: int| 0 <= i < final(self)@.len() ==> final(self)@[i] == value,
            final(self).spec_reverse_endian() == old(self).spec_reverse_endian(),
    {
        util::set_bytes(self.bytes.as_mut_slice(), value);
    }

    /// Overwrites every physical byte with zero.
    pub fn set_zero(&mut self)
        ensures
            final(self)@.len() == old(self)@.len(),
            forall|i: int| 0 <= i < final(self)@.len() ==> final(self)@[i] == 0,
            final(self).spec_reverse_endian() == old(self).spec_reverse_endian(),
    {
        self.set_bytes_with_value(0);
    }

    /// True exactly when every physical byte is zero; in particular, true of
    /// an empty buffer.
    pub fn is_zero(&self) -> (r: bool)
        ensures
            r <==> (forall|i: int| 0 <= i < self@.len() ==> self@[i] == 0),
    {
        let n = self.bytes.len();
        let mut i: usize = 0;
        while i < n
            invariant
                n == self@.len(),
                0 <= i <= n,
                forall|j: int| 0 <= j < i ==> self@[j] == 0,
            decreases n - i,
        {
            if self.bytes[i] != 0 {
                return false;
            }
            i += 1;
        }
        true
    }

    /// Mirrors the buffer around its center: the byte at physical index `i`
    /// trades places with the byte at physical index `len - 1 - i`; for an
    /// odd length the middle byte is untouched.
    pub fn reverse_byte_endianness(&mut self)
        ensures
            final(self)@ == old(self)@.reverse(),
            final(self).spec_reverse_endian() == old(self).spec_reverse_endian(),
    {
        let count = self.byte_len();
        let mid = (count - (count % 2)) / 2;

        let mut i: usize = 0;
        while i < mid
            invariant
                count == self@.len(),
                count == old(self)@.len(),
                2 * mid <= count <= 2 * mid + 1,
                0 <= i <= mid,
                self.spec_reverse_endian() == old(self).spec_reverse_endian(),
                forall|j: int| 0 <= j < i ==> self@[j] == old(self)@[count - 1 - j],
                forall|j: int| 0 <= j < i ==> self@[count - 1 - j] == old(self)@[j],
                forall|j: int| i <= j < count - i ==> self@[j] == old(self)@[j],
            decreases mid - i,
        {
            let mut x = self.bytes[i];
            let mut y = self.bytes[count - 1 - i];
            util::swap_bytes(&mut x, &mut y);
            self.bytes[i] = x;
            let p = count - 1 - i;
            self.bytes[p] = y;
            i += 1;
        }
        proof {
            assert(self@ =~= old(self)@.reverse());
        }
    }

    /// Replaces every physical byte with the bit-reversal of that byte,
    /// independent of the view's logical order.
    pub fn reverse_bit_endianness(&mut self)
        ensures
            final(self)@.len() == old(self)@.len(),
            forall|i: int|
                0 <= i < final(self)@.len() ==> final(self)@[i] == util::rev8(old(self)@[i]),
            final(self).spec_reverse_endian() == old(self).spec_reverse_endian(),
    {
        let n = self.bytes.len();
        let mut i: usize = 0;
        while i < n
            invariant
                n == self@.len(),
                n == old(self)@.len(),
                0 <= i <= n,
                self.spec_reverse_endian() == old(self).spec_reverse_endian(),
                forall|j: int| 0 <= j < i ==> self@[j] == util::rev8(old(self)@[j]),
                forall|j: int| i <= j < n ==> self@[j] == old(self)@[j],
            decreases n - i,
        {
            let b = util::reverse_bit_endianness(self.bytes[i]);
            self.bytes[i] = b;
            i += 1;
        }
    }

    /// Rotates the physical buffer left by `count` positions when the flag
    /// is unset, and right by `count` when it is set, so that the rotation
    /// always moves bytes toward the logical most-significant end: in
    /// logical order it is a left rotation either way.
    pub fn rotl_bytes(&mut self, count: usize)
        requires
            count <= old(self)@.len(),
        ensures
            final(self).spec_reverse_endian() == old(self).spec_reverse_endian(),
            !old(self).spec_reverse_endian() ==> final(self)@ == rotl_seq(
                old(self)@,
                count as int,
            ),
            old(self).spec_reverse_endian() ==> final(self)@ == rotr_seq(old(self)@, count as int),
            final(self).logical() == rotl_seq(old(self).logical(), count as int),
    {
        let n = self.bytes.len();
        if n == 0 {
            proof {
                assert(self@ =~= rotl_seq(old(self)@, 0));
                assert(self@ =~= rotr_seq(old(self)@, 0));
                assert(self.logical() =~= rotl_seq(old(self).logical(), 0));
            }
            return ;
        }
        // The physical left-rotation amount: a right rotation by `count` is
        // a left rotation by `n - count`.
        let k = if self.interpret_reverse_endian {
            n - count
        } else {
            count
        };
        let k = if k == n {
            0
        } else {
            k
        };

        let mut rotated: Vec<u8> = Vec::new();
        let mut i: usize = 0;
        while i < n
            invariant
                n == self@.len(),
                n == old(self)@.len(),
                self@ == old(self)@,
                0 <= k < n,
                0 <= i <= n,
                self.spec_reverse_endian() == old(self).spec_reverse_endian(),
                rotated@.len() == i,
                forall|j: int|
                    0 <= j < i ==> rotated@[j] == self@[if j + k < n {
                        j + k
                    } else {
                        j + k - n
                    }],
            decreases n - i,
        {
            let src = if i < n - k {
                i + k
            } else {
                i - (n - k)
            };
            rotated.push(self.bytes[src]);
            i += 1;
        }
        self.bytes = rotated;
        proof {
            if !old(self).spec_reverse_endian() {
                assert(self@ =~= rotl_seq(old(self)@, count as int));
            } else {
                assert(self@ =~= rotr_seq(old(self)@, count as int));
                assert(self@.reverse() =~= rotl_seq(old(self)@.reverse(), count as int));
            }
            assert(self.logical() =~= rotl_seq(old(self).logical(), count as int));
        }
    }

    /// The byte at logical position `i`.
    fn logical_byte(&self, i: usize) -> (r: u8)
        requires
            i < self@.len(),
        ensures
            r == self.logical()[i as int],
    {
        if self.interpret_reverse_endian {
            self.bytes[self.bytes.len() - 1 - i]
        } else {
            self.bytes[i]
        }
    }

    /// Overwrites the byte at logical position `i`.
    fn set_logical_byte(&mut self, i: usize, value: u8)
        requires
            i < old(self)@.len(),
        ensures
            final(self)@.len() == old(self)@.len(),
            final(self).spec_reverse_endian() == old(self).spec_reverse_endian(),
            final(self).logical() == old(self).logical().update(i as int, value),
    {
        if self.interpret_reverse_endian {
            let p = self.bytes.len() - 1 - i;
            self.bytes[p] = value;
        } else {
            self.bytes[i] = value;
        }
        proof {
            assert(self.logical() =~= old(self).logical().update(i as int, value));
        }
    }
    /// Shifts the value spelled by the logical byte sequence, read as the
    /// big-endian digits of one unsigned integer of width `bit_len`, left by
    /// `rhs` bits. A shift of zero, or of an already all-zero buffer, is a
    /// no-op; a shift of `bit_len` or more clears the buffer; any other
    /// shift moves whole bytes by rotation and the sub-byte remainder by an
    /// intra-byte shift with carry propagation.
    pub fn shl_assign(&mut self, rhs: usize)
        requires
            old(self)@.len() * 8 <= usize::MAX,
        ensures
            final(self).spec_reverse_endian() == old(self).spec_reverse_endian(),
            final(self)@.len() == old(self)@.len(),
            final(self).logical() == spec_shl(old(self).logical(), rhs as int),
    {
        let ghost ol = old(self).logical();

        if self.is_zero() || rhs == 0 {
            proof {
                if rhs != 0 {
                    assert(forall|i: int| 0 <= i < ol.len() ==> ol[i] == 0u8);
                    if rhs >= 8 * ol.len() {
                        assert(ol =~= spec_shl(ol, rhs as int));
                    } else {
                        if rhs as int % 8 != 0 {
                            lemma_zero_byte_shift((rhs % 8) as u8);
                        }
                        assert(ol =~= spec_shl(ol, rhs as int));
                    }
                }
            }
            return ;
        }

        let bl = self.bit_len();
        if rhs >= bl {
            self.set_zero();
            proof {
                assert(self.logical() =~= spec_shl(ol, rhs as int));
            }
            return ;
        }

        let shift_count = rhs % bl;
        proof {
            vstd::arithmetic::div_mod::lemma_small_mod(rhs as nat, bl as nat);
        }
        let bit_part = shift_count % 8;
        let byte_part = shift_count / 8;

        let n = self.byte_len();

        // Intra-byte shift: walk the logical sequence from the least toward
        // the most significant byte, skipping the `byte_part` most
        // significant bytes (they are discarded), carrying the high
        // `bit_part` bits of each byte into the next byte processed.
        if bit_part > 0 {
            let mut carry_bits: u8 = 0;
            let mut i = n;
            while i > byte_part
                invariant
                    n == self@.len(),
                    n == old(self)@.len(),
                    ol == old(self).logical(),
                    self.spec_reverse_endian() == old(self).spec_reverse_endian(),
                    0 < bit_part < 8,
                    byte_part == rhs as int / 8,
                    bit_part == rhs as int % 8,
                    0 <= byte_part < n,
                    byte_part <= i <= n,
                    forall|j: int| 0 <= j < i ==> self.logical()[j] == ol[j],
                    forall|j: int|
                        i <= j < n ==> self.logical()[j] == shifted_byte(
                            ol,
                            j - byte_part,
                            byte_part as int,
                            bit_part as int,
                        ),
                    carry_bits == if i < n {
                        ol[i as int] >> (8 - bit_part)
                    } else {
                        0u8
                    },
                decreases i,
            {
                i = i - 1;
                let b = self.logical_byte(i);
                let tmp_carry_bits = b >> (8 - bit_part);
                let shifted = (b << bit_part) | carry_bits;
                self.set_logical_byte(i, shifted);
                proof {
                    if i + 1 == n {
                        lemma_zero_shr((8 - bit_part) as u8);
                    }
                    assert(self.logical()[i as int] == shifted_byte(
                        ol,
                        i as int - byte_part,
                        byte_part as int,
                        bit_part as int,
                    ));
                }
                carry_bits = tmp_carry_bits;
            }
        }

        // Zero out the `byte_part` most significant logical bytes: after the
        // rotation below they become the vacated least significant bytes.
        let ghost mid = self.logical();
        let mut j: usize = 0;
        while j < byte_part
            invariant
                n == self@.len(),
                n == old(self)@.len(),
                mid.len() == n,
                self.spec_reverse_endian() == old(self).spec_reverse_endian(),
                0 <= j <= byte_part <= n,
                forall|q: int| 0 <= q < j ==> self.logical()[q] == 0u8,
                forall|q: int| j <= q < n ==> self.logical()[q] == mid[q],
            decreases byte_part - j,
        {
            self.set_logical_byte(j, 0);
            j += 1;
        }

        // Move the zeroed region to the least significant end in one
        // rotation, shifting the remaining bytes into their new positions.
        let ghost mid2 = self.logical();
        self.rotl_bytes(byte_part);

        proof {
            assert forall|idx: int| 0 <= idx < n implies self.logical()[idx] == spec_shl(
                ol,
                rhs as int,
            )[idx] by {
                let bp = byte_part as int;
                let sp = bit_part as int;
                assert(ol.len() == n);
                assert(0 < (rhs as int) && (rhs as int) < 8 * n);
                assert(spec_shl(ol, rhs as int)[idx] == shifted_byte(ol, idx, bp, sp));
                assert(self.logical() == rotl_seq(mid2, bp));
                if idx < n - bp {
                    assert(rotl_seq(mid2, bp)[idx] == mid2[idx + bp]);
                    assert(mid2[idx + bp] == mid[idx + bp]);
                    if sp > 0 {
                        assert(mid[idx + bp] == shifted_byte(ol, idx, bp, sp));
                    } else {
                        assert(mid[idx + bp] == ol[idx + bp]);
                        assert(shifted_byte(ol, idx, bp, sp) == ol[idx + bp]);
                    }
                } else {
                    assert(rotl_seq(mid2, bp)[idx] == mid2[idx + bp - n]);
                    assert(idx + bp - n < bp);
                    assert(mid2[idx + bp - n] == 0u8);
                    assert(idx + bp >= n);
                    if sp != 0 {
                        lemma_zero_byte_shift(sp as u8);
                        assert(shifted_byte(ol, idx, bp, sp) == 0u8);
                    } else {
                        assert(shifted_byte(ol, idx, bp, sp) == 0u8);
                    }
                }
            }
            assert(self.logical() =~= spec_shl(ol, rhs as int));
        }
    }

    /// Replaces every byte with its one's complement. The view is consumed
    /// and returned, so the call site keeps value semantics.
    pub fn not(self) -> (r: Self)
        ensures
            r.spec_reverse_endian() == self.spec_reverse_endian(),
            r@.len() == self@.len(),
            forall|i: int| 0 <= i < r@.len() ==> r@[i] == !self@[i],
    {
        let mut s = self;
        let n = s.bytes.len();
        let mut i: usize = 0;
        while i < n
            invariant
                n == s@.len(),
                n == self@.len(),
                0 <= i <= n,
                s.spec_reverse_endian() == self.spec_reverse_endian(),
                forall|j: int| 0 <= j < i ==> s@[j] == !self@[j],
                forall|j: int| i <= j < n ==> s@[j] == self@[j],
            decreases n - i,
        {
            let b = !s.bytes[i];
            s.bytes[i] = b;
            i += 1;
        }
        s
    }

    /// Pairs this view's logical sequence with `rhs`'s and replaces each of
    /// this view's bytes with the AND of the pair; pairing stops at the
    /// shorter of the two logical sequences.
    pub fn bitand_assign(&mut self, rhs: &ByteString)
        ensures
            final(self).spec_reverse_endian() == old(self).spec_reverse_endian(),
            final(self)@.len() == old(self)@.len(),
            final(self).logical() == combine_logical(
                old(self).logical(),
                rhs.logical(),
                (|x: u8, y: u8| x & y),
            ),
    {
        let n = self.byte_len();
        let m = rhs.byte_len();
        let limit = if n < m {
            n
        } else {
            m
        };
        let mut i: usize = 0;
        while i < limit
            invariant
                n == self@.len(),
                n == old(self)@.len(),
                m == rhs@.len(),
                limit == if n < m {
                    n
                } else {
                    m
                },
                0 <= i <= limit,
                self.spec_reverse_endian() == old(self).spec_reverse_endian(),
                forall|j: int|
                    0 <= j < i ==> self.logical()[j] == (old(self).logical()[j]
                        & rhs.logical()[j]),
                forall|j: int| i <= j < n ==> self.logical()[j] == old(self).logical()[j],
            decreases limit - i,
        {
            let a = self.logical_byte(i);
            let b = rhs.logical_byte(i);
            self.set_logical_byte(i, a & b);
            i += 1;
        }
        proof {
            assert(self.logical() =~= combine_logical(
                old(self).logical(),
                rhs.logical(),
                (|x: u8, y: u8| x & y),
            ));
        }
    }

    /// Pairs this view's logical sequence with `rhs`'s and replaces each of
    /// this view's bytes with the XOR of the pair; pairing stops at the
    /// shorter of the two logical sequences.
    pub fn bitxor_assign(&mut self, rhs: &ByteString)
        ensures
            final(self).spec_reverse_endian() == old(self).spec_reverse_endian(),
            final(self)@.len() == old(self)@.len(),
            final(self).logical() == combine_logical(
                old(self).logical(),
                rhs.logical(),
                (|x: u8, y: u8| x ^ y),
            ),
    {
        let n = self.byte_len();
        let m = rhs.byte_len();
        let limit = if n < m {
            n
        } else {
            m
        };
        let mut i: usize = 0;
        while i < limit
            invariant
                n == self@.len(),
                n == old(self)@.len(),
                m == rhs@.len(),
                limit == if n < m {
                    n
                } else {
                    m
                },
                0 <= i <= limit,
                self.spec_reverse_endian() == old(self).spec_reverse_endian(),
                forall|j: int|
                    0 <= j < i ==> self.logical()[j] == (old(self).logical()[j]
                        ^ rhs.logical()[j]),
                forall|j: int| i <= j < n ==> self.logical()[j] == old(self).logical()[j],
            decreases limit - i,
        {
            let a = self.logical_byte(i);
            let b = rhs.logical_byte(i);
            self.set_logical_byte(i, a ^ b);
            i += 1;
        }
        proof {
            assert(self.logical() =~= combine_logical(
                old(self).logical(),
                rhs.logical(),
                (|x: u8, y: u8| x ^ y),
            ));
        }
    }

    /// Pairs this view's logical sequence with `rhs`'s and replaces each of
    /// this view's bytes with the OR of the pair; pairing stops at the
    /// shorter of the two logical sequences.
    pub fn bitor_assign(&mut self, rhs: &ByteString)
        ensures
            final(self).spec_reverse_endian() == old(self).spec_reverse_endian(),
            final(self)@.len() == old(self)@.len(),
            final(self).logical() == combine_logical(
                old(self).logical(),
                rhs.logical(),
                (|x: u8, y: u8| x | y),
            ),
    {
        let n = self.byte_len();
        let m = rhs.byte_len();
        let limit = if n < m {
            n
        } else {
            m
        };
        let mut i: usize = 0;
        while i < limit
            invariant
                n == self@.len(),
                n == old(self)@.len(),
                m == rhs@.len(),
                limit == if n < m {
                    n
                } else {
                    m
                },
                0 <= i <= limit,
                self.spec_reverse_endian() == old(self).spec_reverse_endian(),
                forall|j: int|
                    0 <= j < i ==> self.logical()[j] == (old(self).logical()[j]
                        | rhs.logical()[j]),
                forall|j: int| i <= j < n ==> self.logical()[j] == old(self).logical()[j],
            decreases limit - i,
        {
            let a = self.logical_byte(i);
            let b = rhs.logical_byte(i);
            self.set_logical_byte(i, a | b);
            i += 1;
        }
        proof {
            assert(self.logical() =~= combine_logical(
                old(self).logical(),
                rhs.logical(),
                (|x: u8, y: u8| x | y),
            ));
        }
    }
}

/// Two views are equal exactly when their logical byte sequences, each
/// produced through its own endianness flag, are element-wise equal;
/// equality is therefore sensitive to each operand's own flag, never to the
/// physical order alone.
impl PartialEq for ByteString {
    fn eq(&self, other: &Self) -> (r: bool) {
        if self.byte_len() != other.byte_len() {
            proof {
                assert(self.logical().len() != other.logical().len());
            }
            return false;
        }
        let n = self.byte_len();
        let mut i: usize = 0;
        while i < n
            invariant
                n == self@.len(),
                n == other@.len(),
                0 <= i <= n,
                forall|j: int| 0 <= j < i ==> self.logical()[j] == other.logical()[j],
            decreases n - i,
        {
            if self.logical_byte(i) != other.logical_byte(i) {
                return false;
            }
            i += 1;
        }
        proof {
            assert(self.logical() =~= other.logical());
        }
        true
    }
}

impl Eq for ByteString {

}

impl vstd::std_specs::cmp::PartialEqSpecImpl for ByteString {
    open spec fn obeys_eq_spec() -> bool {
        true
    }

    open spec fn eq_spec(&self, other: &Self) -> bool {
        self.logical() == other.logical()
    }
}

} // verus!
