//! The index sequence and the byte reader/writer built on it.
//!
//! An [`Index`] produces each position of a half-open range `[start, end)`
//! exactly once, in ascending or descending order, from either end.
//! [`BytesIter`] pairs a borrowed buffer with an `Index` and yields bytes in
//! the chosen logical order; [`BytesIterMut`] does the same for a buffer it
//! holds exclusively, and can also write through the traversal.

use core::ops::Range;
use vstd::prelude::*;

verus! {

/// The positions `start, start + 1, ..., end - 1`, in that order.
pub open spec fn ascending_positions(start: usize, end: usize) -> Seq<usize> {
    if start <= end {
        Seq::new((end - start) as nat, |i: int| (start + i) as usize)
    } else {
        Seq::empty()
    }
}

/// The positions `end - 1, end - 2, ..., start`, in that order.
pub open spec fn descending_positions(start: usize, end: usize) -> Seq<usize> {
    if start <= end {
        Seq::new((end - start) as nat, |i: int| (end - 1 - i) as usize)
    } else {
        Seq::empty()
    }
}

/// Over a full traversal, each position of `[start, end)` appears exactly
/// once, in either direction: the index sequence has no repeats. This is
/// what lets a writer built on it hand out exclusive access to one buffer
/// slot per step without ever exposing the same slot twice.
pub proof fn lemma_positions_no_repeats(start: usize, end: usize)
    ensures
        forall|i: int, j: int|
            0 <= i < j < ascending_positions(start, end).len() ==> #[trigger] ascending_positions(
                start,
                end,
            )[i] != #[trigger] ascending_positions(start, end)[j],
        forall|i: int, j: int|
            0 <= i < j < descending_positions(start, end).len() ==> #[trigger] descending_positions(
                start,
                end,
            )[i] != #[trigger] descending_positions(start, end)[j],
{
}

/// A double-ended traversal of the integer positions of a half-open range,
/// ascending or descending, chosen once at construction.
pub enum Index {
    Iter { start: usize, end: usize },
    RevIter { start: usize, end: usize },
}

impl View for Index {
    type V = Seq<usize>;

    /// The positions not yet produced, in the order the traversal's front
    /// will produce them.
    closed spec fn view(&self) -> Seq<usize> {
        match *self {
            Index::Iter { start, end } => ascending_positions(start, end),
            Index::RevIter { start, end } => descending_positions(start, end),
        }
    }
}

impl Index {
    /// An ascending traversal of `range`.
    pub fn new_iter(range: Range<usize>) -> (r: Self)
        ensures
            r@ == ascending_positions(range.start, range.end),
    {
        Self::Iter { start: range.start, end: range.end }
    }

    /// A descending traversal of `range`.
    pub fn new_rev_iter(range: Range<usize>) -> (r: Self)
        ensures
            r@ == descending_positions(range.start, range.end),
    {
        Self::RevIter { start: range.start, end: range.end }
    }

    /// Produces the next position from the logical front, or `None` once the
    /// traversal is exhausted. The remaining count decreases by exactly one
    /// per position produced.
    pub fn next(&mut self) -> (r: Option<usize>)
        ensures
            old(self)@.len() == 0 ==> r is None && *final(self) == *old(self),
            old(self)@.len() > 0 ==> r == Some(old(self)@[0]) && final(self)@ == old(self)@.drop_first(),
    {
        match self {
            Index::Iter { start, end } => {
                if *start < *end {
                    let i = *start;
                    *start = i + 1;
                    proof {
                        assert(self@ =~= old(self)@.drop_first());
                    }
                    Some(i)
                } else {
                    None
                }
            },
            Index::RevIter { start, end } => {
                if *start < *end {
                    let i = *end - 1;
                    *end = i;
                    proof {
                        assert(self@ =~= old(self)@.drop_first());
                    }
                    Some(i)
                } else {
                    None
                }
            },
        }
    }

    /// Produces the next position from the logical back, or `None` once the
    /// traversal is exhausted.
    pub fn next_back(&mut self) -> (r: Option<usize>)
        ensures
            old(self)@.len() == 0 ==> r is None && *final(self) == *old(self),
            old(self)@.len() > 0 ==> r == Some(old(self)@.last()) && final(self)@ == old(self)@.drop_last(),
    {
        match self {
            Index::Iter { start, end } => {
                if *start < *end {
                    let i = *end - 1;
                    *end = i;
                    proof {
                        assert(self@ =~= old(self)@.drop_last());
                    }
                    Some(i)
                } else {
                    None
                }
            },
            Index::RevIter { start, end } => {
                if *start < *end {
                    let i = *start;
                    *start = i + 1;
                    proof {
                        assert(self@ =~= old(self)@.drop_last());
                    }
                    Some(i)
                } else {
                    None
                }
            },
        }
    }

    /// The exact remaining count, as a lower bound and an exact upper bound.
    pub fn size_hint(&self) -> (r: (usize, Option<usize>))
        ensures
            r.0 == self@.len(),
            r.1 == Some(r.0),
    {
        match self {
            Index::Iter { start, end } => {
                let n = if *start <= *end {
                    *end - *start
                } else {
                    0
                };
                (n, Some(n))
            },
            Index::RevIter { start, end } => {
                let n = if *start <= *end {
                    *end - *start
                } else {
                    0
                };
                (n, Some(n))
            },
        }
    }
}

/// A lazy, finite sequence of the bytes of a borrowed buffer, produced in
/// the logical order chosen at construction: physical order normally,
/// reversed when `should_iter_reverse` is set.
pub struct BytesIter<'a> {
    bytes: &'a [u8],
    index: Index,
}

impl<'a> View for BytesIter<'a> {
    type V = Seq<u8>;

    /// The bytes not yet produced, in the order the front will produce them.
    closed spec fn view(&self) -> Seq<u8> {
        Seq::new(self.index@.len(), |i: int| self.bytes@[self.index@[i] as int])
    }
}

impl<'a> BytesIter<'a> {
    /// Every remaining position indexes into the borrowed buffer.
    pub closed spec fn wf(&self) -> bool {
        forall|i: int| 0 <= i < self.index@.len() ==> (#[trigger] self.index@[i]) < self.bytes@.len()
    }

    /// A traversal of all of `bytes`, ascending if `should_iter_reverse` is
    /// false and descending if it is true.
    pub fn new(bytes: &'a [u8], should_iter_reverse: bool) -> (r: Self)
        ensures
            r.wf(),
            r@ == if should_iter_reverse {
                bytes@.reverse()
            } else {
                bytes@
            },
    {
        let range = 0..bytes.len();

        let index = if should_iter_reverse {
            Index::new_rev_iter(range)
        } else {
            Index::new_iter(range)
        };

        let r = Self { bytes, index };
        proof {
            if should_iter_reverse {
                assert(r@ =~= bytes@.reverse());
            } else {
                assert(r@ =~= bytes@);
            }
        }
        r
    }

    /// The next byte from the logical front, or `None` once exhausted.
    pub fn next(&mut self) -> (r: Option<u8>)
        requires
            old(self).wf(),
        ensures
            final(self).wf(),
            old(self)@.len() == 0 ==> r is None && final(self)@ == old(self)@,
            old(self)@.len() > 0 ==> r == Some(old(self)@[0]) && final(self)@ == old(self)@.drop_first(),
    {
        if let Some(ix) = self.index.next() {
            proof {
                assert(self@ =~= old(self)@.drop_first());
            }
            return Some(self.bytes[ix]);
        }
        None
    }

    /// The next byte from the logical back, or `None` once exhausted.
    pub fn next_back(&mut self) -> (r: Option<u8>)
        requires
            old(self).wf(),
        ensures
            final(self).wf(),
            old(self)@.len() == 0 ==> r is None && final(self)@ == old(self)@,
            old(self)@.len() > 0 ==> r == Some(old(self)@.last()) && final(self)@ == old(self)@.drop_last(),
    {
        if let Some(ix) = self.index.next_back() {
            proof {
                assert(self@ =~= old(self)@.drop_last());
            }
            return Some(self.bytes[ix]);
        }
        None
    }

    /// The exact remaining count, as a lower bound and an exact upper bound.
    pub fn size_hint(&self) -> (r: (usize, Option<usize>))
        ensures
            r.0 == self@.len(),
            r.1 == Some(r.0),
    {
        self.index.size_hint()
    }

    /// The exact remaining count.
    pub fn len(&self) -> (r: usize)
        ensures
            r == self@.len(),
    {
        self.index.size_hint().0
    }
}

/// The writer counterpart of [`BytesIter`]: it holds the buffer exclusively
/// for the length of the traversal, yields bytes in the chosen logical
/// order, and can overwrite each position as it is produced. Because every
/// position is produced exactly once, no position is ever written through
/// two different steps of one traversal.
pub struct BytesIterMut {
    bytes: Vec<u8>,
    index: Index,
}

impl BytesIterMut {
    /// The buffer as it currently stands, in physical order.
    pub closed spec fn buffer(&self) -> Seq<u8> {
        self.bytes@
    }

    /// The physical positions not yet produced, in the order the front will
    /// produce them.
    pub closed spec fn positions(&self) -> Seq<usize> {
        self.index@
    }

    /// The bytes not yet produced, in the order the front will produce them.
    pub open spec fn remaining(&self) -> Seq<u8> {
        Seq::new(self.positions().len(), |i: int| self.buffer()[self.positions()[i] as int])
    }

    /// Every remaining position indexes into the held buffer.
    pub closed spec fn wf(&self) -> bool {
        forall|i: int|
            0 <= i < self.index@.len() ==> (#[trigger] self.index@[i]) < self.bytes@.len()
    }

    /// A traversal of all of `bytes`, ascending if `should_iter_reverse` is
    /// false and descending if it is true. The writer takes the buffer over
    /// for the length of the traversal; [`Self::into_bytes`] hands it back.
    pub fn new(bytes: Vec<u8>, should_iter_reverse: bool) -> (r: Self)
        ensures
            r.wf(),
            r.buffer() == bytes@,
            r.positions() == if should_iter_reverse {
                descending_positions(0, bytes@.len() as usize)
            } else {
                ascending_positions(0, bytes@.len() as usize)
            },
            r.remaining() == if should_iter_reverse {
                bytes@.reverse()
            } else {
                bytes@
            },
    {
        let range = 0..bytes.len();

        let index = if should_iter_reverse {
            Index::new_rev_iter(range)
        } else {
            Index::new_iter(range)
        };

        let r = Self { bytes, index };
        proof {
            if should_iter_reverse {
                assert(r.remaining() =~= r.buffer().reverse());
            } else {
                assert(r.remaining() =~= r.buffer());
            }
        }
        r
    }

    /// The next byte from the logical front, or `None` once exhausted. The
    /// buffer itself is left as it was.
    pub fn next(&mut self) -> (r: Option<u8>)
        requires
            old(self).wf(),
        ensures
            final(self).wf(),
            final(self).buffer() == old(self).buffer(),
            old(self).remaining().len() == 0 ==> r is None && final(self).positions() == old(self).positions(),
            old(self).remaining().len() > 0 ==> r == Some(old(self).remaining()[0]) && final(self).positions() == old(self).positions().drop_first() && final(self).remaining() == old(self).remaining().drop_first(),
    {
        if let Some(ix) = self.index.next() {
            proof {
                assert(self.remaining() =~= old(self).remaining().drop_first());
            }
            return Some(self.bytes[ix]);
        }
        None
    }

    /// The next byte from the logical back, or `None` once exhausted. The
    /// buffer itself is left as it was.
    pub fn next_back(&mut self) -> (r: Option<u8>)
        requires
            old(self).wf(),
        ensures
            final(self).wf(),
            final(self).buffer() == old(self).buffer(),
            old(self).remaining().len() == 0 ==> r is None && final(self).positions() == old(self).positions(),
            old(self).remaining().len() > 0 ==> r == Some(old(self).remaining().last()) && final(self).positions() == old(self).positions().drop_last() && final(self).remaining() == old(self).remaining().drop_last(),
    {
        if let Some(ix) = self.index.next_back() {
            proof {
                assert(self.remaining() =~= old(self).remaining().drop_last());
            }
            return Some(self.bytes[ix]);
        }
        None
    }

    /// Overwrites the position at the logical front with `value`, advances
    /// past it, and returns the byte it held; `None` once exhausted.
    pub fn write_next(&mut self, value: u8) -> (r: Option<u8>)
        requires
            old(self).wf(),
        ensures
            final(self).wf(),
            final(self).buffer().len() == old(self).buffer().len(),
            old(self).remaining().len() == 0 ==> r is None && *final(self) == *old(self),
            old(self).remaining().len() > 0 ==> r == Some(old(self).remaining()[0]) && final(self).positions() == old(self).positions().drop_first() && final(self).buffer() == old(self).buffer().update(old(self).positions()[0] as int, value),
    {
        if let Some(ix) = self.index.next() {
            let previous = self.bytes[ix];
            self.bytes[ix] = value;
            return Some(previous);
        }
        None
    }

    /// Overwrites the position at the logical back with `value`, consumes
    /// it, and returns the byte it held; `None` once exhausted.
    pub fn write_next_back(&mut self, value: u8) -> (r: Option<u8>)
        requires
            old(self).wf(),
        ensures
            final(self).wf(),
            final(self).buffer().len() == old(self).buffer().len(),
            old(self).remaining().len() == 0 ==> r is None && *final(self) == *old(self),
            old(self).remaining().len() > 0 ==> r == Some(old(self).remaining().last()) && final(self).positions() == old(self).positions().drop_last() && final(self).buffer() == old(self).buffer().update(old(self).positions().last() as int, value),
    {
        if let Some(ix) = self.index.next_back() {
            let previous = self.bytes[ix];
            self.bytes[ix] = value;
            return Some(previous);
        }
        None
    }

    /// The exact remaining count, as a lower bound and an exact upper bound.
    pub fn size_hint(&self) -> (r: (usize, Option<usize>))
        ensures
            r.0 == self.remaining().len(),
            r.1 == Some(r.0),
    {
        self.index.size_hint()
    }

    /// The exact remaining count.
    pub fn len(&self) -> (r: usize)
        ensures
            r == self.remaining().len(),
    {
        self.index.size_hint().0
    }

    /// Ends the traversal and hands the buffer back.
    pub fn into_bytes(self) -> (r: Vec<u8>)
        ensures
            r@ == self.buffer(),
    {
        self.bytes
    }
}

} // verus!
