//! A view over a mutable contiguous byte buffer supporting bit-level and
//! byte-level logical operations: bitwise boolean algebra, arithmetic-style
//! left shift, rotation, and endianness reversal.

pub mod bytes;
pub mod bytes_iter;
pub mod util;
