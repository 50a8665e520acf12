//! Maximum-sum contiguous subarray by divide and conquer.
//!
//! Sums are accumulated in `i64`, so no partial sum of `i32` elements can
//! wrap: every sum of a sequence of at most `u32::MAX` elements fits.

pub mod sums;
pub mod crossing;
pub mod solve;
