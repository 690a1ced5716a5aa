//! Bit patterns of numbers that several rules share.

use vstd::prelude::*;

verus! {

/// Zero.
pub const ZERO: u64 = 0x0000_0000_0000_0000;

/// Minus zero, from which sums start.
pub const MINUS_ZERO: u64 = 0x8000_0000_0000_0000;

/// 1e-9, within which prices and depths count as equal.
pub const EPSILON: u64 = 0x3e11_2e0b_e826_d695;

/// 1/2.
pub const HALF: u64 = 0x3fe0_0000_0000_0000;

/// 1.
pub const ONE: u64 = 0x3ff0_0000_0000_0000;

/// 2.
pub const TWO: u64 = 0x4000_0000_0000_0000;

/// 100.
pub const HUNDRED: u64 = 0x4059_0000_0000_0000;

/// 1e6.
pub const MILLION: u64 = 0x412e_8480_0000_0000;

} // verus!
