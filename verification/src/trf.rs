//! Trust-region reflective: bounded least squares in which the bounds shape
//! the trust region.
use vstd::prelude::*;

pub mod curves;
pub mod driver;
pub mod geometry;
pub mod laws;
pub mod quadratic;
pub mod reach;
pub mod select;
pub mod steps;
pub mod subproblem;

verus! {

/// One half's pattern.
pub const HALF_BITS: u64 = 0x3fe0_0000_0000_0000;

/// Minus one half's pattern.
pub const NEG_HALF_BITS: u64 = 0xbfe0_0000_0000_0000;

/// Minus one's pattern.
pub const NEG_ONE_BITS: u64 = 0xbff0_0000_0000_0000;

/// One quarter's pattern.
pub const QUARTER_BITS: u64 = 0x3fd0_0000_0000_0000;

/// Three quarters' pattern.
pub const THREE_QUARTERS_BITS: u64 = 0x3fe8_0000_0000_0000;

} // verus!
