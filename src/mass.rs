//! Probabilities as the bit patterns of non-negative doubles.
//!
//! For a double that is `+0.0` or positive and not NaN, the unsigned order of
//! its bit pattern is the order of the numbers, and two such doubles are equal
//! exactly when their patterns are. Negative doubles (`-0.0` included) and NaN
//! have patterns above `ONE`, so `x <= ONE` holds exactly for the doubles in
//! `[+0.0, 1.0]`. Callers turn `-0.0` into `+0.0` before taking its pattern.

use vstd::prelude::*;

verus! {

/// The bit pattern of `1.0`.
pub const ONE: u64 = 0x3ff0_0000_0000_0000;

/// The bit pattern of `0.5`.
pub const HALF: u64 = 0x3fe0_0000_0000_0000;

/// The smallest double whose distance to `1.0` is at most `1e-12`.
pub const SUM_LOW: u64 = 0x3fef_ffff_ffff_dcd1;

/// The largest double whose distance to `1.0` is at most `1e-12`.
pub const SUM_HIGH: u64 = 0x3ff0_0000_0000_1197;

/// The pattern stands for a probability: a double in `[0.0, 1.0]`.
pub open spec fn is_probability(x: u64) -> bool {
    x <= ONE
}

} // verus!
