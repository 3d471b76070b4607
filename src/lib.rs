//! Categorical distributions over the outcomes `0..k`.
//!
//! Probabilities reach this library as the bit patterns of non-negative
//! IEEE-754 doubles (see `mass`). Every decision the distribution makes
//! (validation, cumulative lookups, quantiles, medians and modes) is a
//! comparison of such patterns, and is verified here; the floating-point
//! sums themselves are the caller's.

pub mod mass;
pub mod categorical;
