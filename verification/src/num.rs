//! Exact fixed-point numbers and rationals.
//!
//! Every loss value, step index and difference is an `i64` mantissa at a
//! fixed decimal scale: a mantissa `m` stands for the real number
//! `m / SCALE`.  The scale is `10^8`, so the smallest representable
//! increment is `10^-8`, which is also the zero-division guard epsilon of
//! the difference calculator.  Quantities that a fixed scale cannot hold
//! exactly (relative differences, means) are exact rationals.

use vstd::prelude::*;

verus! {

/// Mantissa units per whole number: values carry eight decimal places.
pub const SCALE: i64 = 100_000_000;

/// Largest mantissa magnitude a parsed value may have (`10^18`, i.e. a
/// value magnitude of `10^10`).  The bound keeps every difference within
/// `i64` and every windowed sum within `i128`.
pub const VALUE_LIMIT: i64 = 1_000_000_000_000_000_000;

/// Largest mantissa magnitude of a difference of two parsed values.
pub const DIFF_LIMIT: i64 = 2_000_000_000_000_000_000;

/// An exact rational number `num / den`; well-formed when `den > 0`.
#[derive(Clone, Copy, Debug, PartialEq, Eq, Structural)]
pub struct Ratio {
    pub num: i128,
    pub den: i128,
}

impl Ratio {
    pub open spec fn wf(self) -> bool {
        self.den > 0
    }

    /// The canonical zero rational.
    pub fn zero() -> (r: Ratio)
        ensures
            r == (Ratio { num: 0, den: 1 }),
    {
        Ratio { num: 0, den: 1 }
    }
}

/// The rational `n / d` for `d != 0`, with the sign moved into the
/// numerator so that the denominator is positive.
pub open spec fn spec_ratio(n: int, d: int) -> Ratio {
    if d > 0 {
        Ratio { num: n as i128, den: d as i128 }
    } else {
        Ratio { num: (-n) as i128, den: (-d) as i128 }
    }
}

/// The step label reported alongside an extremal statistic: the step
/// mantissa truncated to a whole number and saturated into `usize`.
pub open spec fn step_label(m: i64) -> usize {
    if m <= 0 {
        0
    } else if m as int / (SCALE as int) > usize::MAX {
        usize::MAX
    } else {
        (m as int / (SCALE as int)) as usize
    }
}

/// Computes `step_label`.
pub fn step_label_of(m: i64) -> (r: usize)
    ensures
        r == step_label(m),
{
    if m <= 0 {
        0
    } else {
        let q: u64 = (m as u64) / (SCALE as u64);
        if q > usize::MAX as u64 {
            usize::MAX
        } else {
            q as usize
        }
    }
}

} // verus!
