//! The two record types flowing through the engine: parsed loss records
//! and the per-record difference records derived from them.

use crate::num::{Ratio, DIFF_LIMIT, VALUE_LIMIT};
use vstd::prelude::*;

verus! {

/// One row of the input trace: a step index and the loss value of each
/// backend at that step, all as fixed-point mantissas (see `num`).
#[derive(Clone, Copy, Debug, PartialEq, Eq, Structural)]
pub struct LossRecord {
    pub step: i64,
    pub value_a: i64,
    pub value_b: i64,
}

impl LossRecord {
    /// Every field the parser produces is bounded by `VALUE_LIMIT`.
    pub open spec fn valid(self) -> bool {
        &&& -(VALUE_LIMIT as int) <= self.step <= VALUE_LIMIT as int
        &&& -(VALUE_LIMIT as int) <= self.value_a <= VALUE_LIMIT as int
        &&& -(VALUE_LIMIT as int) <= self.value_b <= VALUE_LIMIT as int
    }
}

/// A relative difference: an exact rational, or a signed infinity when a
/// non-zero difference is divided by a zero loss value.  The infinity is
/// deliberate: only the zero-by-zero case is guarded by the epsilon
/// substitution, a non-zero numerator over zero propagates.
#[derive(Clone, Copy, Debug, PartialEq, Eq, Structural)]
pub enum RelDiff {
    Finite(Ratio),
    PosInf,
    NegInf,
}

/// The difference derived from one `LossRecord`: the step it came from,
/// the absolute difference `value_a - value_b` (a mantissa at the same
/// scale), and the relative difference `absolute / value_b`.
#[derive(Clone, Copy, Debug, PartialEq, Eq, Structural)]
pub struct DiffRecord {
    pub step: i64,
    pub absolute_diff: i64,
    pub relative_diff: RelDiff,
}

impl DiffRecord {
    /// What the difference calculator guarantees of each record it emits.
    pub open spec fn valid(self) -> bool {
        &&& -(VALUE_LIMIT as int) <= self.step <= VALUE_LIMIT as int
        &&& -(DIFF_LIMIT as int) <= self.absolute_diff <= DIFF_LIMIT as int
        &&& match self.relative_diff {
            RelDiff::Finite(q) => q.wf(),
            RelDiff::PosInf => true,
            RelDiff::NegInf => true,
        }
    }
}

} // verus!
