//! The difference calculator: a pure, total, length- and order-preserving
//! map from loss records to difference records.

use crate::num::{spec_ratio, Ratio};
use crate::record::{DiffRecord, LossRecord, RelDiff};
use vstd::prelude::*;

verus! {

/// The zero-division guard: when the relative difference is zero over
/// zero, the divisor becomes this mantissa instead, i.e. `10^-8`.
pub const DEFAULT_EPSILON: i64 = 1;

/// The relative difference of one record: the absolute difference `d`
/// over the second value `vb`, both mantissas at the same scale (so the
/// scales cancel and the rational is the true quotient).  A zero over
/// zero is recovered as `d / (vb + eps)`; a non-zero `d` over zero is a
/// signed infinity.
pub open spec fn spec_rel_diff(d: int, vb: int, eps: int) -> RelDiff {
    if vb != 0 {
        RelDiff::Finite(spec_ratio(d, vb))
    } else if d == 0 {
        RelDiff::Finite(spec_ratio(d, eps))
    } else if d > 0 {
        RelDiff::PosInf
    } else {
        RelDiff::NegInf
    }
}

/// The difference record derived from one loss record.
pub open spec fn spec_diff(r: LossRecord, eps: int) -> DiffRecord {
    DiffRecord {
        step: r.step,
        absolute_diff: (r.value_a - r.value_b) as i64,
        relative_diff: spec_rel_diff(r.value_a - r.value_b, r.value_b as int, eps),
    }
}

/// The difference series of a record sequence: same length, same order.
pub open spec fn spec_diffs(s: Seq<LossRecord>, eps: int) -> Seq<DiffRecord> {
    Seq::new(s.len(), |i: int| spec_diff(s[i], eps))
}

/// Computes the difference series with an explicit zero-division guard
/// epsilon (a positive mantissa).
pub fn compute_diffs_with_epsilon(records: &Vec<LossRecord>, epsilon: i64) -> (diffs: Vec<
    DiffRecord,
>)
    requires
        epsilon >= 1,
        forall|i: int| 0 <= i < records@.len() ==> records@[i].valid(),
    ensures
        diffs@ == spec_diffs(records@, epsilon as int),
        diffs@.len() == records@.len(),
        forall|i: int|
            0 <= i < records@.len() ==> diffs@[i].absolute_diff == records@[i].value_a
                - records@[i].value_b,
        forall|i: int| 0 <= i < records@.len() ==> diffs@[i].step == records@[i].step,
        forall|i: int| 0 <= i < records@.len() ==> diffs@[i].valid(),
{
    let mut diffs: Vec<DiffRecord> = Vec::new();
    let n = records.len();
    let mut k: usize = 0;
    while k < n
        invariant
            n == records@.len(),
            k <= n,
            epsilon >= 1,
            forall|i: int| 0 <= i < records@.len() ==> records@[i].valid(),
            diffs@ =~= spec_diffs(records@, epsilon as int).take(k as int),
        decreases n - k,
    {
        let r = records[k];
        let d: i64 = r.value_a - r.value_b;
        let rel: RelDiff = if r.value_b != 0 {
            if r.value_b > 0 {
                RelDiff::Finite(Ratio { num: d as i128, den: r.value_b as i128 })
            } else {
                RelDiff::Finite(Ratio { num: -(d as i128), den: -(r.value_b as i128) })
            }
        } else if d == 0 {
            RelDiff::Finite(Ratio { num: 0, den: epsilon as i128 })
        } else if d > 0 {
            RelDiff::PosInf
        } else {
            RelDiff::NegInf
        };
        let rec = DiffRecord { step: r.step, absolute_diff: d, relative_diff: rel };
        assert(rec == spec_diff(records@[k as int], epsilon as int));
        diffs.push(rec);
        k = k + 1;
    }
    assert(diffs@ =~= spec_diffs(records@, epsilon as int));
    assert(forall|i: int|
        0 <= i < records@.len() ==> #[trigger] diffs@[i] == spec_diff(records@[i], epsilon as int));
    diffs
}

/// Computes the difference series with the default epsilon guard.
pub fn compute_diffs(records: &Vec<LossRecord>) -> (diffs: Vec<DiffRecord>)
    requires
        forall|i: int| 0 <= i < records@.len() ==> records@[i].valid(),
    ensures
        diffs@ == spec_diffs(records@, DEFAULT_EPSILON as int),
        diffs@.len() == records@.len(),
        forall|i: int|
            0 <= i < records@.len() ==> diffs@[i].absolute_diff == records@[i].value_a
                - records@[i].value_b,
        forall|i: int| 0 <= i < records@.len() ==> diffs@[i].step == records@[i].step,
        forall|i: int| 0 <= i < records@.len() ==> diffs@[i].valid(),
{
    compute_diffs_with_epsilon(records, DEFAULT_EPSILON)
}

} // verus!
