//! The statistics aggregator: a single linear pass over a slice of
//! difference records yielding the eight-field extremal/mean summary.
//!
//! Every extremal field is characterized declaratively: it carries the
//! value and step label of the unique *earliest* record attaining the
//! extremum (strict comparisons in the pass mean a later tie never
//! overwrites an earlier winner).  The two guarded fields
//! (`min_p_diff`, `max_n_diff`) fall back to a signed-infinity sentinel
//! when no record in a non-empty slice qualifies; an empty slice instead
//! yields the all-zero summary.

use crate::num::{step_label, step_label_of, Ratio, DIFF_LIMIT, SCALE};
use crate::record::DiffRecord;
use vstd::prelude::*;

verus! {

/// An extremal value, or a signed-infinity sentinel meaning "no record
/// in the window qualified".
#[derive(Clone, Copy, Debug, PartialEq, Eq, Structural)]
pub enum Extremum {
    Finite(i64),
    PosInf,
    NegInf,
}

/// An extremal value paired with the step label of the record that
/// produced it.
#[derive(Clone, Copy, Debug, PartialEq, Eq, Structural)]
pub struct StepStat {
    pub value: i64,
    pub step: usize,
}

/// A guarded extremal statistic: value (or sentinel) and step label.
#[derive(Clone, Copy, Debug, PartialEq, Eq, Structural)]
pub struct GuardedStat {
    pub value: Extremum,
    pub step: usize,
}

/// The eight-field summary of a window of difference records.
#[derive(Clone, Copy, Debug, PartialEq, Eq, Structural)]
pub struct Feature {
    pub max_diff: StepStat,
    pub min_diff: StepStat,
    pub mean_diff: Ratio,
    pub max_abs_diff: StepStat,
    pub min_abs_diff: StepStat,
    pub mean_abs_diff: Ratio,
    pub min_p_diff: GuardedStat,
    pub max_n_diff: GuardedStat,
}

/// The magnitude of a difference, as a mathematical integer.
pub open spec fn abs_val(d: DiffRecord) -> int {
    if d.absolute_diff < 0 {
        -(d.absolute_diff as int)
    } else {
        d.absolute_diff as int
    }
}

/// The magnitude of a difference mantissa, as an `i64`.
pub open spec fn abs_i64(x: i64) -> i64 {
    if x < 0 {
        (-(x as int)) as i64
    } else {
        x
    }
}

/// Index `i` holds the earliest maximum of `absolute_diff` among the
/// first `n` records of `s`.
pub open spec fn first_max_upto(s: Seq<DiffRecord>, n: int, i: int) -> bool {
    &&& 0 <= i < n <= s.len()
    &&& forall|j: int| 0 <= j < n ==> s[j].absolute_diff <= s[i].absolute_diff
    &&& forall|j: int| 0 <= j < i ==> s[j].absolute_diff < s[i].absolute_diff
}

/// Index `i` holds the earliest minimum of `absolute_diff` among the
/// first `n` records of `s`.
pub open spec fn first_min_upto(s: Seq<DiffRecord>, n: int, i: int) -> bool {
    &&& 0 <= i < n <= s.len()
    &&& forall|j: int| 0 <= j < n ==> s[j].absolute_diff >= s[i].absolute_diff
    &&& forall|j: int| 0 <= j < i ==> s[j].absolute_diff > s[i].absolute_diff
}

/// Index `i` holds the earliest maximum of `|absolute_diff|` among the
/// first `n` records of `s`.
pub open spec fn first_abs_max_upto(s: Seq<DiffRecord>, n: int, i: int) -> bool {
    &&& 0 <= i < n <= s.len()
    &&& forall|j: int| 0 <= j < n ==> abs_val(s[j]) <= abs_val(s[i])
    &&& forall|j: int| 0 <= j < i ==> abs_val(s[j]) < abs_val(s[i])
}

/// Index `i` holds the earliest minimum of `|absolute_diff|` among the
/// first `n` records of `s`.
pub open spec fn first_abs_min_upto(s: Seq<DiffRecord>, n: int, i: int) -> bool {
    &&& 0 <= i < n <= s.len()
    &&& forall|j: int| 0 <= j < n ==> abs_val(s[j]) >= abs_val(s[i])
    &&& forall|j: int| 0 <= j < i ==> abs_val(s[j]) > abs_val(s[i])
}

/// Index `i` holds the earliest minimum of `absolute_diff` among the
/// non-negative differences of the first `n` records of `s`.
pub open spec fn first_nonneg_min_upto(s: Seq<DiffRecord>, n: int, i: int) -> bool {
    &&& 0 <= i < n <= s.len()
    &&& s[i].absolute_diff >= 0
    &&& forall|j: int|
        0 <= j < n && s[j].absolute_diff >= 0 ==> s[j].absolute_diff >= s[i].absolute_diff
    &&& forall|j: int| 0 <= j < i && s[j].absolute_diff >= 0 ==> s[j].absolute_diff > s[i].absolute_diff
}

/// Index `i` holds the earliest maximum of `absolute_diff` among the
/// negative differences of the first `n` records of `s`.
pub open spec fn first_neg_max_upto(s: Seq<DiffRecord>, n: int, i: int) -> bool {
    &&& 0 <= i < n <= s.len()
    &&& s[i].absolute_diff < 0
    &&& forall|j: int|
        0 <= j < n && s[j].absolute_diff < 0 ==> s[j].absolute_diff <= s[i].absolute_diff
    &&& forall|j: int| 0 <= j < i && s[j].absolute_diff < 0 ==> s[j].absolute_diff < s[i].absolute_diff
}

pub open spec fn first_max(s: Seq<DiffRecord>, i: int) -> bool {
    first_max_upto(s, s.len() as int, i)
}

pub open spec fn first_min(s: Seq<DiffRecord>, i: int) -> bool {
    first_min_upto(s, s.len() as int, i)
}

pub open spec fn first_abs_max(s: Seq<DiffRecord>, i: int) -> bool {
    first_abs_max_upto(s, s.len() as int, i)
}

pub open spec fn first_abs_min(s: Seq<DiffRecord>, i: int) -> bool {
    first_abs_min_upto(s, s.len() as int, i)
}

pub open spec fn first_nonneg_min(s: Seq<DiffRecord>, i: int) -> bool {
    first_nonneg_min_upto(s, s.len() as int, i)
}

pub open spec fn first_neg_max(s: Seq<DiffRecord>, i: int) -> bool {
    first_neg_max_upto(s, s.len() as int, i)
}

/// The sum of the differences of `s`.
pub open spec fn sum_diff(s: Seq<DiffRecord>) -> int
    decreases s.len(),
{
    if s.len() == 0 {
        0
    } else {
        sum_diff(s.drop_last()) + s.last().absolute_diff
    }
}

/// The sum of the difference magnitudes of `s`.
pub open spec fn sum_abs_diff(s: Seq<DiffRecord>) -> int
    decreases s.len(),
{
    if s.len() == 0 {
        0
    } else {
        sum_abs_diff(s.drop_last()) + abs_val(s.last())
    }
}

/// The value-and-step statistic of record `i` of `s`.
pub open spec fn stat_at(s: Seq<DiffRecord>, i: int) -> StepStat {
    StepStat { value: s[i].absolute_diff, step: step_label(s[i].step) }
}

/// The magnitude-and-step statistic of record `i` of `s`.
pub open spec fn abs_stat_at(s: Seq<DiffRecord>, i: int) -> StepStat {
    StepStat { value: abs_i64(s[i].absolute_diff), step: step_label(s[i].step) }
}

/// The all-zero summary of an empty window (distinct from the sentinel
/// case of a non-empty window with no qualifying record).
pub open spec fn zero_feature() -> Feature {
    Feature {
        max_diff: StepStat { value: 0, step: 0 },
        min_diff: StepStat { value: 0, step: 0 },
        mean_diff: Ratio { num: 0, den: 1 },
        max_abs_diff: StepStat { value: 0, step: 0 },
        min_abs_diff: StepStat { value: 0, step: 0 },
        mean_abs_diff: Ratio { num: 0, den: 1 },
        min_p_diff: GuardedStat { value: Extremum::Finite(0), step: 0 },
        max_n_diff: GuardedStat { value: Extremum::Finite(0), step: 0 },
    }
}

/// `f` is *the* summary of the window `s`: each extremal field carries
/// the earliest extremum, each mean is the exact rational sum over
/// length, the guarded fields fall back to their sentinels, and an
/// empty window yields the all-zero summary.
pub open spec fn feature_matches(f: Feature, s: Seq<DiffRecord>) -> bool {
    if s.len() == 0 {
        f == zero_feature()
    } else {
        &&& exists|i: int| #[trigger] first_max(s, i) && f.max_diff == stat_at(s, i)
        &&& exists|i: int| #[trigger] first_min(s, i) && f.min_diff == stat_at(s, i)
        &&& f.mean_diff == (Ratio {
            num: sum_diff(s) as i128,
            den: (s.len() * SCALE) as i128,
        })
        &&& exists|i: int| #[trigger] first_abs_max(s, i) && f.max_abs_diff == abs_stat_at(s, i)
        &&& exists|i: int| #[trigger] first_abs_min(s, i) && f.min_abs_diff == abs_stat_at(s, i)
        &&& f.mean_abs_diff == (Ratio {
            num: sum_abs_diff(s) as i128,
            den: (s.len() * SCALE) as i128,
        })
        &&& if exists|j: int| 0 <= j < s.len() && (#[trigger] s[j].absolute_diff) >= 0 {
            exists|i: int|
                #[trigger] first_nonneg_min(s, i) && f.min_p_diff == (GuardedStat {
                    value: Extremum::Finite(s[i].absolute_diff),
                    step: step_label(s[i].step),
                })
        } else {
            f.min_p_diff == (GuardedStat { value: Extremum::PosInf, step: 0 })
        }
        &&& if exists|j: int| 0 <= j < s.len() && (#[trigger] s[j].absolute_diff) < 0 {
            exists|i: int|
                #[trigger] first_neg_max(s, i) && f.max_n_diff == (GuardedStat {
                    value: Extremum::Finite(s[i].absolute_diff),
                    step: step_label(s[i].step),
                })
        } else {
            f.max_n_diff == (GuardedStat { value: Extremum::NegInf, step: 0 })
        }
    }
}

/// The earliest maximum of a window is a unique index.
pub proof fn lemma_first_max_unique(s: Seq<DiffRecord>, i: int, j: int)
    requires
        first_max(s, i),
        first_max(s, j),
    ensures
        i == j,
{
}

/// The earliest minimum of a window is a unique index.
pub proof fn lemma_first_min_unique(s: Seq<DiffRecord>, i: int, j: int)
    requires
        first_min(s, i),
        first_min(s, j),
    ensures
        i == j,
{
}

/// The earliest maximum magnitude of a window is a unique index.
pub proof fn lemma_first_abs_max_unique(s: Seq<DiffRecord>, i: int, j: int)
    requires
        first_abs_max(s, i),
        first_abs_max(s, j),
    ensures
        i == j,
{
    if i < j {
        assert(abs_val(s[i]) < abs_val(s[j]));
        assert(abs_val(s[j]) <= abs_val(s[i]));
    }
    if j < i {
        assert(abs_val(s[j]) < abs_val(s[i]));
        assert(abs_val(s[i]) <= abs_val(s[j]));
    }
}

/// The earliest minimum magnitude of a window is a unique index.
pub proof fn lemma_first_abs_min_unique(s: Seq<DiffRecord>, i: int, j: int)
    requires
        first_abs_min(s, i),
        first_abs_min(s, j),
    ensures
        i == j,
{
    if i < j {
        assert(abs_val(s[i]) > abs_val(s[j]));
        assert(abs_val(s[j]) >= abs_val(s[i]));
    }
    if j < i {
        assert(abs_val(s[j]) > abs_val(s[i]));
        assert(abs_val(s[i]) >= abs_val(s[j]));
    }
}

/// The earliest minimum over the non-negative differences is a unique
/// index.
pub proof fn lemma_first_nonneg_min_unique(s: Seq<DiffRecord>, i: int, j: int)
    requires
        first_nonneg_min(s, i),
        first_nonneg_min(s, j),
    ensures
        i == j,
{
}

/// The earliest maximum over the negative differences is a unique index.
pub proof fn lemma_first_neg_max_unique(s: Seq<DiffRecord>, i: int, j: int)
    requires
        first_neg_max(s, i),
        first_neg_max(s, j),
    ensures
        i == j,
{
}

/// Law: the summary of a window is unique — any two summaries matching
/// the same window are equal.  Hence re-aggregating the same window (for
/// instance after repeating a window change with identical arguments)
/// reproduces the same statistics.
pub proof fn lemma_feature_unique(s: Seq<DiffRecord>, f1: Feature, f2: Feature)
    requires
        feature_matches(f1, s),
        feature_matches(f2, s),
    ensures
        f1 == f2,
{
    if s.len() > 0 {
        let a1 = choose|i: int| #[trigger] first_max(s, i) && f1.max_diff == stat_at(s, i);
        let a2 = choose|i: int| #[trigger] first_max(s, i) && f2.max_diff == stat_at(s, i);
        lemma_first_max_unique(s, a1, a2);
        let b1 = choose|i: int| #[trigger] first_min(s, i) && f1.min_diff == stat_at(s, i);
        let b2 = choose|i: int| #[trigger] first_min(s, i) && f2.min_diff == stat_at(s, i);
        lemma_first_min_unique(s, b1, b2);
        let c1 = choose|i: int| #[trigger] first_abs_max(s, i) && f1.max_abs_diff == abs_stat_at(
            s,
            i,
        );
        let c2 = choose|i: int| #[trigger] first_abs_max(s, i) && f2.max_abs_diff == abs_stat_at(
            s,
            i,
        );
        lemma_first_abs_max_unique(s, c1, c2);
        let d1 = choose|i: int| #[trigger] first_abs_min(s, i) && f1.min_abs_diff == abs_stat_at(
            s,
            i,
        );
        let d2 = choose|i: int| #[trigger] first_abs_min(s, i) && f2.min_abs_diff == abs_stat_at(
            s,
            i,
        );
        lemma_first_abs_min_unique(s, d1, d2);
        if exists|j: int| 0 <= j < s.len() && (#[trigger] s[j].absolute_diff) >= 0 {
            let e1 = choose|i: int|
                #[trigger] first_nonneg_min(s, i) && f1.min_p_diff == (GuardedStat {
                    value: Extremum::Finite(s[i].absolute_diff),
                    step: step_label(s[i].step),
                });
            let e2 = choose|i: int|
                #[trigger] first_nonneg_min(s, i) && f2.min_p_diff == (GuardedStat {
                    value: Extremum::Finite(s[i].absolute_diff),
                    step: step_label(s[i].step),
                });
            lemma_first_nonneg_min_unique(s, e1, e2);
        }
        if exists|j: int| 0 <= j < s.len() && (#[trigger] s[j].absolute_diff) < 0 {
            let g1 = choose|i: int|
                #[trigger] first_neg_max(s, i) && f1.max_n_diff == (GuardedStat {
                    value: Extremum::Finite(s[i].absolute_diff),
                    step: step_label(s[i].step),
                });
            let g2 = choose|i: int|
                #[trigger] first_neg_max(s, i) && f2.max_n_diff == (GuardedStat {
                    value: Extremum::Finite(s[i].absolute_diff),
                    step: step_label(s[i].step),
                });
            lemma_first_neg_max_unique(s, g1, g2);
        }
    }
}

/// Law: over a non-empty window whose differences are all negative, the
/// minimum-positive-difference statistic is the +infinity sentinel
/// ("no data"), not a genuine value.
pub proof fn law_all_negative_min_positive_sentinel(s: Seq<DiffRecord>, f: Feature)
    requires
        feature_matches(f, s),
        s.len() > 0,
        forall|i: int| 0 <= i < s.len() ==> (#[trigger] s[i].absolute_diff) < 0,
    ensures
        f.min_p_diff == (GuardedStat { value: Extremum::PosInf, step: 0 }),
{
}

/// Law: over a non-empty window whose differences are all non-negative,
/// the maximum-negative-difference statistic is the -infinity sentinel.
pub proof fn law_all_nonnegative_max_negative_sentinel(s: Seq<DiffRecord>, f: Feature)
    requires
        feature_matches(f, s),
        s.len() > 0,
        forall|i: int| 0 <= i < s.len() ==> (#[trigger] s[i].absolute_diff) >= 0,
    ensures
        f.max_n_diff == (GuardedStat { value: Extremum::NegInf, step: 0 }),
{
}

impl Feature {
    /// Assembles a summary from its eight fields.
    pub fn new(
        max_diff: StepStat,
        min_diff: StepStat,
        mean_diff: Ratio,
        max_abs_diff: StepStat,
        min_abs_diff: StepStat,
        mean_abs_diff: Ratio,
        min_p_diff: GuardedStat,
        max_n_diff: GuardedStat,
    ) -> (f: Feature)
        ensures
            f == (Feature {
                max_diff,
                min_diff,
                mean_diff,
                max_abs_diff,
                min_abs_diff,
                mean_abs_diff,
                min_p_diff,
                max_n_diff,
            }),
    {
        Feature {
            max_diff,
            min_diff,
            mean_diff,
            max_abs_diff,
            min_abs_diff,
            mean_abs_diff,
            min_p_diff,
            max_n_diff,
        }
    }
}

impl Default for Feature {
    /// The all-zero summary.
    fn default() -> (f: Feature)
        ensures
            f == zero_feature(),
    {
        Feature {
            max_diff: StepStat { value: 0, step: 0 },
            min_diff: StepStat { value: 0, step: 0 },
            mean_diff: Ratio { num: 0, den: 1 },
            max_abs_diff: StepStat { value: 0, step: 0 },
            min_abs_diff: StepStat { value: 0, step: 0 },
            mean_abs_diff: Ratio { num: 0, den: 1 },
            min_p_diff: GuardedStat { value: Extremum::Finite(0), step: 0 },
            max_n_diff: GuardedStat { value: Extremum::Finite(0), step: 0 },
        }
    }
}

/// Aggregates a window of difference records in one linear pass.
///
/// Strict comparisons against the running extremum reproduce the
/// earliest-record tie-break; running `i128` sums stay exact because each
/// record's difference is bounded by `DIFF_LIMIT`.
pub fn calculate_feature(diffs: &Vec<DiffRecord>) -> (f: Feature)
    requires
        forall|i: int| 0 <= i < diffs@.len() ==> (#[trigger] diffs@[i]).valid(),
    ensures
        feature_matches(f, diffs@),
{
    let n = diffs.len();
    let mut max_d: i64 = i64::MIN;
    let mut max_d_step: usize = 0;
    let mut min_d: i64 = i64::MAX;
    let mut min_d_step: usize = 0;
    let mut sum_d: i128 = 0;
    let mut max_a: i64 = i64::MIN;
    let mut max_a_step: usize = 0;
    let mut min_a: i64 = i64::MAX;
    let mut min_a_step: usize = 0;
    let mut sum_a: i128 = 0;
    let mut min_p: i64 = i64::MAX;
    let mut min_p_step: usize = 0;
    let mut max_n: i64 = i64::MIN;
    let mut max_n_step: usize = 0;
    let ghost mut gi_max: int = 0;
    let ghost mut gi_min: int = 0;
    let ghost mut gi_amax: int = 0;
    let ghost mut gi_amin: int = 0;
    let ghost mut gi_minp: int = 0;
    let ghost mut gi_maxn: int = 0;
    let mut k: usize = 0;
    while k < n
        invariant
            n == diffs@.len(),
            k <= n,
            forall|i: int| 0 <= i < diffs@.len() ==> (#[trigger] diffs@[i]).valid(),
            k > 0 ==> first_max_upto(diffs@, k as int, gi_max) && max_d
                == diffs@[gi_max].absolute_diff && max_d_step == step_label(diffs@[gi_max].step),
            k == 0 ==> max_d == i64::MIN && max_d_step == 0,
            k > 0 ==> first_min_upto(diffs@, k as int, gi_min) && min_d
                == diffs@[gi_min].absolute_diff && min_d_step == step_label(diffs@[gi_min].step),
            k == 0 ==> min_d == i64::MAX && min_d_step == 0,
            k > 0 ==> first_abs_max_upto(diffs@, k as int, gi_amax) && max_a == abs_val(
                diffs@[gi_amax],
            ) && max_a_step == step_label(diffs@[gi_amax].step),
            k == 0 ==> max_a == i64::MIN && max_a_step == 0,
            k > 0 ==> first_abs_min_upto(diffs@, k as int, gi_amin) && min_a == abs_val(
                diffs@[gi_amin],
            ) && min_a_step == step_label(diffs@[gi_amin].step),
            k == 0 ==> min_a == i64::MAX && min_a_step == 0,
            sum_d == sum_diff(diffs@.take(k as int)),
            -(k as int) * (DIFF_LIMIT as int) <= sum_d <= (k as int) * (DIFF_LIMIT as int),
            sum_a == sum_abs_diff(diffs@.take(k as int)),
            0 <= sum_a <= (k as int) * (DIFF_LIMIT as int),
            (exists|j: int| 0 <= j < k && (#[trigger] diffs@[j].absolute_diff) >= 0)
                ==> first_nonneg_min_upto(diffs@, k as int, gi_minp) && min_p
                == diffs@[gi_minp].absolute_diff && min_p_step == step_label(diffs@[gi_minp].step),
            (forall|j: int| 0 <= j < k ==> (#[trigger] diffs@[j].absolute_diff) < 0) ==> min_p
                == i64::MAX && min_p_step == 0,
            (exists|j: int| 0 <= j < k && (#[trigger] diffs@[j].absolute_diff) < 0)
                ==> first_neg_max_upto(diffs@, k as int, gi_maxn) && max_n
                == diffs@[gi_maxn].absolute_diff && max_n_step == step_label(diffs@[gi_maxn].step),
            (forall|j: int| 0 <= j < k ==> (#[trigger] diffs@[j].absolute_diff) >= 0) ==> max_n
                == i64::MIN && max_n_step == 0,
        decreases n - k,
    {
        let d = diffs[k];
        assert(d.valid());
        let a: i64 = if d.absolute_diff < 0 {
            -d.absolute_diff
        } else {
            d.absolute_diff
        };
        if max_d < d.absolute_diff {
            max_d = d.absolute_diff;
            max_d_step = step_label_of(d.step);
            proof {
                gi_max = k as int;
            }
        }
        if min_d > d.absolute_diff {
            min_d = d.absolute_diff;
            min_d_step = step_label_of(d.step);
            proof {
                gi_min = k as int;
            }
        }
        if max_a < a {
            max_a = a;
            max_a_step = step_label_of(d.step);
            proof {
                gi_amax = k as int;
            }
        }
        if min_a > a {
            min_a = a;
            min_a_step = step_label_of(d.step);
            proof {
                gi_amin = k as int;
            }
        }
        sum_d = sum_d + d.absolute_diff as i128;
        sum_a = sum_a + a as i128;
        if d.absolute_diff >= 0 && min_p > d.absolute_diff {
            min_p = d.absolute_diff;
            min_p_step = step_label_of(d.step);
            proof {
                gi_minp = k as int;
            }
        }
        if d.absolute_diff < 0 && max_n < d.absolute_diff {
            max_n = d.absolute_diff;
            max_n_step = step_label_of(d.step);
            proof {
                gi_maxn = k as int;
            }
        }
        proof {
            assert(diffs@.take(k + 1 as int).drop_last() =~= diffs@.take(k as int));
            assert(diffs@.take(k + 1 as int).last() == diffs@[k as int]);
        }
        k = k + 1;
    }
    if n > 0 {
        assert(diffs@.take(n as int) =~= diffs@);
        let mean_den: i128 = (n as i128) * (SCALE as i128);
        let min_p_out: GuardedStat = if min_p == i64::MAX {
            assert(forall|j: int| 0 <= j < n ==> (#[trigger] diffs@[j].absolute_diff) < 0) by {
                if exists|j: int| 0 <= j < n && (#[trigger] diffs@[j].absolute_diff) >= 0 {
                    assert(diffs@[gi_minp].valid());
                }
            }
            GuardedStat { value: Extremum::PosInf, step: 0 }
        } else {
            proof {
                assert(exists|j: int| 0 <= j < n && (#[trigger] diffs@[j].absolute_diff) >= 0) by {
                    assert(!(forall|j: int|
                        0 <= j < n ==> (#[trigger] diffs@[j].absolute_diff) < 0));
                }
                assert(first_nonneg_min(diffs@, gi_minp));
            }
            GuardedStat { value: Extremum::Finite(min_p), step: min_p_step }
        };
        let max_n_out: GuardedStat = if max_n == i64::MIN {
            assert(forall|j: int| 0 <= j < n ==> (#[trigger] diffs@[j].absolute_diff) >= 0) by {
                if exists|j: int| 0 <= j < n && (#[trigger] diffs@[j].absolute_diff) < 0 {
                    assert(diffs@[gi_maxn].valid());
                }
            }
            GuardedStat { value: Extremum::NegInf, step: 0 }
        } else {
            proof {
                assert(exists|j: int| 0 <= j < n && (#[trigger] diffs@[j].absolute_diff) < 0) by {
                    assert(!(forall|j: int|
                        0 <= j < n ==> (#[trigger] diffs@[j].absolute_diff) >= 0));
                }
                assert(first_neg_max(diffs@, gi_maxn));
            }
            GuardedStat { value: Extremum::Finite(max_n), step: max_n_step }
        };
        let f = Feature::new(
            StepStat { value: max_d, step: max_d_step },
            StepStat { value: min_d, step: min_d_step },
            Ratio { num: sum_d, den: mean_den },
            StepStat { value: max_a, step: max_a_step },
            StepStat { value: min_a, step: min_a_step },
            Ratio { num: sum_a, den: mean_den },
            min_p_out,
            max_n_out,
        );
        proof {
            assert(first_max(diffs@, gi_max));
            assert(first_min(diffs@, gi_min));
            assert(first_abs_max(diffs@, gi_amax));
            assert(first_abs_min(diffs@, gi_amin));
            assert(abs_i64(diffs@[gi_amax].absolute_diff) == max_a);
            assert(abs_i64(diffs@[gi_amin].absolute_diff) == min_a);
        }
        f
    } else {
        Feature::default()
    }
}

} // verus!

