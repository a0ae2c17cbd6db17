use loss_diff::diff::{compute_diffs, compute_diffs_with_epsilon};
use loss_diff::num::{Ratio, SCALE};
use loss_diff::parser::parse;
use loss_diff::record::RelDiff;
use loss_diff::stats::{calculate_feature, Extremum, Feature, GuardedStat, StepStat};

fn diffs_of(text: &[u8]) -> Vec<loss_diff::record::DiffRecord> {
    compute_diffs(&parse(text).unwrap())
}

#[test]
fn diff_series_preserves_length_and_order() {
    let records = parse(b"1,10,8\n2,9,9\n3,5,10").unwrap();
    let diffs = compute_diffs(&records);
    assert_eq!(diffs.len(), records.len());
    for (r, d) in records.iter().zip(diffs.iter()) {
        assert_eq!(r.step, d.step);
    }
}

#[test]
fn absolute_diff_is_exactly_value_a_minus_value_b() {
    let records = parse(b"1,10,8\n2,9,9\n3,5,10\n4,0.00000003,0.00000001").unwrap();
    let diffs = compute_diffs(&records);
    for (r, d) in records.iter().zip(diffs.iter()) {
        assert_eq!(d.absolute_diff, r.value_a - r.value_b);
    }
    assert_eq!(diffs[0].absolute_diff, 2 * SCALE);
    assert_eq!(diffs[2].absolute_diff, -5 * SCALE);
    assert_eq!(diffs[3].absolute_diff, 2);
}

#[test]
fn relative_diff_is_the_exact_quotient() {
    let diffs = diffs_of(b"1,10,8\n2,9,9\n3,5,10");
    assert_eq!(
        diffs[0].relative_diff,
        RelDiff::Finite(Ratio { num: (2 * SCALE) as i128, den: (8 * SCALE) as i128 })
    );
    assert_eq!(
        diffs[1].relative_diff,
        RelDiff::Finite(Ratio { num: 0, den: (9 * SCALE) as i128 })
    );
    assert_eq!(
        diffs[2].relative_diff,
        RelDiff::Finite(Ratio { num: (-5 * SCALE) as i128, den: (10 * SCALE) as i128 })
    );
}

#[test]
fn relative_diff_negative_divisor_normalizes_sign() {
    let diffs = diffs_of(b"1,1,-2");
    assert_eq!(
        diffs[0].relative_diff,
        RelDiff::Finite(Ratio { num: (-3 * SCALE) as i128, den: (2 * SCALE) as i128 })
    );
}

#[test]
fn zero_over_zero_is_guarded_by_epsilon() {
    let diffs = diffs_of(b"1,0,0\n2,7,7");
    // 0 / (0 + 1e-8) is exactly zero.
    assert_eq!(diffs[0].relative_diff, RelDiff::Finite(Ratio { num: 0, den: 1 }));
    // A non-zero divisor is never substituted.
    assert_eq!(
        diffs[1].relative_diff,
        RelDiff::Finite(Ratio { num: 0, den: (7 * SCALE) as i128 })
    );
    let records = parse(b"1,0,0").unwrap();
    let wide = compute_diffs_with_epsilon(&records, 50);
    assert_eq!(wide[0].relative_diff, RelDiff::Finite(Ratio { num: 0, den: 50 }));
}

#[test]
fn nonzero_over_zero_propagates_as_signed_infinity() {
    let diffs = diffs_of(b"1,5,0\n2,-5,0");
    assert_eq!(diffs[0].relative_diff, RelDiff::PosInf);
    assert_eq!(diffs[1].relative_diff, RelDiff::NegInf);
}

#[test]
fn three_records_full_statistics() {
    // The worked example: rows (1,10,8), (2,9,9), (3,5,10) give
    // differences 2, 0, -5 at steps 1, 2, 3.
    let f = calculate_feature(&diffs_of(b"1,10,8\n2,9,9\n3,5,10"));
    assert_eq!(f.max_diff, StepStat { value: 2 * SCALE, step: 1 });
    assert_eq!(f.min_diff, StepStat { value: -5 * SCALE, step: 3 });
    // meanDiff == -1.0 exactly: (2 + 0 - 5) / 3.
    assert_eq!(f.mean_diff, Ratio { num: (-3 * SCALE) as i128, den: (3 * SCALE) as i128 });
    assert_eq!(f.max_abs_diff, StepStat { value: 5 * SCALE, step: 3 });
    assert_eq!(f.min_abs_diff, StepStat { value: 0, step: 2 });
    // meanAbsDiff == 7/3 (about 2.333).
    assert_eq!(f.mean_abs_diff, Ratio { num: (7 * SCALE) as i128, den: (3 * SCALE) as i128 });
    assert_eq!(f.min_p_diff, GuardedStat { value: Extremum::Finite(0), step: 2 });
    assert_eq!(f.max_n_diff, GuardedStat { value: Extremum::Finite(-5 * SCALE), step: 3 });
}

#[test]
fn empty_slice_yields_all_zero_statistics() {
    let f = calculate_feature(&Vec::new());
    assert_eq!(f, Feature::default());
    assert_eq!(f.max_diff, StepStat { value: 0, step: 0 });
    assert_eq!(f.mean_diff, Ratio { num: 0, den: 1 });
    assert_eq!(f.min_p_diff, GuardedStat { value: Extremum::Finite(0), step: 0 });
    assert_eq!(f.max_n_diff, GuardedStat { value: Extremum::Finite(0), step: 0 });
}

#[test]
fn all_negative_window_gives_positive_sentinel() {
    let f = calculate_feature(&diffs_of(b"1,1,2\n2,0,3"));
    assert_eq!(f.min_p_diff, GuardedStat { value: Extremum::PosInf, step: 0 });
    assert_eq!(f.max_n_diff, GuardedStat { value: Extremum::Finite(-SCALE), step: 1 });
}

#[test]
fn all_nonnegative_window_gives_negative_sentinel() {
    let f = calculate_feature(&diffs_of(b"1,2,1\n2,3,3"));
    assert_eq!(f.max_n_diff, GuardedStat { value: Extremum::NegInf, step: 0 });
    assert_eq!(f.min_p_diff, GuardedStat { value: Extremum::Finite(0), step: 2 });
}

#[test]
fn ties_report_the_earliest_step() {
    // All three rows have the same difference, so every extremal field
    // keeps the first record's step.
    let f = calculate_feature(&diffs_of(b"1,3,1\n2,4,2\n3,5,3"));
    assert_eq!(f.max_diff, StepStat { value: 2 * SCALE, step: 1 });
    assert_eq!(f.min_diff, StepStat { value: 2 * SCALE, step: 1 });
    assert_eq!(f.max_abs_diff, StepStat { value: 2 * SCALE, step: 1 });
    assert_eq!(f.min_abs_diff, StepStat { value: 2 * SCALE, step: 1 });
    assert_eq!(f.min_p_diff, GuardedStat { value: Extremum::Finite(2 * SCALE), step: 1 });
}

#[test]
fn step_labels_truncate_and_saturate() {
    // A fractional step is truncated; a negative one saturates to zero.
    let f = calculate_feature(&diffs_of(b"2.7,9,1\n-3,1,1"));
    assert_eq!(f.max_diff, StepStat { value: 8 * SCALE, step: 2 });
    assert_eq!(f.min_diff, StepStat { value: 0, step: 0 });
}

#[test]
fn feature_new_assembles_the_fields() {
    let f = Feature::new(
        StepStat { value: 1, step: 2 },
        StepStat { value: 3, step: 4 },
        Ratio { num: 5, den: 6 },
        StepStat { value: 7, step: 8 },
        StepStat { value: 9, step: 10 },
        Ratio { num: 11, den: 12 },
        GuardedStat { value: Extremum::PosInf, step: 0 },
        GuardedStat { value: Extremum::NegInf, step: 0 },
    );
    assert_eq!(f.max_diff, StepStat { value: 1, step: 2 });
    assert_eq!(f.min_diff, StepStat { value: 3, step: 4 });
    assert_eq!(f.mean_diff, Ratio { num: 5, den: 6 });
    assert_eq!(f.max_abs_diff, StepStat { value: 7, step: 8 });
    assert_eq!(f.min_abs_diff, StepStat { value: 9, step: 10 });
    assert_eq!(f.mean_abs_diff, Ratio { num: 11, den: 12 });
    assert_eq!(f.min_p_diff, GuardedStat { value: Extremum::PosInf, step: 0 });
    assert_eq!(f.max_n_diff, GuardedStat { value: Extremum::NegInf, step: 0 });
}
