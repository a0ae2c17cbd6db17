use loss_diff::engine::{Engine, LoadOutcome};
use loss_diff::num::{Ratio, SCALE};
use loss_diff::parser::{ParseError, ParseErrorKind};
use loss_diff::stats::{calculate_feature, Extremum, GuardedStat, StepStat};

const SAMPLE: &[u8] = b"1,10,8\n2,9,9\n3,5,10";

#[test]
fn fresh_engine_is_empty_with_zero_statistics() {
    let e = Engine::new();
    assert_eq!(e.dataset_len(), 0);
    assert_eq!(e.window_bounds(), (0, 0));
    assert_eq!(e.statistics().mean_diff, Ratio { num: 0, den: 1 });
    assert_eq!(e.statistics().max_diff, StepStat { value: 0, step: 0 });
}

#[test]
fn load_resets_window_to_full_range() {
    let mut e = Engine::new();
    e.load_dataset(SAMPLE).unwrap();
    assert_eq!(e.dataset_len(), 3);
    assert_eq!(e.window_bounds(), (0, 3));
    assert_eq!(e.visible_records.len(), 3);
    assert_eq!(e.visible_diffs.len(), 3);
}

#[test]
fn statistics_after_load_cover_the_full_dataset() {
    let mut e = Engine::new();
    e.load_dataset(SAMPLE).unwrap();
    let expected = calculate_feature(&e.diffs);
    assert_eq!(e.statistics(), expected);
    assert_eq!(e.statistics().max_diff, StepStat { value: 2 * SCALE, step: 1 });
    assert_eq!(e.statistics().min_diff, StepStat { value: -5 * SCALE, step: 3 });
}

#[test]
fn failed_load_keeps_previous_dataset_and_window() {
    let mut e = Engine::new();
    e.load_dataset(SAMPLE).unwrap();
    e.set_window(1, 3);
    let before = e.statistics();
    let err = e.load_dataset(b"1,2,3\nbad,1,2").unwrap_err();
    assert_eq!(err, ParseError { row: 1, kind: ParseErrorKind::InvalidNumber });
    assert_eq!(e.dataset_len(), 3);
    assert_eq!(e.window_bounds(), (1, 3));
    assert_eq!(e.statistics(), before);
}

#[test]
fn narrowed_window_statistics() {
    // Over the first two records only: differences 2 and 0.
    let mut e = Engine::new();
    e.load_dataset(SAMPLE).unwrap();
    e.set_window(0, 2);
    let f = e.statistics();
    assert_eq!(e.window_bounds(), (0, 2));
    assert_eq!(f.max_diff, StepStat { value: 2 * SCALE, step: 1 });
    assert_eq!(f.min_diff, StepStat { value: 0, step: 2 });
    assert_eq!(f.min_p_diff, GuardedStat { value: Extremum::Finite(0), step: 2 });
    assert_eq!(f.max_n_diff, GuardedStat { value: Extremum::NegInf, step: 0 });
}

#[test]
fn window_bounds_are_clamped_independently() {
    let mut e = Engine::new();
    e.load_dataset(SAMPLE).unwrap();
    e.set_window(-7, 99);
    assert_eq!(e.window_bounds(), (0, 3));
}

#[test]
fn inverted_window_floors_end_up_to_start() {
    let mut e = Engine::new();
    e.load_dataset(SAMPLE).unwrap();
    e.set_window(2, 1);
    assert_eq!(e.window_bounds(), (2, 2));
    assert_eq!(e.visible_diffs.len(), 0);
    assert_eq!(e.statistics().mean_diff, Ratio { num: 0, den: 1 });
}

#[test]
fn set_window_is_idempotent() {
    let mut e = Engine::new();
    e.load_dataset(SAMPLE).unwrap();
    e.set_window(1, 3);
    let first = e.statistics();
    let bounds = e.window_bounds();
    e.set_window(1, 3);
    assert_eq!(e.statistics(), first);
    assert_eq!(e.window_bounds(), bounds);
}

#[test]
fn window_changes_never_mutate_the_dataset() {
    let mut e = Engine::new();
    e.load_dataset(SAMPLE).unwrap();
    let records = e.records.clone();
    e.set_window(1, 2);
    e.set_window(0, 0);
    e.set_window(-5, 50);
    assert_eq!(e.records, records);
    assert_eq!(e.dataset_len(), 3);
}

#[test]
fn staged_bounds_apply_on_replot_only() {
    let mut e = Engine::new();
    e.load_dataset(SAMPLE).unwrap();
    e.set_window_start(1);
    e.set_window_end(2);
    // Staging alone recomputes nothing.
    assert_eq!(e.window_bounds(), (0, 3));
    e.trigger_replot();
    assert_eq!(e.window_bounds(), (1, 2));
    assert_eq!(e.statistics().max_diff, StepStat { value: 0, step: 2 });
}

#[test]
fn empty_dataset_gives_zero_statistics_and_empty_window() {
    let mut e = Engine::new();
    e.load_dataset(b"").unwrap();
    assert_eq!(e.dataset_len(), 0);
    assert_eq!(e.window_bounds(), (0, 0));
    let f = e.statistics();
    assert_eq!(f.max_diff, StepStat { value: 0, step: 0 });
    assert_eq!(f.mean_diff, Ratio { num: 0, den: 1 });
    assert_eq!(f.min_p_diff, GuardedStat { value: Extremum::Finite(0), step: 0 });
}

#[test]
fn visible_slices_follow_the_window() {
    let mut e = Engine::new();
    e.load_dataset(SAMPLE).unwrap();
    e.set_window(1, 3);
    let loss = e.visible_loss();
    assert_eq!(loss.len(), 2);
    assert_eq!(loss[0].step, 2 * SCALE);
    assert_eq!(loss[1].value_b, 10 * SCALE);
    let diffs = e.visible_diff_series();
    assert_eq!(diffs.len(), 2);
    assert_eq!(diffs[1].absolute_diff, -5 * SCALE);
}

#[test]
fn extreme_requested_bounds_are_clamped() {
    let mut e = Engine::new();
    e.load_dataset(SAMPLE).unwrap();
    e.set_window(i128::MIN, i128::MAX);
    assert_eq!(e.window_bounds(), (0, 3));
}

#[test]
fn stale_load_completion_is_discarded() {
    let mut e = Engine::new();
    e.load_dataset(SAMPLE).unwrap();
    let before = e.statistics();
    let g_old = e.begin_load();
    let g_new = e.begin_load();
    assert!(g_new > g_old);
    // The slower, older load completes after the newer one was issued.
    let outcome = e.finish_load(g_old, b"9,9,9");
    assert_eq!(outcome, LoadOutcome::Stale);
    assert_eq!(e.dataset_len(), 3);
    assert_eq!(e.statistics(), before);
    // The latest issued load is applied.
    let outcome = e.finish_load(g_new, b"9,9,9");
    assert_eq!(outcome, LoadOutcome::Loaded);
    assert_eq!(e.dataset_len(), 1);
}

#[test]
fn rejected_load_completion_reports_the_error() {
    let mut e = Engine::new();
    let g = e.begin_load();
    let outcome = e.finish_load(g, b"only,two");
    assert_eq!(
        outcome,
        LoadOutcome::Rejected(ParseError { row: 0, kind: ParseErrorKind::WrongColumnCount })
    );
    assert_eq!(e.dataset_len(), 0);
}
