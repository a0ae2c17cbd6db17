//! The window manager: the one stateful component.  It owns the full
//! dataset (loss records and their difference series), the active
//! half-open window into it, the staged window bounds, and the most
//! recently derived visible slices and statistics.
//!
//! A new dataset replaces the old one atomically on a successful parse
//! and resets the window to the full range; a failed parse leaves
//! dataset and window untouched.  Window changes clamp the requested
//! bounds and never mutate the dataset.  Loads carry a monotonically
//! increasing generation, and a completion is applied only when its
//! generation is the latest issued, so a slow stale load can never
//! overwrite a newer one.

use crate::diff::{compute_diffs, spec_diffs, DEFAULT_EPSILON};
use crate::parser::{parse, spec_parse, ParseError, ParseErrorKind};
use crate::record::{DiffRecord, LossRecord};
use crate::stats::{calculate_feature, feature_matches, lemma_feature_unique, zero_feature, Feature};
use vstd::prelude::*;

verus! {

/// How a load completion was applied: the dataset was replaced, the
/// completion was stale and discarded, or the text was rejected.
#[derive(Clone, Copy, Debug, PartialEq, Eq, Structural)]
pub enum LoadOutcome {
    Loaded,
    Stale,
    Rejected(ParseError),
}

/// The engine.  `records` and `diffs` are the full dataset,
/// `[window_start, window_end)` the active window, `staged_start` /
/// `staged_end` the bounds staged for the next replot, the `visible_*`
/// fields and `feature` the published outputs, and `generation` the
/// latest issued load generation.
pub struct Engine {
    pub records: Vec<LossRecord>,
    pub diffs: Vec<DiffRecord>,
    pub window_start: usize,
    pub window_end: usize,
    pub staged_start: i128,
    pub staged_end: i128,
    pub visible_records: Vec<LossRecord>,
    pub visible_diffs: Vec<DiffRecord>,
    pub feature: Feature,
    pub generation: u64,
}

/// A requested bound clamped into `[0, len]`.
pub open spec fn clamp_index(v: int, len: int) -> int {
    if v < 0 {
        0
    } else if v > len {
        len
    } else {
        v
    }
}

impl Engine {
    /// The engine's invariant: the difference series mirrors the
    /// records, the window is a well-formed range into them, and the
    /// published slices and statistics are derived from the window.
    pub open spec fn wf(self) -> bool {
        &&& forall|i: int| 0 <= i < self.records@.len() ==> (#[trigger] self.records@[i]).valid()
        &&& self.diffs@ == spec_diffs(self.records@, DEFAULT_EPSILON as int)
        &&& forall|i: int| 0 <= i < self.diffs@.len() ==> (#[trigger] self.diffs@[i]).valid()
        &&& self.window_start <= self.window_end <= self.records@.len()
        &&& self.visible_records@ == self.records@.subrange(
            self.window_start as int,
            self.window_end as int,
        )
        &&& self.visible_diffs@ == self.diffs@.subrange(
            self.window_start as int,
            self.window_end as int,
        )
        &&& feature_matches(self.feature, self.visible_diffs@)
    }
}

/// What `set_window(start, end)` does: both bounds are clamped into
/// `[0, len]` independently; an inverted `end` is then raised up to
/// `start` (a floor-up to an empty window, not a swap); the visible
/// slices and statistics are recomputed over the new window; dataset,
/// staged bounds and generation are untouched.
pub open spec fn set_window_rel(pre: Engine, post: Engine, start: i128, end: i128) -> bool {
    let s = clamp_index(start as int, pre.records@.len() as int);
    let e0 = clamp_index(end as int, pre.records@.len() as int);
    let e = if e0 < s {
        s
    } else {
        e0
    };
    &&& post.records@ == pre.records@
    &&& post.diffs@ == pre.diffs@
    &&& post.staged_start == pre.staged_start
    &&& post.staged_end == pre.staged_end
    &&& post.generation == pre.generation
    &&& post.window_start == s
    &&& post.window_end == e
    &&& post.visible_records@ == pre.records@.subrange(s, e)
    &&& post.visible_diffs@ == pre.diffs@.subrange(s, e)
    &&& feature_matches(post.feature, post.visible_diffs@)
}

/// What a successful load does: the parsed records replace the dataset
/// atomically, the window (active and staged) resets to the full range,
/// and the outputs are recomputed over it.
pub open spec fn load_success_rel(pre: Engine, post: Engine, records: Seq<LossRecord>) -> bool {
    &&& post.records@ == records
    &&& post.diffs@ == spec_diffs(records, DEFAULT_EPSILON as int)
    &&& post.window_start == 0
    &&& post.window_end == records.len()
    &&& post.staged_start == 0
    &&& post.staged_end == records.len()
    &&& post.visible_records@ == records
    &&& post.visible_diffs@ == post.diffs@
    &&& feature_matches(post.feature, post.visible_diffs@)
}

/// Everything but the generation counter is as it was.
pub open spec fn state_unchanged(pre: Engine, post: Engine) -> bool {
    &&& post.records@ == pre.records@
    &&& post.diffs@ == pre.diffs@
    &&& post.window_start == pre.window_start
    &&& post.window_end == pre.window_end
    &&& post.staged_start == pre.staged_start
    &&& post.staged_end == pre.staged_end
    &&& post.visible_records@ == pre.visible_records@
    &&& post.visible_diffs@ == pre.visible_diffs@
    &&& post.feature == pre.feature
}

/// Copies `v[lo..hi]` into a fresh vector.
fn copy_range<T: Copy>(v: &Vec<T>, lo: usize, hi: usize) -> (out: Vec<T>)
    requires
        lo <= hi <= v@.len(),
    ensures
        out@ == v@.subrange(lo as int, hi as int),
{
    let mut out: Vec<T> = Vec::new();
    let mut k = lo;
    while k < hi
        invariant
            lo <= k <= hi <= v@.len(),
            out@ =~= v@.subrange(lo as int, k as int),
        decreases hi - k,
    {
        out.push(v[k]);
        proof {
            assert(out@ =~= v@.subrange(lo as int, k + 1 as int));
        }
        k = k + 1;
    }
    proof {
        assert(out@ =~= v@.subrange(lo as int, hi as int));
    }
    out
}

/// Clamps a requested bound into `[0, len]`.
fn clamp_to_len(v: i128, len: usize) -> (r: usize)
    ensures
        r == clamp_index(v as int, len as int),
{
    if v <= 0 {
        0
    } else if v >= len as i128 {
        len
    } else {
        v as usize
    }
}

impl Engine {
    /// A fresh engine with no dataset: the window is `[0, 0)` and the
    /// statistics are the all-zero summary.
    pub fn new() -> (e: Engine)
        ensures
            e.wf(),
            e.records@.len() == 0,
            e.window_start == 0,
            e.window_end == 0,
            e.staged_start == 0,
            e.staged_end == 0,
            e.generation == 0,
            e.feature == zero_feature(),
    {
        let e = Engine {
            records: Vec::new(),
            diffs: Vec::new(),
            window_start: 0,
            window_end: 0,
            staged_start: 0,
            staged_end: 0,
            visible_records: Vec::new(),
            visible_diffs: Vec::new(),
            feature: Feature::default(),
            generation: 0,
        };
        proof {
            assert(e.diffs@ =~= spec_diffs(e.records@, DEFAULT_EPSILON as int));
            assert(e.visible_records@ =~= e.records@.subrange(0, 0));
            assert(e.visible_diffs@ =~= e.diffs@.subrange(0, 0));
        }
        e
    }

    /// Issues a new load generation.  A completion handed back with an
    /// older generation will be discarded by `finish_load`.
    pub fn begin_load(&mut self) -> (g: u64)
        requires
            old(self).generation < u64::MAX,
        ensures
            g == old(self).generation + 1,
            final(self).generation == g,
            state_unchanged(*old(self), *final(self)),
            old(self).wf() ==> final(self).wf(),
    {
        self.generation = self.generation + 1;
        self.generation
    }

    /// Completes a load issued as `generation`.  A stale completion
    /// (a newer generation has been issued since) is discarded; the
    /// latest completion replaces the dataset on a successful parse and
    /// leaves the engine untouched on a rejected one.
    pub fn finish_load(&mut self, generation: u64, text: &[u8]) -> (r: LoadOutcome)
        requires
            old(self).wf(),
        ensures
            final(self).wf(),
            final(self).generation == old(self).generation,
            generation != old(self).generation ==> r == LoadOutcome::Stale && state_unchanged(
                *old(self),
                *final(self),
            ),
            generation == old(self).generation ==> match r {
                LoadOutcome::Loaded => spec_parse(text@) matches Ok(records)
                    && load_success_rel(*old(self), *final(self), records),
                LoadOutcome::Rejected(e) => spec_parse(text@) == Err::<
                    Seq<LossRecord>,
                    (int, ParseErrorKind),
                >((e.row as int, e.kind)) && state_unchanged(*old(self), *final(self)),
                LoadOutcome::Stale => false,
            },
    {
        if generation != self.generation {
            return LoadOutcome::Stale;
        }
        match parse(text) {
            Err(e) => LoadOutcome::Rejected(e),
            Ok(records) => {
                let diffs = compute_diffs(&records);
                let len = records.len();
                let visible_records = copy_range(&records, 0, len);
                let visible_diffs = copy_range(&diffs, 0, len);
                let feature = calculate_feature(&visible_diffs);
                proof {
                    assert(visible_records@ =~= records@);
                    assert(visible_diffs@ =~= diffs@);
                }
                self.records = records;
                self.diffs = diffs;
                self.window_start = 0;
                self.window_end = len;
                self.staged_start = 0;
                self.staged_end = len as i128;
                self.visible_records = visible_records;
                self.visible_diffs = visible_diffs;
                self.feature = feature;
                LoadOutcome::Loaded
            },
        }
    }

    /// Parses `text` and, on success, atomically replaces the dataset,
    /// resets the window to the full range and republishes the outputs.
    /// On failure the previously loaded dataset, if any, stays active.
    pub fn load_dataset(&mut self, text: &[u8]) -> (r: Result<(), ParseError>)
        requires
            old(self).wf(),
            old(self).generation < u64::MAX,
        ensures
            final(self).wf(),
            final(self).generation == old(self).generation + 1,
            match r {
                Ok(_) => spec_parse(text@) matches Ok(records) && load_success_rel(
                    *old(self),
                    *final(self),
                    records,
                ),
                Err(e) => spec_parse(text@) == Err::<Seq<LossRecord>, (int, ParseErrorKind)>(
                    (e.row as int, e.kind),
                ) && state_unchanged(*old(self), *final(self)),
            },
    {
        let g = self.begin_load();
        match self.finish_load(g, text) {
            LoadOutcome::Loaded => Ok(()),
            LoadOutcome::Rejected(e) => Err(e),
            LoadOutcome::Stale => {
                proof {
                    assert(false);
                }
                Err(ParseError { row: 0, kind: ParseErrorKind::InvalidNumber })
            },
        }
    }

    /// Clamps the requested bounds, stores them as the active window,
    /// and recomputes the visible slices and statistics over it.  The
    /// dataset itself is never mutated.
    pub fn set_window(&mut self, start: i128, end: i128)
        requires
            old(self).wf(),
        ensures
            final(self).wf(),
            set_window_rel(*old(self), *final(self), start, end),
    {
        let len = self.records.len();
        let s = clamp_to_len(start, len);
        let mut e = clamp_to_len(end, len);
        if e < s {
            e = s;
        }
        let visible_records = copy_range(&self.records, s, e);
        let visible_diffs = copy_range(&self.diffs, s, e);
        let feature = calculate_feature(&visible_diffs);
        self.window_start = s;
        self.window_end = e;
        self.visible_records = visible_records;
        self.visible_diffs = visible_diffs;
        self.feature = feature;
    }

    /// Stages a new window start; nothing is recomputed until the next
    /// `trigger_replot`.
    pub fn set_window_start(&mut self, value: i128)
        ensures
            final(self).staged_start == value,
            final(self).staged_end == old(self).staged_end,
            final(self).records@ == old(self).records@,
            final(self).diffs@ == old(self).diffs@,
            final(self).window_start == old(self).window_start,
            final(self).window_end == old(self).window_end,
            final(self).visible_records@ == old(self).visible_records@,
            final(self).visible_diffs@ == old(self).visible_diffs@,
            final(self).feature == old(self).feature,
            final(self).generation == old(self).generation,
            old(self).wf() ==> final(self).wf(),
    {
        self.staged_start = value;
    }

    /// Stages a new window end; nothing is recomputed until the next
    /// `trigger_replot`.
    pub fn set_window_end(&mut self, value: i128)
        ensures
            final(self).staged_end == value,
            final(self).staged_start == old(self).staged_start,
            final(self).records@ == old(self).records@,
            final(self).diffs@ == old(self).diffs@,
            final(self).window_start == old(self).window_start,
            final(self).window_end == old(self).window_end,
            final(self).visible_records@ == old(self).visible_records@,
            final(self).visible_diffs@ == old(self).visible_diffs@,
            final(self).feature == old(self).feature,
            final(self).generation == old(self).generation,
            old(self).wf() ==> final(self).wf(),
    {
        self.staged_end = value;
    }

    /// Applies the currently staged bounds through `set_window`.
    pub fn trigger_replot(&mut self)
        requires
            old(self).wf(),
        ensures
            final(self).wf(),
            set_window_rel(*old(self), *final(self), old(self).staged_start, old(self).staged_end),
    {
        let s = self.staged_start;
        let e = self.staged_end;
        self.set_window(s, e);
    }

    /// The statistics over the active window.
    pub fn statistics(&self) -> (f: Feature)
        ensures
            f == self.feature,
    {
        self.feature
    }

    /// The active window bounds.
    pub fn window_bounds(&self) -> (b: (usize, usize))
        ensures
            b.0 == self.window_start,
            b.1 == self.window_end,
    {
        (self.window_start, self.window_end)
    }

    /// How many records the full dataset holds.
    pub fn dataset_len(&self) -> (n: usize)
        ensures
            n == self.records@.len(),
    {
        self.records.len()
    }

    /// The loss records visible in the active window, for charting.
    pub fn visible_loss(&self) -> (v: &Vec<LossRecord>)
        ensures
            v@ == self.visible_records@,
    {
        &self.visible_records
    }

    /// The difference records visible in the active window, for charting.
    pub fn visible_diff_series(&self) -> (v: &Vec<DiffRecord>)
        ensures
            v@ == self.visible_diffs@,
    {
        &self.visible_diffs
    }
}

/// Law: loading a dataset and immediately reading the statistics gives
/// the aggregation of the full difference series — after a load the
/// window is the whole dataset, so the stored summary equals any
/// summary matching `diffs[0..len]`.
pub proof fn law_statistics_after_load(e: Engine, f: Feature)
    requires
        e.wf(),
        e.window_start == 0,
        e.window_end == e.records@.len(),
        feature_matches(f, e.diffs@),
    ensures
        e.feature == f,
{
    assert(e.diffs@.subrange(0, e.diffs@.len() as int) =~= e.diffs@);
    lemma_feature_unique(e.visible_diffs@, e.feature, f);
}

/// Law: `set_window` is idempotent — repeating it with identical
/// arguments yields identical statistics (and identical bounds and
/// visible slices).
pub proof fn law_set_window_idempotent(e0: Engine, e1: Engine, e2: Engine, start: i128, end: i128)
    requires
        e0.wf(),
        set_window_rel(e0, e1, start, end),
        set_window_rel(e1, e2, start, end),
    ensures
        e2.feature == e1.feature,
        e2.window_start == e1.window_start,
        e2.window_end == e1.window_end,
        e2.visible_records@ == e1.visible_records@,
        e2.visible_diffs@ == e1.visible_diffs@,
{
    lemma_feature_unique(e1.visible_diffs@, e1.feature, e2.feature);
}

/// Law: an empty dataset leaves the window at `[0, 0]` and the
/// statistics all-zero — distinct from the sentinel case of a non-empty
/// window with no qualifying record.
pub proof fn law_empty_dataset_zero_statistics(e: Engine)
    requires
        e.wf(),
        e.records@.len() == 0,
    ensures
        e.window_start == 0,
        e.window_end == 0,
        e.feature == zero_feature(),
{
    assert(e.visible_diffs@ =~= Seq::<DiffRecord>::empty());
}

} // verus!
