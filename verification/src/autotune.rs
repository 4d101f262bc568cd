//! Run-time tuning of the choice between one worker and many.
//!
//! A tuner sends a piece of work to many workers once it is large enough, and learns
//! from timed calls where that limit lies. While one side has too few timings to
//! compare, it now and then sends a small piece of work that way.
//!
//! Reading the clock and averaging the timings is left to the caller, who says which
//! side the averages favour.

use vstd::prelude::*;

use crate::arith::{
    ceil_div, clamp_usize, clamped, div_ceil_usize, max_of, max_usize, min_of, min_usize,
    saturating_product, saturating_product_u128,
};
use crate::text::{bool_of, setting_bool, setting_usize, trimmed, usize_of};

verus! {

/// How many timings each side needs before exploration stops.
pub const EXPLORE_MIN_SAMPLES: u64 = 4;

/// Limits and starting points of a tuner.
#[derive(Clone, Copy, Debug)]
pub struct RuntimeAutoTuneDefaults {
    pub threshold_units: usize,
    pub threshold_min: usize,
    pub threshold_max: usize,
    pub target_units_per_worker: usize,
    pub target_min: usize,
    pub target_max: usize,
}

/// From how many rows on a batch is divided, until timings say otherwise.
pub const BATCH_PAR_THRESHOLD: usize = 8;

/// How many rows of a batch each worker is to have, until timings say otherwise.
pub const BATCH_TARGET_WORK_PER_WORKER: usize = 4;

/// The greatest number of units that a tuner may settle on.
pub const AUTOTUNE_MAX_UNITS: usize = usize::MAX / 4;

/// Limits and starting points of the tuners for batches of rows.
pub fn batch_defaults() -> (defaults: RuntimeAutoTuneDefaults)
    ensures
        defaults.threshold_units == BATCH_PAR_THRESHOLD,
        defaults.target_units_per_worker == BATCH_TARGET_WORK_PER_WORKER,
        defaults.threshold_min == 1 && defaults.target_min == 1,
        defaults.threshold_max == AUTOTUNE_MAX_UNITS,
        defaults.target_max == AUTOTUNE_MAX_UNITS,
        defaults.threshold_units == 8,
        defaults.target_units_per_worker == 4,
        defaults.threshold_max == usize::MAX / 4,
        defaults.target_max == usize::MAX / 4,
{
    RuntimeAutoTuneDefaults {
        threshold_units: BATCH_PAR_THRESHOLD,
        threshold_min: 1,
        threshold_max: AUTOTUNE_MAX_UNITS,
        target_units_per_worker: BATCH_TARGET_WORK_PER_WORKER,
        target_min: 1,
        target_max: AUTOTUNE_MAX_UNITS,
    }
}

/// How a piece of work is to be run.
#[derive(Clone, Copy, Debug, PartialEq, Eq, Structural)]
pub struct ParallelDecision {
    pub parallel: bool,
    pub max_workers: usize,
    pub active_workers: usize,
    pub threshold_units: usize,
    /// Whether the work was sent the other way to get a timing.
    pub exploring: bool,
}

/// What the averaged timings of the two sides say.
#[derive(Clone, Copy, Debug, PartialEq, Eq, Structural)]
pub enum SpeedVerdict {
    /// Many workers take longer: the speedup is below 0.95.
    ParallelSlower,
    /// Neither side is clearly better.
    Even,
    /// One worker takes longer: the speedup is above 1.05.
    SequentialSlower,
}

/// How many calls were timed, in all and on each side.
#[derive(Clone, Copy, Debug, PartialEq, Eq, Structural)]
pub struct SampleCounts {
    pub sampled_calls: u64,
    pub seq_samples: u64,
    pub par_samples: u64,
}

/// The raw values of one setting: under the kernel's own key, and under the key that
/// all kernels share.
#[derive(Clone, Copy)]
pub struct EnvPair<'a> {
    pub own: Option<&'a str>,
    pub shared: Option<&'a str>,
}

/// The raw values of all settings of a tuner.
#[derive(Clone, Copy)]
pub struct AutoTuneEnv<'a> {
    pub par_threshold: EnvPair<'a>,
    pub target_work_per_worker: EnvPair<'a>,
    pub autotune: EnvPair<'a>,
    pub sample_rate: EnvPair<'a>,
    pub log: EnvPair<'a>,
    pub log_every: EnvPair<'a>,
    pub explore: EnvPair<'a>,
}

/// The number under a raw value, if it holds one.
pub open spec fn raw_usize(raw: Option<&str>) -> Option<usize> {
    match raw {
        Some(text) => usize_of(trimmed(text@)),
        None => None,
    }
}

/// The answer under a raw value, if it holds one.
pub open spec fn raw_bool(raw: Option<&str>) -> Option<bool> {
    match raw {
        Some(text) => bool_of(trimmed(text@)),
        None => None,
    }
}

/// The first of the two values, else the second, else the default.
pub open spec fn first_of<T>(own: Option<T>, shared: Option<T>, default: T) -> T {
    match own {
        Some(x) => x,
        None => match shared {
            Some(x) => x,
            None => default,
        },
    }
}

/// The number of a setting: the kernel's own where it holds one, else the shared one,
/// else `default`.
pub fn env_usize_prefixed<'a>(pair: EnvPair<'a>, default: usize) -> (value: usize)
    ensures
        value == first_of(raw_usize(pair.own), raw_usize(pair.shared), default),
{
    match setting_usize(pair.own) {
        Some(x) => x,
        None => match setting_usize(pair.shared) {
            Some(x) => x,
            None => default,
        },
    }
}

/// The answer of a setting: the kernel's own where it holds one, else the shared one,
/// else `default`.
pub fn env_bool_prefixed<'a>(pair: EnvPair<'a>, default: bool) -> (value: bool)
    ensures
        value == first_of(raw_bool(pair.own), raw_bool(pair.shared), default),
{
    match setting_bool(pair.own) {
        Some(x) => x,
        None => match setting_bool(pair.shared) {
            Some(x) => x,
            None => default,
        },
    }
}

/// The name of a kernel's own setting: its prefix, an underscore and the setting.
pub fn env_key(prefix: &str, suffix: &str) -> (key: String)
    ensures
        key@ == prefix@ + "_"@ + suffix@,
{
    let mut key = prefix.to_owned();
    key.append("_");
    key.append(suffix);
    key
}

/// The weighted mean of two numbers, rounded down, where the target has the weight
/// `num` of `den`; products and sums that do not fit 128 bits count as the largest
/// number that does.
pub open spec fn blended(current: int, target: int, num: int, den: int) -> int {
    let most = u128::MAX as int;
    let keep = if den >= num {
        den - num
    } else {
        0
    };
    let kept = min_of(current * keep, most);
    let moved = min_of(target * num, most);
    min_of(min_of(kept + moved, most) / den, usize::MAX as int)
}

/// Moves `current` towards `target` by `num` parts of `den`.
pub fn blend_usize(current: usize, target: usize, num: u128, den: u128) -> (blend: usize)
    ensures
        den == 0 ==> blend == current,
        den > 0 ==> blend == blended(current as int, target as int, num as int, den as int),
{
    if den == 0 {
        return current;
    }
    let keep: u128 = den.saturating_sub(num);
    let kept: u128 = saturating_product_u128(current as u128, keep);
    let moved: u128 = saturating_product_u128(target as u128, num);
    let blend: u128 = kept.saturating_add(moved) / den;
    if blend <= usize::MAX as u128 {
        blend as usize
    } else {
        usize::MAX
    }
}

/// A tuner.
pub struct RuntimeAutoTuner {
    pub name: &'static str,
    pub threshold_units: usize,
    pub target_units_per_worker: usize,
    pub threshold_min: usize,
    pub threshold_max: usize,
    pub target_min: usize,
    pub target_max: usize,
    pub autotune_enabled: bool,
    pub sample_rate: u64,
    pub log_enabled: bool,
    pub log_every: u64,
    pub call_counter: u64,
    /// Counts the calls at which exploration was possible.
    pub explore_counter: u64,
    /// One of so many of those calls explores.
    pub explore_rate: u64,
    pub counts: SampleCounts,
}

/// The decision for one worker.
pub open spec fn sequential(threshold: usize, exploring: bool) -> ParallelDecision {
    ParallelDecision {
        parallel: false,
        max_workers: 1,
        active_workers: 1,
        threshold_units: threshold,
        exploring,
    }
}

/// The count behind another, which starts again behind the largest.
pub open spec fn next_count(count: u64) -> u64 {
    if count == u64::MAX {
        0
    } else {
        (count + 1) as u64
    }
}

/// The count after `n` more calls.
pub open spec fn count_after(count: u64, n: nat) -> u64
    decreases n,
{
    if n == 0 {
        count
    } else {
        next_count(count_after(count, (n - 1) as nat))
    }
}

impl RuntimeAutoTuner {
    /// The limits are in order, the learned values lie within them, and no rate is 0.
    pub open spec fn wf(self) -> bool {
        &&& self.threshold_min <= self.threshold_max
        &&& self.target_min <= self.target_max
        &&& self.threshold_min <= self.threshold_units <= self.threshold_max
        &&& self.target_min <= self.target_units_per_worker <= self.target_max
        &&& self.sample_rate > 0
        &&& self.log_every > 0
        &&& self.explore_rate > 0
    }

    /// A tuner with its settings read from `env`; a setting that is not there, or that
    /// makes no sense, has its default.
    pub fn from_env<'a>(
        name: &'static str,
        env: AutoTuneEnv<'a>,
        defaults: RuntimeAutoTuneDefaults,
    ) -> (tuner: Self)
        ensures
            tuner.wf(),
            tuner.name == name,
            tuner.threshold_min == defaults.threshold_min,
            tuner.threshold_max == max_of(
                defaults.threshold_max as int,
                defaults.threshold_min as int,
            ),
            tuner.target_min == defaults.target_min,
            tuner.target_max == max_of(defaults.target_max as int, defaults.target_min as int),
            tuner.threshold_units == clamped(
                first_of(
                    raw_usize(env.par_threshold.own),
                    raw_usize(env.par_threshold.shared),
                    defaults.threshold_units,
                ) as int,
                tuner.threshold_min as int,
                tuner.threshold_max as int,
            ),
            tuner.target_units_per_worker == clamped(
                first_of(
                    raw_usize(env.target_work_per_worker.own),
                    raw_usize(env.target_work_per_worker.shared),
                    defaults.target_units_per_worker,
                ) as int,
                tuner.target_min as int,
                tuner.target_max as int,
            ),
            tuner.autotune_enabled == first_of(
                raw_bool(env.autotune.own),
                raw_bool(env.autotune.shared),
                true,
            ),
            tuner.sample_rate == max_of(
                first_of(
                    raw_usize(env.sample_rate.own),
                    raw_usize(env.sample_rate.shared),
                    8,
                ) as int,
                1,
            ),
            tuner.log_enabled == first_of(raw_bool(env.log.own), raw_bool(env.log.shared), false),
            tuner.log_every == max_of(
                first_of(
                    raw_usize(env.log_every.own),
                    raw_usize(env.log_every.shared),
                    128,
                ) as int,
                1,
            ),
            tuner.explore_rate == max_of(
                first_of(raw_usize(env.explore.own), raw_usize(env.explore.shared), 64) as int,
                1,
            ),
            tuner.call_counter == 0,
            tuner.explore_counter == 0,
            tuner.counts == (SampleCounts { sampled_calls: 0, seq_samples: 0, par_samples: 0 }),
    {
        let threshold_max: usize = max_usize(defaults.threshold_max, defaults.threshold_min);
        let target_max: usize = max_usize(defaults.target_max, defaults.target_min);
        RuntimeAutoTuner {
            name,
            threshold_units: clamp_usize(
                env_usize_prefixed(env.par_threshold, defaults.threshold_units),
                defaults.threshold_min,
                threshold_max,
            ),
            target_units_per_worker: clamp_usize(
                env_usize_prefixed(env.target_work_per_worker, defaults.target_units_per_worker),
                defaults.target_min,
                target_max,
            ),
            threshold_min: defaults.threshold_min,
            threshold_max,
            target_min: defaults.target_min,
            target_max,
            autotune_enabled: env_bool_prefixed(env.autotune, true),
            sample_rate: max_usize(env_usize_prefixed(env.sample_rate, 8), 1) as u64,
            log_enabled: env_bool_prefixed(env.log, false),
            log_every: max_usize(env_usize_prefixed(env.log_every, 128), 1) as u64,
            call_counter: 0,
            explore_counter: 0,
            explore_rate: max_usize(env_usize_prefixed(env.explore, 64), 1) as u64,
            counts: SampleCounts { sampled_calls: 0, seq_samples: 0, par_samples: 0 },
        }
    }

    /// How many workers a piece of work deserves: one for each target's worth of units
    /// and at least two, but no more than there are workers or items.
    pub open spec fn deserved_workers(
        self,
        work_units: int,
        work_items: int,
        pool_workers: int,
    ) -> int {
        let wanted = max_of(
            ceil_div(work_units, max_of(self.target_units_per_worker as int, 1)),
            2,
        );
        min_of(min_of(wanted, pool_workers), work_items)
    }

    /// Whether the work is large enough, and can be divided, for many workers.
    pub open spec fn worth_dividing(
        self,
        work_units: int,
        work_items: int,
        pool_workers: int,
    ) -> bool {
        pool_workers > 1 && work_items > 1 && work_units >= self.threshold_units
    }

    /// Whether work that can be divided may be sent the other way for a timing. The
    /// tuner learns, and the way that the work would go was timed often enough, while
    /// the other way was not. Work that goes to many workers is sent to one only where
    /// it is no more than 256 times the threshold.
    pub open spec fn may_explore(
        self,
        work_units: int,
        work_items: int,
        pool_workers: int,
    ) -> bool {
        &&& self.autotune_enabled
        &&& pool_workers > 1
        &&& work_items > 1
        &&& if work_units >= self.threshold_units {
            &&& self.counts.seq_samples < EXPLORE_MIN_SAMPLES
            &&& self.counts.par_samples >= EXPLORE_MIN_SAMPLES
            &&& work_units <= min_of(self.threshold_units * 256, usize::MAX as int)
        } else {
            &&& self.counts.par_samples < EXPLORE_MIN_SAMPLES
            &&& self.counts.seq_samples >= EXPLORE_MIN_SAMPLES
        }
    }

    /// Whether this call explores: it may, and it is the first of `explore_rate` such
    /// calls.
    pub open spec fn explores(self, work_units: int, work_items: int, pool_workers: int) -> bool {
        self.may_explore(work_units, work_items, pool_workers) && self.explore_counter
            % self.explore_rate == 0
    }

    /// The decision for as many workers as a piece of work deserves.
    pub open spec fn divided(
        self,
        work_units: int,
        work_items: int,
        pool_workers: int,
        exploring: bool,
    ) -> ParallelDecision {
        let workers = self.deserved_workers(work_units, work_items, pool_workers) as usize;
        ParallelDecision {
            parallel: true,
            max_workers: workers,
            active_workers: workers,
            threshold_units: self.threshold_units,
            exploring,
        }
    }

    /// How a piece of work is run: by its size, or the other way where this call
    /// explores.
    pub open spec fn decision(
        self,
        work_units: int,
        work_items: int,
        pool_workers: int,
    ) -> ParallelDecision {
        let exploring = self.explores(work_units, work_items, pool_workers);
        if self.worth_dividing(work_units, work_items, pool_workers) != exploring {
            self.divided(work_units, work_items, pool_workers, exploring)
        } else {
            sequential(self.threshold_units, exploring)
        }
    }

    /// Counts a call that may explore, and says whether it does.
    fn probe(&mut self) -> (explore: bool)
        requires
            old(self).wf(),
        ensures
            explore == (old(self).explore_counter % old(self).explore_rate == 0),
            *final(self) == (RuntimeAutoTuner {
                explore_counter: next_count(old(self).explore_counter),
                ..*old(self)
            }),
    {
        let count: u64 = self.explore_counter;
        self.explore_counter = count.wrapping_add(1);
        count % self.explore_rate == 0
    }

    /// Decides how to run a piece of work.
    pub fn decide(&mut self, work_units: usize, work_items: usize, pool_workers: usize) -> (decision:
        ParallelDecision)
        requires
            old(self).wf(),
        ensures
            final(self).wf(),
            decision == old(self).decision(
                work_units as int,
                work_items as int,
                pool_workers as int,
            ),
            *final(self) == (RuntimeAutoTuner {
                explore_counter: if old(self).may_explore(
                    work_units as int,
                    work_items as int,
                    pool_workers as int,
                ) {
                    next_count(old(self).explore_counter)
                } else {
                    old(self).explore_counter
                },
                ..*old(self)
            }),
    {
        let threshold_units: usize = self.threshold_units;
        let one = ParallelDecision {
            parallel: false,
            max_workers: 1,
            active_workers: 1,
            threshold_units,
            exploring: false,
        };
        if pool_workers <= 1 || work_items <= 1 {
            return one;
        }
        let target: usize = max_usize(self.target_units_per_worker, 1);
        let wanted: usize = max_usize(div_ceil_usize(work_units, target), 2);
        let workers: usize = min_usize(min_usize(wanted, pool_workers), work_items);
        let many = ParallelDecision {
            parallel: true,
            max_workers: workers,
            active_workers: workers,
            threshold_units,
            exploring: false,
        };
        let seq: u64 = self.counts.seq_samples;
        let par: u64 = self.counts.par_samples;
        if work_units < threshold_units {
            if self.autotune_enabled && par < EXPLORE_MIN_SAMPLES && seq >= EXPLORE_MIN_SAMPLES {
                if self.probe() {
                    return ParallelDecision { exploring: true, ..many };
                }
            }
            return one;
        }
        let limit: usize = saturating_product(threshold_units, 256);
        if self.autotune_enabled && seq < EXPLORE_MIN_SAMPLES && par >= EXPLORE_MIN_SAMPLES
            && work_units <= limit {
            if self.probe() {
                return ParallelDecision { exploring: true, ..one };
            }
        }
        many
    }

    /// Whether to time a call. An exploring call is always timed; another one only
    /// where the tuner learns or logs, and then the first four and every so many more.
    pub fn begin_sample(&mut self, decision: &ParallelDecision) -> (timed: bool)
        requires
            old(self).wf(),
            old(self).call_counter < u64::MAX,
        ensures
            final(self).wf(),
            ({
                let counted = decision.exploring || old(self).autotune_enabled
                    || old(self).log_enabled;
                let call = old(self).call_counter + 1;
                &&& timed == (decision.exploring || (counted && (call <= 4 || call
                    % (old(self).sample_rate as int) == 0)))
                &&& *final(self) == (RuntimeAutoTuner {
                    call_counter: if counted {
                        call as u64
                    } else {
                        old(self).call_counter
                    },
                    ..*old(self)
                })
            }),
    {
        if decision.exploring {
            self.call_counter = self.call_counter + 1;
            return true;
        }
        if !self.autotune_enabled && !self.log_enabled {
            return false;
        }
        let call: u64 = self.call_counter + 1;
        self.call_counter = call;
        call <= 4 || call % self.sample_rate == 0
    }

    /// Counts a timed call on its side and returns the counts.
    pub fn record_sample(&mut self, parallel: bool) -> (counts: SampleCounts)
        requires
            old(self).counts.sampled_calls < u64::MAX,
            old(self).counts.seq_samples < u64::MAX,
            old(self).counts.par_samples < u64::MAX,
        ensures
            counts == (SampleCounts {
                sampled_calls: (old(self).counts.sampled_calls + 1) as u64,
                seq_samples: if parallel {
                    old(self).counts.seq_samples
                } else {
                    (old(self).counts.seq_samples + 1) as u64
                },
                par_samples: if parallel {
                    (old(self).counts.par_samples + 1) as u64
                } else {
                    old(self).counts.par_samples
                },
            }),
            *final(self) == (RuntimeAutoTuner { counts, ..*old(self) }),
    {
        let mut counts = self.counts;
        counts.sampled_calls = counts.sampled_calls + 1;
        if parallel {
            counts.par_samples = counts.par_samples + 1;
        } else {
            counts.seq_samples = counts.seq_samples + 1;
        }
        self.counts = counts;
        counts
    }

    /// The threshold that work of `work_units` units pulls it towards: a tenth above
    /// the work where many workers were slower, a tenth below where one was.
    pub open spec fn retuned_threshold(self, work_units: int, verdict: SpeedVerdict) -> int {
        let most = usize::MAX as int;
        let pull = match verdict {
            SpeedVerdict::ParallelSlower => ceil_div(min_of(work_units * 11, most), 10),
            _ => min_of(work_units * 9, most) / 10,
        };
        clamped(
            blended(self.threshold_units as int, pull, 1, 4),
            self.threshold_min as int,
            self.threshold_max as int,
        )
    }

    /// The target for one worker, a tenth larger or smaller.
    pub open spec fn retuned_target(self, verdict: SpeedVerdict) -> int {
        let most = usize::MAX as int;
        let target = self.target_units_per_worker as int;
        let moved = match verdict {
            SpeedVerdict::ParallelSlower => ceil_div(min_of(target * 11, most), 10),
            _ => min_of(target * 9, most) / 10,
        };
        clamped(moved, self.target_min as int, self.target_max as int)
    }

    /// Whether a timed call moves the learned values: both sides were timed at least
    /// twice, and the averages speak against the side that the call took.
    pub open spec fn learns_from(self, decision: ParallelDecision, verdict: Option<SpeedVerdict>) -> bool {
        &&& self.counts.seq_samples >= 2
        &&& self.counts.par_samples >= 2
        &&& (decision.parallel && verdict == Some(SpeedVerdict::ParallelSlower)) || (
        !decision.parallel && verdict == Some(SpeedVerdict::SequentialSlower))
    }

    /// Moves the threshold and the target after a timed call, where the averages of the
    /// two sides (`None` where they cannot be compared) speak against the choice made.
    pub fn retune(
        &mut self,
        decision: ParallelDecision,
        work_units: usize,
        verdict: Option<SpeedVerdict>,
    )
        requires
            old(self).wf(),
        ensures
            final(self).wf(),
            !old(self).learns_from(decision, verdict) ==> *final(self) == *old(self),
            old(self).learns_from(decision, verdict) ==> *final(self) == (RuntimeAutoTuner {
                threshold_units: old(self).retuned_threshold(
                    work_units as int,
                    verdict.unwrap(),
                ) as usize,
                target_units_per_worker: old(self).retuned_target(verdict.unwrap()) as usize,
                ..*old(self)
            }),
    {
        if self.counts.seq_samples < 2 || self.counts.par_samples < 2 {
            return;
        }
        match verdict {
            Some(SpeedVerdict::ParallelSlower) => {
                if decision.parallel {
                    let pull: usize = div_ceil_usize(saturating_product(work_units, 11), 10);
                    let blend: usize = blend_usize(self.threshold_units, pull, 1, 4);
                    self.threshold_units = clamp_usize(
                        blend,
                        self.threshold_min,
                        self.threshold_max,
                    );
                    let moved: usize = div_ceil_usize(
                        saturating_product(self.target_units_per_worker, 11),
                        10,
                    );
                    self.target_units_per_worker = clamp_usize(
                        moved,
                        self.target_min,
                        self.target_max,
                    );
                }
            },
            Some(SpeedVerdict::SequentialSlower) => {
                if !decision.parallel {
                    let pull: usize = saturating_product(work_units, 9) / 10;
                    let blend: usize = blend_usize(self.threshold_units, pull, 1, 4);
                    self.threshold_units = clamp_usize(
                        blend,
                        self.threshold_min,
                        self.threshold_max,
                    );
                    let moved: usize = saturating_product(self.target_units_per_worker, 9) / 10;
                    self.target_units_per_worker = clamp_usize(
                        moved,
                        self.target_min,
                        self.target_max,
                    );
                }
            },
            _ => {},
        }
    }

    /// Whether a timed call is logged: where logging is on, the first one and every so
    /// many more.
    pub fn should_log(&self) -> (log: bool)
        requires
            self.wf(),
        ensures
            log == (self.log_enabled && (self.counts.sampled_calls == 1
                || self.counts.sampled_calls % self.log_every == 0)),
    {
        self.log_enabled && (self.counts.sampled_calls == 1 || self.counts.sampled_calls
            % self.log_every == 0)
    }
}

// ---------------------------------------------------------------------------
// Laws
// ---------------------------------------------------------------------------

/// Work that can be divided deserves at least two workers, and no more than there are
/// workers or items.
pub proof fn law_workers_within_bounds(
    tuner: RuntimeAutoTuner,
    work_units: int,
    work_items: int,
    pool_workers: int,
)
    requires
        work_units >= 0,
        work_items > 1,
        pool_workers > 1,
    ensures
        2 <= tuner.deserved_workers(work_units, work_items, pool_workers) <= pool_workers,
        tuner.deserved_workers(work_units, work_items, pool_workers) <= work_items,
{
}

/// Moving by one part of four is the rounded mean with weights three and one.
proof fn lemma_quarter_blend(current: int, target: int)
    requires
        0 <= current <= usize::MAX,
        0 <= target <= usize::MAX,
    ensures
        blended(current, target, 1, 4) == (3 * current + target) / 4,
{
    assert(current * 3 == 3 * current);
    assert(target * 1 == target);
    assert(usize::MAX <= 0xffff_ffff_ffff_ffff);
}

/// Some call among any `explore_rate` that may explore does so, whatever the counter
/// was, and then the work is run the way that its size does not ask for.
pub proof fn law_exploration_comes_round(
    tuner: RuntimeAutoTuner,
    work_units: int,
    work_items: int,
    pool_workers: int,
) -> (n: nat)
    requires
        tuner.wf(),
        tuner.may_explore(work_units, work_items, pool_workers),
    ensures
        n < tuner.explore_rate,
        ({
            let later = RuntimeAutoTuner {
                explore_counter: count_after(tuner.explore_counter, n),
                ..tuner
            };
            let decision = later.decision(work_units, work_items, pool_workers);
            &&& decision.exploring
            &&& decision.parallel == (work_units < tuner.threshold_units)
        }),
{
    let rate = tuner.explore_rate as int;
    let count = tuner.explore_counter as int;
    let past = count % rate;
    let n: nat = if past == 0 {
        0
    } else {
        (rate - past) as nat
    };
    if count + n <= u64::MAX {
        lemma_count_after(tuner.explore_counter, n);
        if past != 0 {
            vstd::arithmetic::div_mod::lemma_fundamental_div_mod(count, rate);
            assert((count / rate + 1) * rate == rate * (count / rate) + rate)
                by (nonlinear_arith);
            vstd::arithmetic::div_mod::lemma_fundamental_div_mod_converse(
                count + n,
                rate,
                count / rate + 1,
                0,
            );
        }
        n
    } else {
        let m = (u64::MAX - count) as nat;
        lemma_count_after(tuner.explore_counter, m);
        assert(count_after(tuner.explore_counter, m + 1) == 0);
        assert(0int % rate == 0);
        m + 1
    }
}

/// Counting does not start again before the largest number.
proof fn lemma_count_after(count: u64, n: nat)
    requires
        count + n <= u64::MAX,
    ensures
        count_after(count, n) == count + n,
    decreases n,
{
    if n > 0 {
        lemma_count_after(count, (n - 1) as nat);
    }
}

/// A slow parallel call on work that its size sends there never lowers the threshold,
/// unless the work is so large that a tenth more of it is no machine number.
pub proof fn law_slow_parallel_raises_threshold(tuner: RuntimeAutoTuner, work_units: int)
    requires
        tuner.wf(),
        tuner.threshold_units <= work_units,
        work_units * 11 <= usize::MAX,
    ensures
        tuner.retuned_threshold(work_units, SpeedVerdict::ParallelSlower)
            >= tuner.threshold_units,
{
    let pull = ceil_div(min_of(work_units * 11, usize::MAX as int), 10);
    assert(pull >= work_units);
    lemma_quarter_blend(tuner.threshold_units as int, pull);
}

/// A slow sequential call on work that its size sends there never raises the threshold.
pub proof fn law_slow_sequential_lowers_threshold(tuner: RuntimeAutoTuner, work_units: int)
    requires
        tuner.wf(),
        0 <= work_units <= tuner.threshold_units,
    ensures
        tuner.retuned_threshold(work_units, SpeedVerdict::SequentialSlower)
            <= tuner.threshold_units,
{
    let pull = min_of(work_units * 9, usize::MAX as int) / 10;
    assert(0 <= pull <= work_units);
    lemma_quarter_blend(tuner.threshold_units as int, pull);
}

// ---------------------------------------------------------------------------
// What the tuner decides and learns
// ---------------------------------------------------------------------------

/// A setting of the tuner's own goes before a shared one, and that before the default;
/// what is not set, or cannot be read, does not count.
pub proof fn law_own_settings_come_first<T>(own: Option<T>, shared: Option<T>, default: T)
    ensures
        own is Some ==> first_of(own, shared, default) == own->0,
        own is None && shared is Some ==> first_of(own, shared, default) == shared->0,
        own is None && shared is None ==> first_of(own, shared, default) == default,
        raw_usize(None) is None,
        raw_bool(None) is None,
{
}

/// A blend lies between the two numbers: it is the weighted mean, rounded down, as long
/// as the weights and products fit.
pub proof fn law_blend_is_the_weighted_mean(current: usize, target: usize, num: int, den: int)
    requires
        den > 0,
        0 <= num <= den,
        current * (den - num) + target * num <= u128::MAX,
    ensures
        den * blended(current as int, target as int, num, den) <= current * (den - num) + target
            * num,
        current * (den - num) + target * num < den * blended(
            current as int,
            target as int,
            num,
            den,
        ) + den,
        min_of(current as int, target as int) <= blended(current as int, target as int, num, den)
            <= max_of(current as int, target as int),
{
    let c = current as int;
    let t = target as int;
    let keep = den - num;
    assert(c * keep >= 0 && t * num >= 0) by (nonlinear_arith)
        requires
            c >= 0,
            t >= 0,
            keep >= 0,
            num >= 0,
    ;
    let sum = c * keep + t * num;
    let q = sum / den;
    vstd::arithmetic::div_mod::lemma_fundamental_div_mod(sum, den);
    let low = min_of(c, t);
    let high = max_of(c, t);
    assert(low * den <= sum <= high * den) by (nonlinear_arith)
        requires
            low <= c <= high,
            low <= t <= high,
            keep >= 0,
            num >= 0,
            keep + num == den,
            sum == c * keep + t * num,
    ;
    assert(low <= q <= high) by (nonlinear_arith)
        requires
            low * den <= sum <= high * den,
            den > 0,
            sum == den * q + sum % den,
            0 <= sum % den < den,
    ;
}

/// A blend whose weight is more than the whole is the target alone, weighted; a sum that
/// does not fit counts as the largest number, and so does a blend that does not.
pub proof fn law_blend_stops_at_the_largest(current: usize, target: usize, num: int, den: int)
    requires
        den > 0,
        num >= 0,
    ensures
        ({
            let b = blended(current as int, target as int, num, den);
            let sum = if num <= den {
                current * (den - num) + target * num
            } else {
                target * num
            };
            &&& 0 <= b <= usize::MAX
            &&& sum <= u128::MAX ==> den * b <= sum
            &&& sum <= u128::MAX && b < usize::MAX ==> sum < den * b + den
            &&& sum > u128::MAX ==> den * b <= u128::MAX
            &&& sum > u128::MAX && b < usize::MAX ==> u128::MAX < den * b + den
        }),
{
    let c = current as int;
    let t = target as int;
    let most = u128::MAX as int;
    let keep = if den >= num {
        den - num
    } else {
        0
    };
    assert(c * keep >= 0 && t * num >= 0 && c * 0 == 0) by (nonlinear_arith)
        requires
            c >= 0,
            t >= 0,
            keep >= 0,
            num >= 0,
    ;
    let sum = min_of(min_of(c * keep, most) + min_of(t * num, most), most);
    vstd::arithmetic::div_mod::lemma_fundamental_div_mod(sum, den);
    let q = sum / den;
    let b = blended(c, t, num, den);
    assert(q >= 0) by (nonlinear_arith)
        requires
            sum == den * q + sum % den,
            0 <= sum % den < den,
            sum >= 0,
    ;
    assert(den * b <= den * q) by (nonlinear_arith)
        requires
            b <= q,
            den > 0,
    ;
}

/// Counting goes up by one and starts again at 0.
pub proof fn law_counts_go_round(count: u64)
    ensures
        count < 0xffff_ffff_ffff_ffff ==> next_count(count) == count + 1,
        count == 0xffff_ffff_ffff_ffff ==> next_count(count) == 0,
{
}

/// Work is divided among so many workers that none has more than the target, unless the
/// pool or the items run out first; and among no more than that takes, but at least two.
pub proof fn law_workers_follow_the_target(
    tuner: RuntimeAutoTuner,
    work_units: int,
    work_items: int,
    pool_workers: int,
)
    requires
        work_units >= 0,
        work_items > 1,
        pool_workers > 1,
        tuner.target_units_per_worker > 0,
    ensures
        ({
            let workers = tuner.deserved_workers(work_units, work_items, pool_workers);
            &&& workers <= pool_workers && workers <= work_items
            &&& workers < pool_workers && workers < work_items ==> workers
                * tuner.target_units_per_worker >= work_units
            &&& workers > 2 ==> (workers - 1) * tuner.target_units_per_worker < work_units
            &&& workers >= 2
        }),
{
    let t = tuner.target_units_per_worker as int;
    crate::arith::law_rounding_up(work_units, t);
    let parts = ceil_div(work_units, t);
    let workers = tuner.deserved_workers(work_units, work_items, pool_workers);
    if workers > 2 {
        assert((workers - 1) * t <= (parts - 1) * t) by (nonlinear_arith)
            requires
                workers <= parts,
                t > 0,
        ;
    } else if workers < pool_workers && workers < work_items {
        assert(parts * t <= workers * t) by (nonlinear_arith)
            requires
                parts <= workers,
                t > 0,
        ;
    }
}

/// A target of 0 counts as 1.
pub proof fn law_target_is_at_least_one(
    tuner: RuntimeAutoTuner,
    work_units: int,
    work_items: int,
    pool_workers: int,
)
    requires
        tuner.target_units_per_worker == 0,
    ensures
        tuner.deserved_workers(work_units, work_items, pool_workers) == (RuntimeAutoTuner {
            target_units_per_worker: 1,
            ..tuner
        }).deserved_workers(work_units, work_items, pool_workers),
{
}

/// Whether work is divided is decided by the threshold, and by a trial the other way
/// round. A trial is made only where tuning is on, there are workers and items to divide,
/// fewer than 4 samples of that way but 4 of the other were taken, and, for running in
/// turn, the work is at most 256 times the threshold; and of such calls one in
/// `explore_rate`.
pub proof fn law_trials_are_made_where_samples_lack(
    tuner: RuntimeAutoTuner,
    work_units: int,
    work_items: int,
    pool_workers: int,
)
    requires
        tuner.explore_rate > 0,
        work_units <= usize::MAX,
    ensures
        ({
            let decision = tuner.decision(work_units, work_items, pool_workers);
            let dividable = pool_workers > 1 && work_items > 1;
            let over = work_units >= tuner.threshold_units;
            let few = tuner.counts;
            let lacking = if over {
                few.seq_samples < 4 && few.par_samples >= 4 && work_units <= 256
                    * tuner.threshold_units
            } else {
                few.par_samples < 4 && few.seq_samples >= 4
            };
            let tried = tuner.autotune_enabled && dividable && lacking;
            &&& tuner.may_explore(work_units, work_items, pool_workers) <==> tried
            &&& decision.exploring <==> tried && tuner.explore_counter % tuner.explore_rate == 0
            &&& decision.parallel <==> ((dividable && over) != decision.exploring)
            &&& decision.threshold_units == tuner.threshold_units
            &&& decision.active_workers == decision.max_workers
            &&& !decision.parallel ==> decision.max_workers == 1
            &&& decision.parallel && 0 <= work_units <= usize::MAX && work_items <= usize::MAX
                && dividable ==> decision.max_workers == tuner.deserved_workers(
                work_units,
                work_items,
                pool_workers,
            )
        }),
{
    if work_units >= 0 && work_items > 1 && pool_workers > 1 {
        law_workers_within_bounds(tuner, work_units, work_items, pool_workers);
    }
}

/// The threshold moves a quarter of the way towards the work that was slow: to a tenth
/// above it where dividing was slow, and to a tenth below it where running in turn was;
/// and it stays within its bounds. A product that does not fit counts as the largest
/// machine number.
pub proof fn law_threshold_moves_a_quarter(
    tuner: RuntimeAutoTuner,
    work_units: int,
    verdict: SpeedVerdict,
    pull: int,
    moved: int,
)
    requires
        tuner.threshold_min <= tuner.threshold_max,
        0 <= work_units,
        verdict is ParallelSlower && 11 * work_units <= usize::MAX ==> 10 * (pull - 1) < 11
            * work_units <= 10 * pull,
        verdict is ParallelSlower && 11 * work_units > usize::MAX ==> 10 * (pull - 1) < usize::MAX
            <= 10 * pull,
        !(verdict is ParallelSlower) && 9 * work_units <= usize::MAX ==> 10 * pull <= 9 * work_units
            < 10 * (pull + 1),
        !(verdict is ParallelSlower) && 9 * work_units > usize::MAX ==> 10 * pull <= usize::MAX < 10
            * (pull + 1),
        4 * moved <= 3 * tuner.threshold_units + pull < 4 * (moved + 1),
    ensures
        moved <= tuner.threshold_min ==> tuner.retuned_threshold(work_units, verdict)
            == tuner.threshold_min,
        tuner.threshold_min <= moved <= tuner.threshold_max ==> tuner.retuned_threshold(
            work_units,
            verdict,
        ) == moved,
        moved >= tuner.threshold_max ==> tuner.retuned_threshold(work_units, verdict)
            == tuner.threshold_max,
{
    let t = tuner.threshold_units;
    assert(pull <= usize::MAX && pull >= 0);
    assert(t * (4 - 1) + pull * 1 <= u128::MAX);
    law_blend_is_the_weighted_mean(t, pull as usize, 1, 4);
}

/// The target of a worker moves by a tenth: up where dividing was slow, so that fewer
/// workers share the next work, and down where running in turn was; and it stays within
/// its bounds. A product that does not fit counts as the largest machine number.
pub proof fn law_target_moves_a_tenth(tuner: RuntimeAutoTuner, verdict: SpeedVerdict, moved: int)
    requires
        tuner.target_min <= tuner.target_max,
        verdict is ParallelSlower && 11 * tuner.target_units_per_worker <= usize::MAX ==> 10 * (moved
            - 1) < 11 * tuner.target_units_per_worker <= 10 * moved,
        verdict is ParallelSlower && 11 * tuner.target_units_per_worker > usize::MAX ==> 10 * (moved
            - 1) < usize::MAX <= 10 * moved,
        !(verdict is ParallelSlower) && 9 * tuner.target_units_per_worker <= usize::MAX ==> 10
            * moved <= 9 * tuner.target_units_per_worker < 10 * (moved + 1),
        !(verdict is ParallelSlower) && 9 * tuner.target_units_per_worker > usize::MAX ==> 10
            * moved <= usize::MAX < 10 * (moved + 1),
    ensures
        moved <= tuner.target_min ==> tuner.retuned_target(verdict) == tuner.target_min,
        tuner.target_min <= moved <= tuner.target_max ==> tuner.retuned_target(verdict) == moved,
        moved >= tuner.target_max ==> tuner.retuned_target(verdict) == tuner.target_max,
{
}

/// The tuner learns only where both ways were timed twice or more, and only from a way
/// that was taken and was the slower one.
pub proof fn law_tuner_learns_from_slow_calls(
    tuner: RuntimeAutoTuner,
    decision: ParallelDecision,
    verdict: Option<SpeedVerdict>,
)
    ensures
        tuner.counts.seq_samples < 2 || tuner.counts.par_samples < 2 ==> !tuner.learns_from(
            decision,
            verdict,
        ),
        verdict is None || verdict == Some(SpeedVerdict::Even) ==> !tuner.learns_from(
            decision,
            verdict,
        ),
        tuner.counts.seq_samples >= 2 && tuner.counts.par_samples >= 2 ==> {
            &&& verdict == Some(SpeedVerdict::ParallelSlower) ==> (tuner.learns_from(
                decision,
                verdict,
            ) <==> decision.parallel)
            &&& verdict == Some(SpeedVerdict::SequentialSlower) ==> (tuner.learns_from(
                decision,
                verdict,
            ) <==> !decision.parallel)
        },
{
}

} // verus!
