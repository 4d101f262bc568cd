//! Execution phases and the run-time tuner.

use herbert_backend::autotune::{
    batch_defaults, blend_usize, env_bool_prefixed, env_key, env_usize_prefixed, AutoTuneEnv,
    EnvPair, ParallelDecision, RuntimeAutoTuneDefaults, RuntimeAutoTuner, SampleCounts, SpeedVerdict,
};
use herbert_backend::execution_phase::{
    configure_phases, current_phase, effective_max_workers, phase_config, set_phase,
    ExecutionPhase, PhaseState,
};

#[test]
fn phase_round_trip() {
    let mut state = PhaseState::new();
    // Default is Prefill
    set_phase(&mut state, ExecutionPhase::Prefill);
    assert_eq!(current_phase(&state), ExecutionPhase::Prefill);

    set_phase(&mut state, ExecutionPhase::Decode);
    assert_eq!(current_phase(&state), ExecutionPhase::Decode);

    set_phase(&mut state, ExecutionPhase::Prefill);
    assert_eq!(current_phase(&state), ExecutionPhase::Prefill);
}

#[test]
fn prefill_uses_all_workers() {
    let mut state = PhaseState::new();
    set_phase(&mut state, ExecutionPhase::Prefill);
    // During prefill, always returns pool_size regardless of config
    assert_eq!(effective_max_workers(&mut state, 16), 16);
    assert_eq!(effective_max_workers(&mut state, 1), 1);
}

#[test]
fn decode_unconfigured_uses_all_workers() {
    let mut state = PhaseState::new();
    // With default config (decode_max_workers=0), decode also uses all workers
    set_phase(&mut state, ExecutionPhase::Decode);
    let config = phase_config(&mut state);
    if config.decode_max_workers == 0 {
        assert_eq!(effective_max_workers(&mut state, 16), 16);
    }
    assert_eq!(config.decode_max_workers, 0);
}

#[test]
fn phase_config_defaults() {
    let mut state = PhaseState::new();
    let config = phase_config(&mut state);
    assert!(config.decode_max_workers <= 1024);
    assert!(config.prefill_chunk_size <= 1_000_000);
    assert_eq!(config.prefill_chunk_size, 0);
}

#[test]
fn a_new_state_is_in_prefill() {
    assert_eq!(current_phase(&PhaseState::new()), ExecutionPhase::Prefill);
}

#[test]
fn decode_is_capped_once_configured() {
    let mut state = PhaseState::new();
    configure_phases(&mut state, 6, 512);
    assert_eq!(effective_max_workers(&mut state, 16), 16);
    set_phase(&mut state, ExecutionPhase::Decode);
    assert_eq!(effective_max_workers(&mut state, 16), 6);
    assert_eq!(effective_max_workers(&mut state, 4), 4);
    assert_eq!(phase_config(&mut state).prefill_chunk_size, 512);
}

#[test]
fn the_first_configuration_wins() {
    let mut state = PhaseState::new();
    configure_phases(&mut state, 6, 512);
    configure_phases(&mut state, 2, 64);
    assert_eq!(phase_config(&mut state).decode_max_workers, 6);

    let mut asked_first = PhaseState::new();
    phase_config(&mut asked_first);
    configure_phases(&mut asked_first, 6, 512);
    assert_eq!(phase_config(&mut asked_first).decode_max_workers, 0);
}

fn unset() -> EnvPair<'static> {
    EnvPair { own: None, shared: None }
}

fn env() -> AutoTuneEnv<'static> {
    AutoTuneEnv {
        par_threshold: unset(),
        target_work_per_worker: unset(),
        autotune: unset(),
        sample_rate: unset(),
        log: unset(),
        log_every: unset(),
        explore: unset(),
    }
}

fn defaults() -> RuntimeAutoTuneDefaults {
    RuntimeAutoTuneDefaults {
        threshold_units: 8,
        threshold_min: 1,
        threshold_max: 1000,
        target_units_per_worker: 4,
        target_min: 1,
        target_max: 1000,
    }
}

fn tuner() -> RuntimeAutoTuner {
    RuntimeAutoTuner::from_env("common/rope_batch", env(), defaults())
}

#[test]
fn own_setting_goes_before_the_shared_one() {
    let both = EnvPair { own: Some(" 12\t"), shared: Some("7") };
    assert_eq!(env_usize_prefixed(both, 3), 12);
    let wide = EnvPair { own: Some("\u{3000}\u{2029}12\u{a0}\u{85}"), shared: None };
    assert_eq!(env_usize_prefixed(wide, 3), 12);
    let joiner = EnvPair { own: Some("\u{200b}12"), shared: Some(" \n ") };
    assert_eq!(env_usize_prefixed(joiner, 3), 3);
    let shared = EnvPair { own: Some("twelve"), shared: Some("7") };
    assert_eq!(env_usize_prefixed(shared, 3), 7);
    assert_eq!(env_usize_prefixed(unset(), 3), 3);
    let yes = EnvPair { own: Some("  Yes "), shared: Some("0") };
    assert!(env_bool_prefixed(yes, false));
    let off = EnvPair { own: None, shared: Some("OFF") };
    assert!(!env_bool_prefixed(off, true));
    assert!(env_bool_prefixed(unset(), true));
}

#[test]
fn keys_are_joined_with_a_line() {
    assert_eq!(env_key("HERBERT_ROPE_BATCH", "PAR_THRESHOLD"), "HERBERT_ROPE_BATCH_PAR_THRESHOLD");
}

#[test]
fn blending_rounds_down() {
    assert_eq!(blend_usize(8, 18, 1, 4), 10);
    assert_eq!(blend_usize(100, 0, 1, 4), 75);
    assert_eq!(blend_usize(usize::MAX, usize::MAX, 1, 4), usize::MAX);
}

#[test]
fn settings_are_clamped() {
    let mut raw = env();
    raw.par_threshold = EnvPair { own: Some("5000"), shared: None };
    raw.sample_rate = EnvPair { own: None, shared: Some("0") };
    raw.log = EnvPair { own: Some("1"), shared: None };
    let t = RuntimeAutoTuner::from_env("t", raw, defaults());
    assert_eq!(t.threshold_units, 1000);
    assert_eq!(t.sample_rate, 1);
    assert!(t.log_enabled);
    let plain = tuner();
    assert_eq!(plain.threshold_units, 8);
    assert_eq!(plain.sample_rate, 8);
    assert_eq!(plain.log_every, 128);
    assert_eq!(plain.explore_rate, 64);
    assert!(plain.autotune_enabled && !plain.log_enabled);
}

#[test]
fn work_is_divided_within_bounds() {
    let mut t = tuner();
    assert!(!t.decide(7, 7, 16).parallel);
    assert!(!t.decide(100, 1, 16).parallel);
    assert!(!t.decide(100, 100, 1).parallel);
    let d = t.decide(20, 20, 16);
    assert!(d.parallel && !d.exploring);
    assert_eq!(d.max_workers, 5);
    let few = t.decide(8, 3, 16);
    assert_eq!(few.max_workers, 2);
    let many = t.decide(1000, 1000, 16);
    assert_eq!(many.max_workers, 16);
}

#[test]
fn exploration_sends_work_the_other_way() {
    let mut t = tuner();
    t.counts = SampleCounts { sampled_calls: 4, seq_samples: 0, par_samples: 4 };
    let d = t.decide(20, 20, 16);
    assert!(!d.parallel && d.exploring);
    let next = t.decide(20, 20, 16);
    assert!(next.parallel && !next.exploring);
    assert!(t.begin_sample(&d));
}

#[test]
fn exploration_comes_round_on_either_side() {
    let mut t = tuner();
    t.counts = SampleCounts { sampled_calls: 4, seq_samples: 4, par_samples: 0 };
    let d = t.decide(3, 3, 16);
    assert!(d.parallel && d.exploring);
    assert_eq!((d.max_workers, d.active_workers, d.threshold_units), (2, 2, 8));
    let others: Vec<ParallelDecision> = (0..63).map(|_| t.decide(3, 3, 16)).collect();
    assert!(others.iter().all(|d| !d.parallel && !d.exploring));
    assert!(t.decide(3, 3, 16).exploring);
    assert_eq!(t.explore_counter, 65);
    assert!(!t.decide(3, 1, 16).exploring);
    assert!(!t.decide(3, 3, 1).exploring);
    assert_eq!(t.explore_counter, 65);
    t.counts = SampleCounts { sampled_calls: 8, seq_samples: 4, par_samples: 4 };
    t.explore_counter = 0;
    assert!(!t.decide(3, 3, 16).exploring);
    t.counts = SampleCounts { sampled_calls: 4, seq_samples: 4, par_samples: 0 };
    t.autotune_enabled = false;
    assert!(!t.decide(3, 3, 16).exploring);
}

#[test]
fn first_calls_are_timed_and_then_every_so_many() {
    let mut t = tuner();
    let d = t.decide(20, 20, 16);
    let timed: Vec<bool> = (0..9).map(|_| t.begin_sample(&d)).collect();
    assert_eq!(timed, vec![true, true, true, true, false, false, false, true, false]);
}

fn decided(parallel: bool) -> ParallelDecision {
    ParallelDecision {
        parallel,
        max_workers: 4,
        active_workers: 4,
        threshold_units: 8,
        exploring: false,
    }
}

#[test]
fn slow_parallel_work_raises_the_threshold() {
    let mut t = tuner();
    t.counts = SampleCounts { sampled_calls: 4, seq_samples: 2, par_samples: 2 };
    t.retune(decided(true), 16, Some(SpeedVerdict::ParallelSlower));
    assert_eq!(t.threshold_units, 10);
    assert_eq!(t.target_units_per_worker, 5);
}

#[test]
fn slow_sequential_work_lowers_the_threshold() {
    let mut t = tuner();
    t.counts = SampleCounts { sampled_calls: 4, seq_samples: 2, par_samples: 2 };
    t.retune(decided(false), 4, Some(SpeedVerdict::SequentialSlower));
    assert_eq!(t.threshold_units, 6);
    assert_eq!(t.target_units_per_worker, 3);
}

#[test]
fn nothing_is_learned_without_cause() {
    let mut t = tuner();
    t.counts = SampleCounts { sampled_calls: 4, seq_samples: 1, par_samples: 3 };
    t.retune(decided(true), 16, Some(SpeedVerdict::ParallelSlower));
    assert_eq!(t.threshold_units, 8);
    t.counts = SampleCounts { sampled_calls: 4, seq_samples: 2, par_samples: 2 };
    t.retune(decided(true), 16, Some(SpeedVerdict::Even));
    t.retune(decided(true), 16, None);
    t.retune(decided(false), 16, Some(SpeedVerdict::ParallelSlower));
    assert_eq!(t.threshold_units, 8);
}

#[test]
fn samples_are_counted_on_their_side() {
    let mut t = tuner();
    t.record_sample(true);
    let counts = t.record_sample(false);
    assert_eq!(counts, SampleCounts { sampled_calls: 2, seq_samples: 1, par_samples: 1 });
    t.log_enabled = true;
    assert!(!t.should_log());
    t.log_every = 2;
    assert!(t.should_log());
}

#[test]
fn batches_are_divided_from_eight_rows_on() {
    let limits = batch_defaults();
    assert_eq!((limits.threshold_units, limits.threshold_min), (8, 1));
    assert_eq!((limits.target_units_per_worker, limits.target_min), (4, 1));
    assert_eq!((limits.threshold_max, limits.target_max), (usize::MAX / 4, usize::MAX / 4));
}
