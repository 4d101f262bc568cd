//! Prefill and decode want different numbers of workers.
//!
//! Decoding one token is bound by memory bandwidth, and using every core can slow it
//! down. The phase in which the engine is, and the cap for decoding, live in a
//! `PhaseState` that its owner passes around.

use vstd::prelude::*;

verus! {

/// What the engine is doing.
#[derive(Debug, Clone, Copy, PartialEq, Eq, Structural)]
pub enum ExecutionPhase {
    Prefill,
    Decode,
}

/// The limits of the phases.
#[derive(Debug, Clone, Copy, PartialEq, Eq, Structural)]
pub struct PhaseConfig {
    /// The most workers that decoding uses; 0 for no cap.
    pub decode_max_workers: usize,
    /// The length of the pieces into which prefill is cut; 0 for no cutting.
    pub prefill_chunk_size: usize,
}

/// The phase, and the limits once they are settled.
pub struct PhaseState {
    phase: ExecutionPhase,
    config: Option<PhaseConfig>,
}

impl PhaseState {
    /// The phase.
    pub closed spec fn phase(self) -> ExecutionPhase {
        self.phase
    }

    /// The limits, once they are settled.
    pub closed spec fn settled(self) -> Option<PhaseConfig> {
        self.config
    }

    /// The limits that hold: no cap and no cutting where none were settled.
    pub open spec fn limits(self) -> PhaseConfig {
        match self.settled() {
            Some(config) => config,
            None => PhaseConfig { decode_max_workers: 0, prefill_chunk_size: 0 },
        }
    }

    /// Before anything runs: in prefill, with no limits settled.
    pub fn new() -> (state: Self)
        ensures
            state.phase() is Prefill,
            state.settled() is None,
    {
        PhaseState { phase: ExecutionPhase::Prefill, config: None }
    }
}

/// Enters a phase.
pub fn set_phase(state: &mut PhaseState, phase: ExecutionPhase)
    ensures
        final(state).phase() == phase,
        final(state).settled() == old(state).settled(),
{
    state.phase = phase;
}

/// The phase.
pub fn current_phase(state: &PhaseState) -> (phase: ExecutionPhase)
    ensures
        phase == state.phase(),
{
    state.phase
}

/// The limits. The first one to ask settles them, with no cap and no cutting, where
/// nobody has set them.
pub fn phase_config(state: &mut PhaseState) -> (config: PhaseConfig)
    ensures
        config == old(state).limits(),
        final(state).settled() == Some(config),
        final(state).phase() == old(state).phase(),
{
    match state.config {
        Some(config) => config,
        None => {
            let config = PhaseConfig { decode_max_workers: 0, prefill_chunk_size: 0 };
            state.config = Some(config);
            config
        },
    }
}

/// The workers that a phase may use, of a pool of `pool_size`.
pub open spec fn allowed_workers(phase: ExecutionPhase, limits: PhaseConfig, pool_size: usize) -> usize {
    match phase {
        ExecutionPhase::Prefill => pool_size,
        ExecutionPhase::Decode => if limits.decode_max_workers == 0
            || limits.decode_max_workers > pool_size {
            pool_size
        } else {
            limits.decode_max_workers
        },
    }
}

/// The number of workers to use now: the whole pool in prefill, and no more than the
/// cap in decode where there is one. In decode this asks for the limits and so settles
/// them.
pub fn effective_max_workers(state: &mut PhaseState, pool_size: usize) -> (workers: usize)
    ensures
        workers == allowed_workers(old(state).phase(), old(state).limits(), pool_size),
        final(state).phase() == old(state).phase(),
        final(state).settled() == (if old(state).phase() is Decode {
            Some(old(state).limits())
        } else {
            old(state).settled()
        }),
{
    match current_phase(state) {
        ExecutionPhase::Prefill => pool_size,
        ExecutionPhase::Decode => {
            let cap: usize = phase_config(state).decode_max_workers;
            if cap == 0 || cap > pool_size {
                pool_size
            } else {
                cap
            }
        },
    }
}

/// Settles the limits. Limits that are already settled stay.
pub fn configure_phases(state: &mut PhaseState, decode_max_workers: usize, prefill_chunk_size: usize)
    ensures
        final(state).phase() == old(state).phase(),
        final(state).settled() == (match old(state).settled() {
            Some(config) => Some(config),
            None => Some(PhaseConfig { decode_max_workers, prefill_chunk_size }),
        }),
{
    if state.config.is_none() {
        state.config = Some(PhaseConfig { decode_max_workers, prefill_chunk_size });
    }
}

/// Settled limits never change: whichever of two configurations comes first stays, and
/// asking for the limits counts as configuring none.
pub proof fn law_first_configuration_wins(
    before: PhaseState,
    first: PhaseState,
    second: PhaseState,
    a: PhaseConfig,
    b: PhaseConfig,
)
    requires
        first.settled() == (match before.settled() {
            Some(config) => Some(config),
            None => Some(a),
        }),
        second.settled() == (match first.settled() {
            Some(config) => Some(config),
            None => Some(b),
        }),
    ensures
        second.settled() == first.settled(),
        second.limits() == first.limits(),
        before.settled() is None ==> second.limits() == a,
{
}

/// A phase never uses more workers than the pool has, and uses at least one of a pool
/// that is not empty.
pub proof fn law_workers_within_pool(phase: ExecutionPhase, limits: PhaseConfig, pool_size: usize)
    ensures
        allowed_workers(phase, limits, pool_size) <= pool_size,
        pool_size > 0 ==> allowed_workers(phase, limits, pool_size) > 0,
{
}

/// Prefill uses the whole pool. Decode uses it, too, where there is no cap, and else as
/// many workers as the cap says, as far as the pool has them.
pub proof fn law_cap_holds_in_decode_alone(limits: PhaseConfig, pool_size: usize)
    ensures
        allowed_workers(ExecutionPhase::Prefill, limits, pool_size) == pool_size,
        limits.decode_max_workers == 0 ==> allowed_workers(
            ExecutionPhase::Decode,
            limits,
            pool_size,
        ) == pool_size,
        0 < limits.decode_max_workers <= pool_size ==> allowed_workers(
            ExecutionPhase::Decode,
            limits,
            pool_size,
        ) == limits.decode_max_workers,
        limits.decode_max_workers >= pool_size ==> allowed_workers(
            ExecutionPhase::Decode,
            limits,
            pool_size,
        ) == pool_size,
{
}

/// The limits that hold are those that were settled; before that, nothing is limited.
pub proof fn law_unsettled_limits_limit_nothing(state: PhaseState)
    ensures
        state.settled() matches Some(config) ==> state.limits() == config,
        state.settled() is None ==> state.limits().decode_max_workers == 0
            && state.limits().prefill_chunk_size == 0,
{
}

} // verus!
