//! Feed-forward blocks: their weights, and the order in which they are used.

use vstd::prelude::*;

verus! {

/// How a block combines its gate projection with its input.
#[derive(Debug, Clone, Copy, PartialEq, Eq, Structural)]
pub enum MlpActivation {
    /// The sigmoid-weighted gate projection times the input.
    SwiGLU,
    /// The tanh approximation of the Gaussian error unit of the projection, times the input.
    GeluTanh,
}

/// A feed-forward block. The weights are the caller's.
pub struct GenericMLP<W> {
    pub gate_proj: W,
    pub up_proj: W,
    pub down_proj: W,
    pub hidden_size: usize,
    pub intermediate_size: usize,
    pub activation: MlpActivation,
}

/// One step of a block on one token.
#[derive(Debug, Clone, Copy, PartialEq, Eq, Structural)]
pub enum MlpStep {
    /// Ask the backend to project and to activate at once.
    TryFused,
    /// Compute both projections to the inner size.
    GateUp,
    /// Combine the two projections.
    Activate,
    /// Project back.
    Down,
    Done,
}

/// The step behind `last`, or the first one. `fused` says whether the backend did what
/// it was asked to try.
pub open spec fn step_after(
    activation: MlpActivation,
    last: Option<MlpStep>,
    fused: bool,
) -> MlpStep {
    match last {
        None => if activation is SwiGLU {
            MlpStep::TryFused
        } else {
            MlpStep::GateUp
        },
        Some(MlpStep::TryFused) => if fused {
            MlpStep::Down
        } else {
            MlpStep::GateUp
        },
        Some(MlpStep::GateUp) => MlpStep::Activate,
        Some(MlpStep::Activate) => MlpStep::Down,
        Some(MlpStep::Down) => MlpStep::Done,
        Some(MlpStep::Done) => MlpStep::Done,
    }
}

impl<W> GenericMLP<W> {
    /// The step that a block takes next on one token.
    pub fn forward_decode(&self, last: Option<MlpStep>, fused: bool) -> (next: MlpStep)
        ensures
            next == step_after(self.activation, last, fused),
    {
        match last {
            None => match self.activation {
                MlpActivation::SwiGLU => MlpStep::TryFused,
                MlpActivation::GeluTanh => MlpStep::GateUp,
            },
            Some(MlpStep::TryFused) => if fused {
                MlpStep::Down
            } else {
                MlpStep::GateUp
            },
            Some(MlpStep::GateUp) => MlpStep::Activate,
            Some(MlpStep::Activate) => MlpStep::Down,
            Some(MlpStep::Down) => MlpStep::Done,
            Some(MlpStep::Done) => MlpStep::Done,
        }
    }
}

/// Whether the backend fuses or not, the activation is applied once before the projection
/// back, and the projection back comes last.
pub proof fn law_gate_then_down(activation: MlpActivation, fused: bool)
    ensures
        ({
            let first = step_after(activation, None, fused);
            let second = step_after(activation, Some(first), fused);
            let third = step_after(activation, Some(second), fused);
            let fourth = step_after(activation, Some(third), fused);
            let fifth = step_after(activation, Some(fourth), fused);
            if activation is SwiGLU && fused {
                first is TryFused && second is Down && third is Done
            } else if activation is SwiGLU {
                first is TryFused && second is GateUp && third is Activate && fourth is Down
                    && fifth is Done
            } else {
                first is GateUp && second is Activate && third is Down && fourth is Done
            }
        }),
{
}

/// Only a block whose activation the backend can fuse asks it to; what it did not do is
/// then done in steps, and what it did is not done again.
pub proof fn law_fusing_is_tried_once(activation: MlpActivation, last: Option<MlpStep>, fused: bool)
    ensures
        step_after(activation, last, fused) is TryFused <==> last is None && activation is SwiGLU,
        step_after(activation, last, fused) is GateUp <==> (last is None && activation is GeluTanh)
            || (last == Some(MlpStep::TryFused) && !fused),
        step_after(activation, last, fused) is Activate <==> last == Some(MlpStep::GateUp),
        step_after(activation, last, fused) is Down <==> last == Some(MlpStep::Activate) || (last
            == Some(MlpStep::TryFused) && fused),
        step_after(activation, last, fused) is Done <==> last == Some(MlpStep::Down) || last
            == Some(MlpStep::Done),
{
}

} // verus!
