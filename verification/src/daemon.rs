//! The render loop's pacing: when to service the compositor again, when to
//! block until the configuration changes, and when to end.

use vstd::prelude::*;

verus! {

/// The number of round trips to the compositor after which the loop goes
/// straight on to the next, so that the outputs that exist at start are all
/// known before it blocks. The loop first blocks after the round trip that
/// follows these, the twelfth.
pub const WARM_UP_ROUNDS: u32 = 11;

/// What the render loop does after a round trip.
#[derive(Clone, Copy, Debug, PartialEq, Eq, Structural)]
pub enum LoopStep {
    /// Make another round trip.
    Dispatch,
    /// Block until the latch is raised, apply the configuration, then make
    /// another round trip.
    Wait,
    /// End the loop: the session is over.
    Exit,
}

/// The render loop's own state.
#[derive(Clone, Copy, Debug, PartialEq, Eq, Structural)]
pub struct RenderLoop {
    /// Round trips made during the warm-up; never above [`WARM_UP_ROUNDS`].
    pub rounds: u32,
}

/// The step after a round trip made with `rounds` warm-up rounds behind.
pub open spec fn step_after(rounds: u32, exit: bool) -> LoopStep {
    if exit {
        LoopStep::Exit
    } else if rounds < WARM_UP_ROUNDS {
        LoopStep::Dispatch
    } else {
        LoopStep::Wait
    }
}

/// The warm-up rounds behind after one more round trip.
pub open spec fn rounds_after(rounds: u32, exit: bool) -> u32 {
    if !exit && rounds < WARM_UP_ROUNDS {
        (rounds + 1) as u32
    } else {
        rounds
    }
}

impl RenderLoop {
    /// Whether the count of warm-up rounds is within its bound.
    pub open spec fn wf(self) -> bool {
        self.rounds <= WARM_UP_ROUNDS
    }

    /// The loop before its first round trip.
    pub fn new() -> (state: RenderLoop)
        ensures
            state.rounds == 0,
            state.wf(),
    {
        RenderLoop { rounds: 0 }
    }

    /// Decides the step after a round trip. `exit` says whether the registry
    /// has seen the session end.
    pub fn after_roundtrip(&mut self, exit: bool) -> (step: LoopStep)
        ensures
            step == step_after(old(self).rounds, exit),
            final(self).rounds == rounds_after(old(self).rounds, exit),
            old(self).wf() ==> final(self).wf(),
    {
        if exit {
            LoopStep::Exit
        } else if self.rounds < WARM_UP_ROUNDS {
            self.rounds = self.rounds + 1;
            LoopStep::Dispatch
        } else {
            LoopStep::Wait
        }
    }
}

/// The rounds behind after `n` round trips from the start, none of which saw
/// the session end.
pub open spec fn rounds_after_trips(n: nat) -> u32
    decreases n,
{
    if n == 0 {
        0
    } else {
        rounds_after(rounds_after_trips((n - 1) as nat), false)
    }
}

/// The loop blocks for the first time after its twelfth round trip, and after
/// every round trip from then on.
pub proof fn lemma_warm_up_then_wait(n: nat)
    requires
        n >= 1,
    ensures
        rounds_after_trips(n) == if n <= WARM_UP_ROUNDS {
            n
        } else {
            WARM_UP_ROUNDS as nat
        },
        step_after(rounds_after_trips((n - 1) as nat), false) == if n <= WARM_UP_ROUNDS {
            LoopStep::Dispatch
        } else {
            LoopStep::Wait
        },
    decreases n,
{
    if n > 1 {
        lemma_warm_up_then_wait((n - 1) as nat);
    }
}

} // verus!
