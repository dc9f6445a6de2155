//! The wake latch: how a change of configuration reaches a render loop that
//! is blocked.
//!
//! The latch is one flag. The host keeps it behind a lock with a wait
//! primitive beside it; whoever changes the configuration raises the latch
//! and notifies, and the waiter, each time it wakes with the lock held, asks
//! [`block_until_event`] whether to go on or to wait again.

use vstd::prelude::*;

verus! {

/// The latch.
#[derive(Clone, Copy, Debug, PartialEq, Eq, Structural)]
pub struct WakeLatch {
    /// Set while a change of configuration waits to be applied.
    pub raised: bool,
}

impl WakeLatch {
    /// A lowered latch.
    pub fn new() -> (latch: WakeLatch)
        ensures
            !latch.raised,
    {
        WakeLatch { raised: false }
    }

    /// Raises the latch. Raising a raised latch changes nothing: changes that
    /// arrive before the waiter wakes collapse into one wake.
    pub fn raise(&mut self)
        ensures
            final(self).raised,
    {
        self.raised = true;
    }
}

/// One turn of the waiter on a latch that is `raised` or not: whether the
/// waiter goes on, and whether the latch is raised after the turn. The waiter
/// goes on exactly if the latch was raised, and the latch is lowered either
/// way.
pub open spec fn wake_turn(raised: bool) -> (bool, bool) {
    (raised, false)
}

/// One turn of the waiter, taken with the lock held. Returns whether the
/// latch was raised, and leaves it lowered: on `true` the waiter goes on to
/// apply the configuration, on `false` it waits again. A wake without a
/// raised latch is thus never acted on, and a raised latch is acted on once.
pub fn block_until_event(latch: &mut WakeLatch) -> (woken: bool)
    ensures
        (woken, final(latch).raised) == wake_turn(old(latch).raised),
{
    let woken = latch.raised;
    latch.raised = false;
    woken
}

} // verus!
