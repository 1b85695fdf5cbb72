//! The engine's lifecycle: launching and shutting down happen once each.

use vstd::prelude::*;

verus! {

/// Where the engine is in its lifecycle.
#[derive(Debug, Clone, Copy, PartialEq, Eq, Structural)]
pub struct Lifecycle {
    pub launched: bool,
    pub shut_down: bool,
}

/// The lifecycle after a launch request.
pub open spec fn after_launch(l: Lifecycle) -> Lifecycle {
    Lifecycle { launched: l.launched || !l.shut_down, shut_down: l.shut_down }
}

/// The lifecycle after a shutdown request.
pub open spec fn after_shutdown(l: Lifecycle) -> Lifecycle {
    Lifecycle { launched: l.launched, shut_down: true }
}

impl Lifecycle {
    pub fn new() -> (r: Lifecycle)
        ensures
            !r.launched,
            !r.shut_down,
    {
        Lifecycle { launched: false, shut_down: false }
    }

    /// Requests a launch. Returns whether the caller must start the channel
    /// loop and the cleanup task now: only the first request before shutdown
    /// does.
    pub fn launch(&mut self) -> (r: bool)
        ensures
            *final(self) == after_launch(*old(self)),
            r == (!old(self).launched && !old(self).shut_down),
    {
        if self.launched || self.shut_down {
            false
        } else {
            self.launched = true;
            true
        }
    }

    /// Requests a shutdown. Returns whether the caller must raise the shutdown
    /// signal, abort the processes and stop the channel now: only the first
    /// request does.
    pub fn shutdown(&mut self) -> (r: bool)
        ensures
            *final(self) == after_shutdown(*old(self)),
            r == !old(self).shut_down,
    {
        if self.shut_down {
            false
        } else {
            self.shut_down = true;
            true
        }
    }
}

/// Launching twice is launching once, and shutting down twice is shutting
/// down once; the second request asks the caller to do nothing.
pub proof fn lemma_lifecycle_idempotent(l: Lifecycle)
    ensures
        after_launch(after_launch(l)) == after_launch(l),
        after_shutdown(after_shutdown(l)) == after_shutdown(l),
        after_launch(l).launched || after_launch(l).shut_down,
        after_shutdown(l).shut_down,
{
}

} // verus!
