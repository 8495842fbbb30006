//! The intercept flag: a single process-wide switch read by the accept
//! loop on every iteration.
//!
//! Transitions are not queued or buffered; a toggle takes effect the next
//! time the loop polls.  Already-open tunnels are never touched, only the
//! servicing of new CONNECT attempts.

use vstd::prelude::*;

verus! {

/// The process-wide enable/disable switch for interception.
///
/// The embedding application owns one instance (behind whatever sharing
/// it needs), writes it through [`toggle_intercept`] and asks
/// [`accept_step`] on every iteration of its accept loop what to do next.
pub struct InterceptGate {
    enabled: bool,
}

/// What the accept loop does on one iteration: service the pending
/// connection, or sleep briefly and poll the flag again.
#[derive(Debug, Clone, Copy, PartialEq, Eq, Structural)]
pub enum AcceptAction {
    /// Accept the pending connection and spawn a tunnel for it.
    Service,
    /// Do not accept anything; sleep and poll again.
    Pause,
}

impl InterceptGate {
    /// A fresh switch starts off: interception is disabled until the
    /// operator turns it on.
    pub fn new() -> (r: InterceptGate)
        ensures
            !r.enabled(),
    {
        InterceptGate { enabled: false }
    }

    /// Whether interception is currently enabled.
    pub closed spec fn enabled(&self) -> bool {
        self.enabled
    }

    /// Reads the flag, as the accept loop does once per iteration.
    pub fn is_enabled(&self) -> (r: bool)
        ensures
            r == self.enabled(),
    {
        self.enabled
    }
}

/// Writes the flag.  The next poll of the accept loop sees the new value;
/// nothing else in the process changes.
pub fn toggle_intercept(gate: &mut InterceptGate, intercept_toggle: bool)
    ensures
        final (gate).enabled() == intercept_toggle,
{
    gate.enabled = intercept_toggle;
}

/// One decision of the accept loop: new CONNECT attempts are serviced
/// exactly while interception is enabled.
pub fn accept_step(gate: &InterceptGate) -> (r: AcceptAction)
    ensures
        r == AcceptAction::Service <==> gate.enabled(),
{
    if gate.is_enabled() {
        AcceptAction::Service
    } else {
        AcceptAction::Pause
    }
}

} // verus!
