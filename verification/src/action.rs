use vstd::prelude::*;
use crate::error::ReconcileError;
use crate::resource::Echo;

verus! {

/// What the scheduler does with a resource once a reconciliation attempt has ended.
#[derive(Clone, Copy, Debug, PartialEq, Eq, Structural)]
pub enum Action {
    /// Run the next attempt no sooner than `secs` seconds from now.
    RequeueAfter { secs: u64 },
    /// Set no timer; only a new change to the resource starts another attempt.
    NoRequeue,
    /// Set no timer and rely on the event that reports the resource's removal.
    AwaitExternalChange,
}

/// Seconds until the attempt that follows a successful apply.
pub const SETTLED_REQUEUE_SECS: u64 = 300;

/// Seconds until the attempt that follows a failed one.
pub const ERROR_REQUEUE_SECS: u64 = 5;

impl Action {
    /// The delay after which the scheduler sets a timer, if it sets one.
    pub open spec fn delay(self) -> Option<u64> {
        match self {
            Action::RequeueAfter { secs } => Some(secs),
            Action::NoRequeue => None,
            Action::AwaitExternalChange => None,
        }
    }

    /// The delay of the timer that this action asks for; `None` where it asks for none.
    pub fn requeue_delay(&self) -> (out: Option<u64>)
        ensures
            out == self.delay(),
    {
        match self {
            Action::RequeueAfter { secs } => Some(*secs),
            Action::NoRequeue => None,
            Action::AwaitExternalChange => None,
        }
    }
}

/// Decides what follows a failed attempt: always another attempt, after a fixed positive delay.
/// Neither the resource nor the cause changes the delay, and no failure ends the retries.
pub fn error_policy(echo: &Echo, error: &ReconcileError) -> (out: Action)
    ensures
        out == (Action::RequeueAfter { secs: ERROR_REQUEUE_SECS }),
        out matches Action::RequeueAfter { secs } && secs > 0,
{
    Action::RequeueAfter { secs: ERROR_REQUEUE_SECS }
}

} // verus!
