use vstd::prelude::*;

verus! {

/// Where a capture session stands. It only moves forward: a stopped session
/// is never started again.
#[derive(Debug, Copy, Clone, PartialEq, Eq, Structural)]
pub enum CaptureState {
    /// Constructed; no capture thread yet.
    Idle,
    /// The capture thread runs and input is registered.
    Running,
    /// The shutdown signal is raised; the thread is being joined.
    Stopping,
    /// The thread has been joined and its window destroyed.
    Stopped,
}

/// What happens to a capture session.
#[derive(Debug, Copy, Clone, PartialEq, Eq, Structural)]
pub enum LifecycleEvent {
    /// The capture thread was spawned.
    Start,
    /// The shutdown signal was raised.
    Shutdown,
    /// The capture thread was joined.
    Joined,
}

/// The state that `e` leads to from `s`, or `None` where `e` is not allowed.
pub open spec fn next_state(s: CaptureState, e: LifecycleEvent) -> Option<CaptureState> {
    match (s, e) {
        (CaptureState::Idle, LifecycleEvent::Start) => Some(CaptureState::Running),
        (CaptureState::Running, LifecycleEvent::Shutdown) => Some(CaptureState::Stopping),
        (CaptureState::Stopping, LifecycleEvent::Joined) => Some(CaptureState::Stopped),
        _ => None,
    }
}

/// The position of a state along the lifecycle.
pub open spec fn rank(s: CaptureState) -> nat {
    match s {
        CaptureState::Idle => 0,
        CaptureState::Running => 1,
        CaptureState::Stopping => 2,
        CaptureState::Stopped => 3,
    }
}

impl CaptureState {
    /// The state after `e`, or `None` where `e` is not allowed from `self`.
    pub fn advance(self, e: LifecycleEvent) -> (r: Option<CaptureState>)
        ensures
            r == next_state(self, e),
    {
        match (self, e) {
            (CaptureState::Idle, LifecycleEvent::Start) => Some(CaptureState::Running),
            (CaptureState::Running, LifecycleEvent::Shutdown) => Some(CaptureState::Stopping),
            (CaptureState::Stopping, LifecycleEvent::Joined) => Some(CaptureState::Stopped),
            _ => None,
        }
    }
}

/// Every allowed transition moves one step forward, so no state is ever
/// entered twice and nothing leaves `Stopped`.
pub proof fn lemma_forward_only(s: CaptureState, e: LifecycleEvent)
    ensures
        next_state(s, e) matches Some(t) ==> rank(t) == rank(s) + 1,
        s == CaptureState::Stopped ==> next_state(s, e) is None,
{
}

} // verus!
