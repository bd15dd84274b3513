//! Pause/resume and termination coordination, modelled as plain state.
//!
//! The scanner's workers all honour one shared pause flag and per-worker
//! one-shot termination signals. The flag itself and the decisions taken
//! from it live here; the blocking (condition variable, channels) is the
//! shell's business.

use vstd::prelude::*;

verus! {

/// The shared run state: a single pause flag observed by every worker at
/// the top of each loop iteration.
pub struct RunState {
    pub paused: bool,
}

impl RunState {
    /// A scan starts running, not paused.
    pub fn new() -> (r: Self)
        ensures
            !r.paused,
    {
        RunState { paused: false }
    }

    /// Whether a worker arriving at its checkpoint must wait before
    /// doing any further work.
    pub fn act_state(&self) -> (wait: bool)
        ensures
            wait == self.paused,
    {
        self.paused
    }

    /// Flip the pause flag: a running scan pauses, a paused scan resumes.
    pub fn toogle(&mut self)
        ensures
            final(self).paused == !old(self).paused,
    {
        self.paused = !self.paused;
    }
}

/// The one-shot signal a worker can receive on its control channel.
pub enum ThreadControlMessage {
    Die,
}

} // verus!
