//! The state of a batch job, as the control surface reports it.
use vstd::prelude::*;

use crate::layout::Keyboard;

verus! {

/// A batch job: not started, running with some groups completed, or
/// completed with each group's best layout and its score (in sixteenths).
#[derive(Clone)]
pub enum AppState {
    Init,
    Running { batch_size: usize, completed: usize },
    Completed(Vec<(u64, Keyboard)>),
}

impl AppState {
    /// A job of `batch_size` groups, none completed yet.
    pub fn new_job(batch_size: usize) -> (r: Self)
        ensures
            r == (AppState::Running { batch_size, completed: 0 }),
    {
        AppState::Running { batch_size, completed: 0 }
    }

    /// Counts one more completed group of a running job; other states stay.
    pub fn add_one_completed(&mut self)
        requires
            *old(self) matches AppState::Running { completed, .. } ==> completed < usize::MAX,
        ensures
            match *old(self) {
                AppState::Running { batch_size, completed } => *final(self) == (AppState::Running {
                    batch_size,
                    completed: (completed + 1) as usize,
                }),
                _ => *final(self) == *old(self),
            },
    {
        if let AppState::Running { completed, .. } = self {
            *completed = *completed + 1;
        }
    }
}

} // verus!
