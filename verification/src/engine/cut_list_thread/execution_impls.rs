//! The search's life cycle.

use vstd::prelude::*;
use crate::engine::cut_list_thread::structs::{CutListThread, Status};

verus! {

impl CutListThread {
    /// Stops the search.
    pub fn terminate(&mut self)
        ensures
            *final(self) == (CutListThread { status: Status::Terminated, ..*old(self) }),
    {
        self.status = Status::Terminated;
    }

    pub fn is_running(&self) -> (b: bool)
        ensures
            b == (self.status == Status::Running),
    {
        matches!(self.status, Status::Running)
    }

    pub fn is_finished(&self) -> (b: bool)
        ensures
            b == (self.status == Status::Finished),
    {
        matches!(self.status, Status::Finished)
    }

    pub fn has_error(&self) -> (b: bool)
        ensures
            b == (self.status == Status::Error),
    {
        matches!(self.status, Status::Error)
    }

    pub fn is_terminated(&self) -> (b: bool)
        ensures
            b == (self.status == Status::Terminated),
    {
        matches!(self.status, Status::Terminated)
    }
}

} // verus!
