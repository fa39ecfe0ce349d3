//! States of a task as the service reports them.

use vstd::prelude::*;

verus! {

/// The state of a task as the service tracks it.
#[derive(Debug, Clone, Copy, PartialEq, Eq, Structural)]
pub enum ServiceTaskStatus {
    Idle,
    Running,
    Completed,
    Stopped,
    Terminated,
    Error,
}

} // verus!
