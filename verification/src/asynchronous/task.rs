//! The ids of asynchronous tasks.
use vstd::prelude::*;

verus! {

/// A task's id.
#[derive(Debug, Clone, Copy, PartialEq, Eq, Structural, PartialOrd, Ord)]
pub struct TaskId {
    id: u64,
}

impl View for TaskId {
    type V = u64;

    closed spec fn view(&self) -> u64 {
        self.id
    }
}

impl TaskId {
    /// A new id: the value of `counter`, which moves on by one (wrapping
    /// around).
    pub fn new(counter: &mut u64) -> (r: TaskId)
        ensures
            r@ == *old(counter),
            *final(counter) == (if *old(counter) == u64::MAX {
                0
            } else {
                (*old(counter) + 1) as u64
            }),
    {
        let id = *counter;
        *counter = counter.wrapping_add(1);
        TaskId { id }
    }
}

} // verus!
