//! Wake-up cells and queues for tasks that wait on a channel.
pub mod cell;
pub mod mpmc;
pub mod mpsc;
pub mod queue;
pub mod spsc;

use vstd::prelude::*;

verus! {

/// The outcome of a registration.
#[derive(Clone, Copy, Debug, PartialEq, Eq, Structural)]
pub enum Status {
    /// The waker is registered: the task may wait.
    Registered,
    /// The task was woken: it has to check again.
    Awoke,
}

/// Whether the registered waker `curr` wakes the task of `new`.
pub fn will_wake(curr: &Option<u64>, new: u64) -> (r: bool)
    ensures
        r == (*curr == Some(new)),
{
    match curr {
        Some(w) => *w == new,
        None => false,
    }
}

} // verus!
