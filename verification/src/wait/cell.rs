//! A wake-up cell that a registration answers with a `Status`.
use super::{will_wake, Status};
use crate::raw::util::{compare_exchange_u8, lemma_idle_flags, lemma_idle_word, swap_u8};
use crate::task::{notified_state, notify_woken, registered_state, registered_waker};
use vstd::prelude::*;

verus! {

pub const WAITING: u8 = 0;

pub const WOKE: u8 = 1;

pub const REGISTERING: u8 = 2;

pub const WAKING: u8 = 4;

/// What a registration of `n` on `s` answers, with `w` registered.
pub open spec fn wait_register_status(s: u8) -> Status {
    if s == WOKE || s == WAKING || s == (WAKING | WOKE) {
        Status::Awoke
    } else {
        Status::Registered
    }
}

/// A task's waker, with a flag that a wake-up is pending.
pub struct Cell {
    state: u8,
    waker: Option<u64>,
}

impl Cell {
    /// The state word.
    pub closed spec fn state(&self) -> u8 {
        self.state
    }

    /// The registered waker, if any.
    pub closed spec fn waker(&self) -> Option<u64> {
        self.waker
    }

    /// An empty cell: no waker, no wake-up.
    pub fn new() -> (c: Cell)
        ensures
            c.state() == WAITING,
            c.waker() == None::<u64>,
    {
        Cell { state: WAITING, waker: None }
    }

    /// Registers the waker `waker`, or consumes a pending wake-up.
    pub fn register(&mut self, waker: u64) -> (r: Status)
        ensures
            r == wait_register_status(old(self).state()),
            final(self).state() == registered_state(old(self).state()),
            final(self).waker() == registered_waker(old(self).state(), old(self).waker(), waker),
    {
        proof {
            lemma_idle_flags();
            lemma_idle_word(self.state);
        }
        let mut state = self.state;
        if state == WAITING {
            let will_wake = will_wake(&self.waker, waker);
            if !will_wake {
                match compare_exchange_u8(&mut self.state, state, state | REGISTERING) {
                    Ok(_) => {
                        self.waker = Some(waker);
                        if swap_u8(&mut self.state, WAITING) == REGISTERING {
                            return Status::Registered;
                        }
                        return Status::Awoke;
                    },
                    Err(found) => {
                        state = found;
                    },
                }
            }
        }
        if state == (WAKING | WOKE) {
            match compare_exchange_u8(&mut self.state, state, state - WOKE) {
                Ok(_) => {
                    return Status::Awoke;
                },
                Err(found) => {
                    state = found;
                },
            }
        }
        if state == WOKE {
            self.state = WAITING;
            return Status::Awoke;
        }
        if state == WAKING {
            Status::Awoke
        } else {
            Status::Registered
        }
    }

    /// Sets the wake-up flag, returning the waker to wake when this call took
    /// the waking lock.
    pub fn wake(&mut self) -> (woken: Option<u64>)
        ensures
            final(self).state() == notified_state(old(self).state()),
            final(self).waker() == old(self).waker(),
            woken == notify_woken(old(self).state(), old(self).waker()),
    {
        let mut state = self.state;
        loop
            invariant
                state == self.state,
                self.state == old(self).state,
                self.waker == old(self).waker,
            decreases 1nat,
        {
            proof {
                lemma_idle_word(state);
            }
            if state & WOKE != 0 {
                return None;
            }
            let mut new = state | WOKE;
            if state & REGISTERING == 0 {
                new = new | WAKING;
            }
            match compare_exchange_u8(&mut self.state, state, new) {
                Ok(prev) if prev == WAITING => {
                    let waker = self.waker;
                    self.state = self.state - WAKING;
                    return waker;
                },
                Ok(_) => {
                    return None;
                },
                Err(found) => {
                    state = found;
                },
            }
        }
    }
}

/// After a registration that answers `Registered` on a quiet cell, the next
/// wake-up wakes exactly the waker that was registered.
pub proof fn lemma_register_then_wake(s: u8, w: Option<u64>, n: u64)
    requires
        s == WAITING || s == WOKE,
    ensures
        wait_register_status(s) == Status::Registered ==> notify_woken(
            registered_state(s),
            registered_waker(s, w, n),
        ) == Some(n),
{
}

/// A wake-up is not lost: a registration after it answers `Awoke`, and leaves
/// a quiet cell waiting again.
pub proof fn lemma_wake_then_register(s: u8)
    requires
        s == WAITING || s == WOKE,
    ensures
        wait_register_status(notified_state(s)) == Status::Awoke,
        registered_state(notified_state(s)) == WAITING,
{
    lemma_idle_flags();
}

} // verus!
