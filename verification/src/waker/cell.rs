//! A cell holding the waker of one task, woken at most once per registration.
use crate::raw::util::{compare_exchange_u8, lemma_idle_flags, lemma_idle_word, swap_u8};
use vstd::prelude::*;

verus! {

pub const WAITING: u8 = 0;

pub const WOKE: u8 = 1;

pub const REGISTERING: u8 = 2;

pub const WAKING: u8 = 4;

/// The outcome of a registration.
#[derive(Clone, Copy, Debug, PartialEq, Eq, Structural)]
pub enum Status {
    /// The waker is registered: the task may wait.
    Registered,
    /// The task was woken meanwhile: it has to check again.
    Retry,
}

/// Whether the word `s` holds the woken flag.
pub open spec fn is_woke(s: u8) -> bool {
    s & WOKE == WOKE
}

/// Whether a registration of `n` takes the fast path, with `w` registered.
pub open spec fn same_waker(w: Option<u64>, n: u64) -> bool {
    w == Some(n)
}

/// The state word after a registration of `n` on `s` with `w` registered.
pub open spec fn cell_registered_state(s: u8, w: Option<u64>, n: u64) -> u8 {
    if !same_waker(w, n) && s & WAKING == WAKING {
        s | REGISTERING
    } else {
        WAITING
    }
}

/// The registered waker after a registration of `n` on `s` with `w` registered.
pub open spec fn cell_registered_waker(s: u8, w: Option<u64>, n: u64) -> Option<u64> {
    if same_waker(w, n) || s & WAKING == WAKING {
        w
    } else {
        Some(n)
    }
}

/// What a registration of `n` on `s` with `w` registered answers.
pub open spec fn cell_register_status(s: u8, w: Option<u64>, n: u64) -> Status {
    if same_waker(w, n) {
        if is_woke(s) {
            Status::Retry
        } else {
            Status::Registered
        }
    } else if s & WAKING == WAKING || is_woke(s | REGISTERING) {
        Status::Retry
    } else {
        Status::Registered
    }
}

/// The state word after a wake-up on `s`.
pub open spec fn cell_woken_state(s: u8) -> u8 {
    if s == WAITING {
        WOKE
    } else if is_woke(s) {
        s
    } else {
        (s | WAKING) | WOKE
    }
}

/// A task's waker, with a flag that a wake-up is pending.
pub struct Cell {
    state: u8,
    waker: Option<u64>,
}

impl Cell {
    /// The state word.
    pub closed spec fn state(&self) -> u8 {
        self.state
    }

    /// The registered waker, if any.
    pub closed spec fn waker(&self) -> Option<u64> {
        self.waker
    }

    /// An empty cell: no waker, no wake-up.
    pub fn new() -> (c: Cell)
        ensures
            c.state() == WAITING,
            c.waker() == None::<u64>,
    {
        Cell { state: WAITING, waker: None }
    }

    /// Clears the state word, returning whether a wake-up was pending.
    pub fn reset(&mut self) -> (r: bool)
        ensures
            r == is_woke(old(self).state()),
            final(self).state() == WAITING,
            final(self).waker() == old(self).waker(),
    {
        let prev = swap_u8(&mut self.state, WAITING);
        prev & WOKE == WOKE
    }

    /// Registers the waker `waker`.
    pub fn register(&mut self, waker: u64) -> (r: Status)
        ensures
            r == cell_register_status(old(self).state(), old(self).waker(), waker),
            final(self).state() == cell_registered_state(
                old(self).state(),
                old(self).waker(),
                waker,
            ),
            final(self).waker() == cell_registered_waker(old(self).state(), old(self).waker(), waker),
    {
        // fast path: the correct waker is already registered
        let will_wake = match self.waker {
            Some(w) => w == waker,
            None => false,
        };
        if will_wake {
            let prev = swap_u8(&mut self.state, WAITING);
            if prev & WOKE == WOKE {
                return Status::Retry;
            } else {
                return Status::Registered;
            }
        }
        // otherwise the new waker has to be registered

        let mut state = self.state;
        loop
            invariant_except_break
                state == self.state,
                self.state == old(self).state,
            invariant
                self.waker == old(self).waker,
                !will_wake,
                will_wake == same_waker(old(self).waker, waker),
            ensures
                self.state == old(self).state | REGISTERING,
                old(self).state & WAKING != WAKING,
            decreases 1nat,
        {
            let locked = state | REGISTERING;
            match compare_exchange_u8(&mut self.state, state, locked) {
                Ok(prev) => {
                    // someone is waking the current task
                    if prev & WAKING == WAKING {
                        return Status::Retry;
                    }
                    break ;
                },
                Err(found) => {
                    if found & WAKING == WAKING {
                        return Status::Retry;
                    }
                    state = found;
                },
            }
        }
        // we hold the lock

        self.waker = Some(waker);
        // release the lock and reset the state
        let prev = swap_u8(&mut self.state, WAITING);
        if prev & WOKE == WOKE {
            Status::Retry
        } else {
            Status::Registered
        }
    }

    /// Wakes the task, returning whether this call set the wake-up and took
    /// the waking lock, with the waker to wake.
    pub fn wake(&mut self) -> (r: (bool, Option<u64>))
        ensures
            r.0 == (old(self).state() == WAITING),
            r.1 == (if old(self).state() == WAITING {
                old(self).waker()
            } else {
                None
            }),
            final(self).state() == cell_woken_state(old(self).state()),
            final(self).waker() == old(self).waker(),
    {
        proof {
            lemma_idle_flags();
        }
        let mut state = self.state;
        loop
            invariant
                state == self.state,
                self.state == old(self).state,
                self.waker == old(self).waker,
            decreases 1nat,
        {
            proof {
                lemma_idle_word(state);
            }
            let update = if state & WOKE == WOKE {
                state
            } else {
                (state | WAKING) | WOKE
            };
            match compare_exchange_u8(&mut self.state, state, update) {
                // acquired the lock
                Ok(prev) if prev == WAITING => {
                    assert(self.state == 5u8);
                    proof {
                        lemma_idle_word(self.state);
                    }
                    let waker = self.waker;
                    // release the lock
                    self.state = self.state & !WAKING;
                    return (true, waker);
                },
                // the task is already woken, someone else wakes it, or a new
                // waker is being registered and sees the update
                Ok(_) => {
                    return (false, None);
                },
                // someone else woke
                Err(found) if found & (WOKE | WAKING) != 0 => {
                    return (false, None);
                },
                // a new waker is being registered: retry
                Err(found) => {
                    state = found;
                },
            }
        }
    }
}

/// A wake-up is not lost: after a wake-up on a quiet cell, the next
/// registration answers `Retry`, whatever waker it registers.
pub proof fn lemma_wake_then_register(s: u8, w: Option<u64>, n: u64)
    requires
        s == WAITING || s == WOKE,
    ensures
        cell_register_status(cell_woken_state(s), w, n) == Status::Retry,
{
    lemma_idle_flags();
}

/// After a registration that answers `Registered`, the next wake-up takes the
/// lock and wakes exactly the waker that was registered.
pub proof fn lemma_register_then_wake(s: u8, w: Option<u64>, n: u64)
    ensures
        cell_register_status(s, w, n) == Status::Registered ==> cell_registered_state(s, w, n)
            == WAITING && cell_registered_waker(s, w, n) == Some(n),
{
    lemma_idle_word(s);
}

/// A reset after a wake-up reports it.
pub proof fn lemma_wake_then_reset(s: u8)
    ensures
        is_woke(cell_woken_state(s)),
{
    lemma_idle_flags();
    lemma_idle_word(s);
}

} // verus!
