//! The wake-up cell of a receiver that many senders wake.
use super::will_wake;
use crate::raw::util::{compare_exchange_u8, lemma_idle_flags, lemma_idle_word, swap_u8};
use crate::task::{notified_state, notify_woken, registered_state, registered_waker, Poll};
use vstd::prelude::*;

verus! {

pub const WAITING: u8 = 0;

pub const WOKE: u8 = 1;

pub const REGISTERING: u8 = 2;

pub const WAKING: u8 = 4;

/// What polling `s` for a wake-up answers, when `w` is registered and the
/// poll registers `n`.
pub open spec fn wait_poll_outcome(s: u8, w: Option<u64>, n: u64) -> Poll {
    if s == WAITING {
        if w == Some(n) {
            Poll::Pending
        } else {
            Poll::Ready
        }
    } else if s == WOKE || s == WAKING || s == (WAKING | WOKE) {
        Poll::Ready
    } else {
        Poll::Pending
    }
}

/// The waker of the receiving task, with a flag that a wake-up is pending.
pub struct WaitCell {
    state: u8,
    waker: Option<u64>,
}

impl WaitCell {
    /// The state word.
    pub closed spec fn state(&self) -> u8 {
        self.state
    }

    /// The registered waker, if any.
    pub closed spec fn waker(&self) -> Option<u64> {
        self.waker
    }

    /// An empty cell: no waker, no wake-up.
    pub fn new() -> (c: WaitCell)
        ensures
            c.state() == WAITING,
            c.waker() == None::<u64>,
    {
        WaitCell { state: WAITING, waker: None }
    }

    /// Registers `waker` or consumes a wake-up. `Ready` asks the caller to
    /// check the channel again; `Pending` lets it wait.
    pub fn poll(&mut self, waker: u64) -> (r: Poll)
        ensures
            r == wait_poll_outcome(old(self).state(), old(self).waker(), waker),
            final(self).state() == registered_state(old(self).state()),
            final(self).waker() == registered_waker(old(self).state(), old(self).waker(), waker),
    {
        proof {
            lemma_idle_flags();
            lemma_idle_word(self.state);
        }
        let mut state = self.state;
        if state == WAITING {
            let will_wake = will_wake(&self.waker, waker);
            if !will_wake {
                match compare_exchange_u8(&mut self.state, state, state | REGISTERING) {
                    Ok(_) => {
                        self.waker = Some(waker);
                        if swap_u8(&mut self.state, WAITING) == REGISTERING {
                            return Poll::Ready;
                        }
                        return Poll::Ready;
                    },
                    Err(found) => {
                        state = found;
                    },
                }
            }
        }
        if state == (WAKING | WOKE) {
            match compare_exchange_u8(&mut self.state, state, state - WOKE) {
                Ok(_) => {
                    return Poll::Ready;
                },
                Err(found) => {
                    state = found;
                },
            }
        }
        if state == WOKE {
            self.state = WAITING;
            return Poll::Ready;
        }
        if state == WAKING {
            Poll::Ready
        } else {
            Poll::Pending
        }
    }

    /// Sets the wake-up flag, returning the waker to wake when this call took
    /// the waking lock.
    pub fn wake(&mut self) -> (woken: Option<u64>)
        ensures
            final(self).state() == notified_state(old(self).state()),
            final(self).waker() == old(self).waker(),
            woken == notify_woken(old(self).state(), old(self).waker()),
    {
        let mut state = self.state;
        loop
            invariant
                state == self.state,
                self.state == old(self).state,
                self.waker == old(self).waker,
            decreases 1nat,
        {
            proof {
                lemma_idle_word(state);
            }
            if state & WOKE != 0 {
                return None;
            }
            let mut new = state | WOKE;
            if state & REGISTERING == 0 {
                new = new | WAKING;
            }
            match compare_exchange_u8(&mut self.state, state, new) {
                Ok(prev) if prev == WAITING => {
                    let waker = self.waker;
                    self.state = self.state - WAKING;
                    return waker;
                },
                Ok(_) => {
                    return None;
                },
                Err(found) => {
                    state = found;
                },
            }
        }
    }
}

/// A poll that registers a new waker answers `Ready`; the one after it, with
/// the same waker and no wake-up between, answers `Pending`.
pub proof fn lemma_poll_registers(w: Option<u64>, n: u64)
    ensures
        wait_poll_outcome(registered_state(WAITING), registered_waker(WAITING, w, n), n)
            == Poll::Pending,
{
}

/// A wake-up is not lost: the poll after it answers `Ready`; and once a poll
/// answered `Pending` on a quiet cell, the next wake-up wakes its waker.
pub proof fn lemma_wake_and_poll(s: u8, w: Option<u64>, n: u64)
    requires
        s == WAITING || s == WOKE,
    ensures
        wait_poll_outcome(notified_state(s), w, n) == Poll::Ready,
        wait_poll_outcome(s, w, n) == Poll::Pending ==> notify_woken(
            registered_state(s),
            registered_waker(s, w, n),
        ) == Some(n),
{
    lemma_idle_flags();
}

} // verus!
