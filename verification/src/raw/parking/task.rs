//! A task that parks until it is unparked.
use super::signal::Signal;
use crate::raw::util::{compare_exchange_u8, lemma_idle_flags, lemma_idle_word, swap_u8};
use crate::task::{
    notified_state,
    notify_woken,
    register_outcome,
    registered_state,
    registered_waker,
    Poll,
};
use vstd::prelude::*;

verus! {

// the task is parked
pub const PARKED: u8 = 0;

// the task was unparked
pub const UNPARKED: u8 = 1;

// the task is registering a waker
pub const REGISTERING: u8 = 2;

// someone is currently waking the task
pub const WAKING: u8 = 4;

/// The state words that a registration can find: no registration is under
/// way, since the task is the only one that registers.
pub open spec fn registrable(s: u8) -> bool {
    s == PARKED || s == UNPARKED || s == WAKING || s == (WAKING | UNPARKED)
}

/// An asynchronous task that can be parked and unparked.
pub struct Task {
    state: Signal<u8>,
    waker: Option<u64>,
}

impl Task {
    /// The state word.
    pub closed spec fn state(&self) -> u8 {
        self.state.0
    }

    /// The registered waker, if any.
    pub closed spec fn waker(&self) -> Option<u64> {
        self.waker
    }

    /// Creates a parked task with no waker.
    pub fn new() -> (t: Task)
        ensures
            t.state() == PARKED,
            t.waker() == None::<u64>,
    {
        Task { state: Signal::new(PARKED), waker: None }
    }

    /// Registers a waker to be unparked.
    ///
    /// `Pending`: the waker is registered and the task should park. `Ready`:
    /// the unpark token was set and the resource should be checked again.
    pub fn register(&mut self, waker: u64) -> (r: Poll)
        requires
            registrable(old(self).state()),
        ensures
            r == register_outcome(old(self).state()),
            final(self).state() == registered_state(old(self).state()),
            final(self).waker() == registered_waker(old(self).state(), old(self).waker(), waker),
    {
        proof {
            lemma_idle_flags();
            lemma_idle_word(self.state.0);
        }
        let mut state = self.state.load_acquire();
        // the unpark token is not set: register the waker
        if state == PARKED {
            let will_wake = match self.waker {
                Some(w) => w == waker,
                None => false,
            };
            // the same waker is registered already
            if will_wake {
                return Poll::Pending;
            }
            // take the registration lock
            match compare_exchange_u8(&mut self.state.0, state, state | REGISTERING) {
                Ok(_) => {
                    self.waker = Some(waker);
                    // release the lock
                    let current = swap_u8(&mut self.state.0, PARKED);
                    if current == REGISTERING {
                        return Poll::Pending;
                    }
                    // someone tried to wake us meanwhile
                    return Poll::Ready;
                },
                // someone is waking the old waker
                Err(found) => {
                    state = found;
                },
            }
        }
        // the token is set and the old waker is being woken: take the token,
        // keeping the waking flag
        if state == (WAKING | UNPARKED) {
            match compare_exchange_u8(&mut self.state.0, state, state - UNPARKED) {
                Ok(_) => {
                    return Poll::Ready;
                },
                Err(found) => {
                    state = found;
                },
            }
        }
        // the token is set and nobody wakes: consume it
        if state == UNPARKED {
            self.state.0 = PARKED;
            return Poll::Ready;
        }
        // the token was consumed by an earlier call but the waker is still
        // being woken: retry
        Poll::Ready
    }

    /// Unparks the task: sets the token that `register` consumes, and returns
    /// the registered waker to wake when this call took the waking lock.
    pub fn unpark(&mut self) -> (woken: Option<u64>)
        ensures
            final(self).state() == notified_state(old(self).state()),
            final(self).waker() == old(self).waker(),
            woken == notify_woken(old(self).state(), old(self).waker()),
    {
        let mut state = self.state.load_release();
        loop
            invariant
                state == self.state.0,
                self.state.0 == old(self).state.0,
                self.waker == old(self).waker,
            decreases 1nat,
        {
            proof {
                lemma_idle_word(state);
            }
            // the token is already set: the task will see it
            if state & UNPARKED != 0 {
                return None;
            }
            let mut new = state | UNPARKED;
            // a registering task sees the token; otherwise take the waking lock
            if state & REGISTERING == 0 {
                new = new | WAKING;
            }
            match compare_exchange_u8(&mut self.state.0, state, new) {
                Ok(prev) if prev == PARKED => {
                    let waker = self.waker;
                    self.state.0 = self.state.0 - WAKING;
                    return waker;
                },
                Ok(_) => {
                    return None;
                },
                Err(found) => {
                    state = found;
                },
            }
        }
    }
}

/// Every word that unparking leaves behind, from a word that a registration
/// can find, can be registered on again; and so can every word a registration
/// leaves behind.
pub proof fn lemma_registrable_closed(s: u8)
    requires
        registrable(s),
    ensures
        registrable(notified_state(s)),
        registrable(registered_state(s)),
{
    lemma_idle_flags();
    lemma_idle_word(s);
}

} // verus!
