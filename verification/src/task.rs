//! A wake-up primitive shared by many notifiers and one waiting task.
//!
//! Wakers are named by plain ids: two ids are equal exactly when they wake the
//! same task. An operation that has to wake a task returns the id of the waker
//! to wake, and the caller performs the wake-up.
use crate::raw::util::{compare_exchange_u8, lemma_idle_flags, lemma_idle_word, swap_u8};
use vstd::prelude::*;

verus! {

// No active notifications.
pub const IDLE: u8 = 0;

// The task was notified.
pub const NOTIFIED: u8 = 1;

// A write-lock for registering a waker.
pub const REGISTERING: u8 = 2;

// A read-lock for waking a task.
pub const WAKING: u8 = 4;

/// Whether a wait is over (`Ready`) or the task has to wait for a wake-up (`Pending`).
#[derive(Clone, Copy, Debug, PartialEq, Eq, Structural)]
pub enum Poll {
    Ready,
    Pending,
}

/// The state word after a notification on `s`.
pub open spec fn notified_state(s: u8) -> u8 {
    if s & NOTIFIED != 0 {
        s
    } else if s == IDLE {
        NOTIFIED
    } else if s & REGISTERING == 0 {
        (s | NOTIFIED) | WAKING
    } else {
        s | NOTIFIED
    }
}

/// The waker that a notification on `s` wakes, with `w` registered.
pub open spec fn notify_woken(s: u8, w: Option<u64>) -> Option<u64> {
    if s == IDLE {
        w
    } else {
        None
    }
}

/// The state word after a registration on `s`.
pub open spec fn registered_state(s: u8) -> u8 {
    if s == IDLE {
        IDLE
    } else if s == (WAKING | NOTIFIED) {
        WAKING
    } else if s == NOTIFIED {
        IDLE
    } else {
        s
    }
}

/// The registered waker after registering `n` on `s`, with `w` registered before.
pub open spec fn registered_waker(s: u8, w: Option<u64>, n: u64) -> Option<u64> {
    if s == IDLE {
        Some(n)
    } else {
        w
    }
}

/// What a registration on `s` answers.
pub open spec fn register_outcome(s: u8) -> Poll {
    if s == IDLE {
        Poll::Pending
    } else {
        Poll::Ready
    }
}

/// A multi-producer single-consumer task wakeup primitive.
pub struct AtomicWaker {
    state: u8,
    waker: Option<u64>,
}

impl AtomicWaker {
    /// The state word.
    pub closed spec fn state(&self) -> u8 {
        self.state
    }

    /// The registered waker, if any.
    pub closed spec fn waker(&self) -> Option<u64> {
        self.waker
    }

    /// Creates a new `AtomicWaker`.
    pub fn new() -> (w: Self)
        ensures
            w.state() == IDLE,
            w.waker() == None::<u64>,
    {
        AtomicWaker { state: IDLE, waker: None }
    }

    /// Sends a notification if a waker is registered.
    pub fn notify(&mut self) -> (woken: Option<u64>)
        ensures
            final(self).state() == notified_state(old(self).state()),
            final(self).waker() == old(self).waker(),
            woken == notify_woken(old(self).state(), old(self).waker()),
    {
        self.notify_seqcst()
    }

    /// Sends a notification if a waker is registered.
    ///
    /// Returns the waker to wake, when this call took the waking lock.
    pub fn notify_seqcst(&mut self) -> (woken: Option<u64>)
        ensures
            final(self).state() == notified_state(old(self).state()),
            final(self).waker() == old(self).waker(),
            woken == notify_woken(old(self).state(), old(self).waker()),
    {
        proof {
            lemma_idle_flags();
        }
        let mut state = self.state;
        loop
            invariant
                state == self.state,
                self.state == old(self).state,
                self.waker == old(self).waker,
            decreases 1nat,
        {
            proof {
                lemma_idle_word(state);
            }
            // The notification token is already set: the consumer will see it.
            if state & NOTIFIED != 0 {
                return None;
            }
            let mut new = state | NOTIFIED;
            // A registering consumer sees the token once it releases its lock.
            if state & REGISTERING == 0 {
                new = new | WAKING;
            }
            match compare_exchange_u8(&mut self.state, state, new) {
                // The token is set and the waking lock is ours: wake the task.
                Ok(prev) if prev == IDLE => {
                    assert(new == 5u8);
                    let woken = self.waker;
                    self.state = self.state - WAKING;
                    return woken;
                },
                Ok(_) => {
                    return None;
                },
                Err(found) => {
                    state = found;
                },
            }
        }
    }

    /// Registers a new waker.
    ///
    /// `Pending`: the waker is registered and the task may wait. `Ready`: a
    /// notification was consumed.
    pub fn register(&mut self, waker: u64) -> (r: Poll)
        ensures
            final(self).state() == registered_state(old(self).state()),
            final(self).waker() == registered_waker(old(self).state(), old(self).waker(), waker),
            r == register_outcome(old(self).state()),
    {
        self.register_seqcst(waker)
    }

    /// Registers a new waker.
    pub fn register_seqcst(&mut self, waker: u64) -> (r: Poll)
        ensures
            final(self).state() == registered_state(old(self).state()),
            final(self).waker() == registered_waker(old(self).state(), old(self).waker(), waker),
            r == register_outcome(old(self).state()),
    {
        let mut state = self.state;
        if state == IDLE {
            let will_wake = match self.waker {
                Some(w) => w == waker,
                None => false,
            };
            // The right waker is already registered.
            if will_wake {
                return Poll::Pending;
            }
            match self.register_slow(waker) {
                Ok(status) => {
                    return status;
                },
                Err(found) => {
                    state = found;
                },
            }
        }
        // A notification is set and its waker is being woken: take the token.
        if state == (WAKING | NOTIFIED) {
            match compare_exchange_u8(&mut self.state, state, WAKING) {
                Ok(_) => {
                    return Poll::Ready;
                },
                Err(found) => {
                    state = found;
                },
            }
        }
        // A notification is set and nobody wakes: consume the token.
        if state == NOTIFIED {
            self.state = IDLE;
            return Poll::Ready;
        }
        // The waking lock is still held though the token was consumed: retry.
        Poll::Ready
    }

    fn register_slow(&mut self, waker: u64) -> (r: Result<Poll, u8>)
        ensures
            old(self).state == IDLE ==> r == Ok::<Poll, u8>(Poll::Pending) && final(self).state
                == IDLE && final(self).waker == Some(waker),
            old(self).state != IDLE ==> r == Err::<Poll, u8>(old(self).state) && *final(self)
                == *old(self),
    {
        match compare_exchange_u8(&mut self.state, IDLE, REGISTERING) {
            Ok(_) => {},
            Err(found) => {
                return Err(found);
            },
        }
        self.waker = Some(waker);
        let prev = swap_u8(&mut self.state, IDLE);
        if prev == REGISTERING {
            Ok(Poll::Pending)
        } else {
            Ok(Poll::Ready)
        }
    }
}

/// No lost wake-up: once a registration answers `Pending`, the next
/// notification wakes exactly the waker that was registered.
pub proof fn lemma_register_then_notify(s: u8, w: Option<u64>, n: u64)
    ensures
        register_outcome(s) == Poll::Pending ==> notify_woken(
            registered_state(s),
            registered_waker(s, w, n),
        ) == Some(n),
{
}

/// A notification is never lost: a registration after it answers `Ready`, and
/// from a quiet word (idle or notified) that registration leaves the word idle.
pub proof fn lemma_notify_then_register(s: u8)
    ensures
        register_outcome(notified_state(s)) == Poll::Ready,
        (s == IDLE || s == NOTIFIED) ==> registered_state(notified_state(s)) == IDLE,
{
    lemma_idle_word(s);
    lemma_idle_flags();
}

/// A second notification before the task registers again wakes nobody.
pub proof fn lemma_notify_twice(s: u8, w: Option<u64>)
    ensures
        notify_woken(notified_state(s), w) == None::<u64>,
{
    lemma_idle_word(s);
}

} // verus!
