//! The wake-up cell of a single task that one other task wakes.
use super::will_wake;
use crate::task::Poll;
use vstd::prelude::*;

verus! {

/// A waker slot guarded by a lock flag, with a wake-up flag.
pub struct WaitCell {
    waker: Option<u64>,
    locked: bool,
    woke: bool,
}

impl WaitCell {
    /// The registered waker, if any.
    pub closed spec fn waker(&self) -> Option<u64> {
        self.waker
    }

    /// Whether the waker slot is locked.
    pub closed spec fn locked(&self) -> bool {
        self.locked
    }

    /// Whether a wake-up is pending.
    pub closed spec fn woke(&self) -> bool {
        self.woke
    }

    /// A cell with a pending wake-up, so that the first poll checks the channel.
    pub fn new() -> (c: WaitCell)
        ensures
            c.waker() == None::<u64>,
            !c.locked(),
            c.woke(),
    {
        WaitCell { waker: None, locked: false, woke: true }
    }

    /// Registers `waker` and answers `Pending`, or consumes a pending
    /// wake-up and answers `Ready`.
    pub fn poll(&mut self, waker: u64) -> (r: Poll)
        requires
            !old(self).locked(),
        ensures
            !old(self).woke() ==> r == Poll::Pending && final(self).waker() == Some(waker)
                && !final(self).woke(),
            old(self).woke() ==> r == Poll::Ready && final(self).waker() == old(self).waker()
                && !final(self).woke(),
            !final(self).locked(),
    {
        if !self.woke {
            let was_locked = self.locked;
            self.locked = true;
            let locked = !was_locked;
            if locked {
                if !will_wake(&self.waker, waker) {
                    self.waker = Some(waker);
                }
                self.locked = false;
            }
            if !self.woke {
                return Poll::Pending;
            }
        }
        self.woke = false;
        Poll::Ready
    }

    /// Sets the wake-up flag, returning the waker to wake when this call set
    /// it and found the slot unlocked; the waker is taken out of the slot.
    pub fn wake(&mut self) -> (woken: Option<u64>)
        requires
            !old(self).locked(),
        ensures
            old(self).woke() ==> woken == None::<u64> && final(self).waker() == old(self).waker(),
            !old(self).woke() ==> woken == old(self).waker() && final(self).waker() == None::<
                u64,
            >,
            final(self).woke(),
            !final(self).locked(),
    {
        if self.woke {
            return None;
        }
        self.woke = true;
        let was_locked = self.locked;
        self.locked = true;
        if was_locked {
            return None;
        }
        let waker = self.waker.take();
        self.locked = false;
        waker
    }
}

} // verus!
