//! Permits and counters that spin on contention.
use crate::raw::util::spin_rounds;
use vstd::prelude::*;

verus! {

/// A counting semaphore.
pub struct Semaphore(pub isize);

impl Semaphore {
    /// A semaphore holding `permits` permits.
    pub fn new(permits: usize) -> (s: Semaphore)
        requires
            permits <= isize::MAX,
        ensures
            s.0 == permits,
    {
        Semaphore(permits as isize)
    }

    /// Takes a permit if one is available.
    pub fn try_acquire(&mut self) -> (r: bool)
        requires
            old(self).0 >= 0,
        ensures
            r == (old(self).0 > 0),
            final(self).0 == (if r { old(self).0 - 1 } else { old(self).0 as int }),
    {
        let mut spin: usize = 0;
        loop
            invariant
                self.0 == old(self).0,
                self.0 >= 0,
                spin == 0,
            decreases 1nat,
        {
            let prev = self.0;
            self.0 = prev - 1;
            if prev > 0 {
                return true;
            }
            spin += 1;
            spin_rounds(spin);
            let prev = self.0;
            self.0 = prev + 1;
            if prev < 0 {
                return false;
            }
            spin += 1;
            spin_rounds(spin);
        }
    }

    /// Whether a permit is available.
    pub fn can_push(&self) -> (r: bool)
        ensures
            r == (self.0 > 0),
    {
        self.0 > 0
    }

    /// Returns a permit.
    pub fn release(&mut self)
        requires
            old(self).0 < isize::MAX,
        ensures
            final(self).0 == old(self).0 + 1,
    {
        self.0 = self.0 + 1;
    }
}

/// A position counter that wraps around.
pub struct Counter(pub usize);

impl Counter {
    /// Returns the current position and moves to the next one.
    pub fn fetch_inc(&mut self) -> (r: usize)
        ensures
            r == old(self).0,
            final(self).0 == (if old(self).0 == usize::MAX { 0 } else { old(self).0 + 1 }),
    {
        let r = self.0;
        self.0 = r.wrapping_add(1);
        r
    }

    /// The current position.
    pub fn load(&self) -> (r: usize)
        ensures
            r == self.0,
    {
        self.0
    }
}

} // verus!
