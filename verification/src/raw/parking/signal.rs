//! A word that parked tasks and their wakers synchronise through.
use vstd::prelude::*;

verus! {

/// An integer cell that a signal loads from.
pub trait AtomicInt {
    /// The integer that the cell holds.
    type Inner;

    /// The integer that the cell holds.
    spec fn value(&self) -> Self::Inner;

    /// Reads the integer.
    fn load(&self) -> (r: Self::Inner)
        ensures
            r == self.value(),
    ;

    /// Adds zero and returns the integer held before, which is the one held after.
    fn fetch_add_zero(&self) -> (r: Self::Inner)
        ensures
            r == self.value(),
    ;
}

impl AtomicInt for u8 {
    type Inner = u8;

    open spec fn value(&self) -> u8 {
        *self
    }

    fn load(&self) -> (r: u8) {
        *self
    }

    fn fetch_add_zero(&self) -> (r: u8) {
        *self + 0
    }
}

impl AtomicInt for usize {
    type Inner = usize;

    open spec fn value(&self) -> usize {
        *self
    }

    fn load(&self) -> (r: usize) {
        *self
    }

    fn fetch_add_zero(&self) -> (r: usize) {
        *self + 0
    }
}

/// A wrapper around an integer cell with the two loads that signalling uses.
pub struct Signal<T>(pub T);

impl<T: AtomicInt> Signal<T> {
    /// The integer that the signal holds.
    pub open spec fn value(&self) -> T::Inner {
        self.0.value()
    }

    /// A signal holding `x`.
    pub fn new(x: T) -> (s: Signal<T>)
        ensures
            s.0 == x,
    {
        Signal(x)
    }

    /// A load that follows a full barrier: the value as of now.
    pub fn load_release(&self) -> (r: T::Inner)
        ensures
            r == self.value(),
    {
        self.0.fetch_add_zero()
    }

    /// A load with acquire ordering.
    pub fn load_acquire(&self) -> (r: T::Inner)
        ensures
            r == self.value(),
    {
        self.0.load()
    }

    /// The underlying cell.
    pub fn inner(&self) -> (r: &T)
        ensures
            *r == self.0,
    {
        &self.0
    }
}

} // verus!
