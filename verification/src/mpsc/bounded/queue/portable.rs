//! Permits and counters updated through a compare-and-swap loop.
use crate::raw::util::compare_exchange_usize;
use vstd::prelude::*;

verus! {

/// A counting semaphore.
pub struct Semaphore(pub usize);

impl Semaphore {
    /// A semaphore holding `permits` permits.
    pub fn new(permits: usize) -> (s: Semaphore)
        ensures
            s.0 == permits,
    {
        Semaphore(permits)
    }

    /// Takes a permit if one is available.
    pub fn try_acquire(&mut self) -> (r: bool)
        ensures
            r == (old(self).0 > 0),
            final(self).0 == (if r { (old(self).0 - 1) as usize } else { old(self).0 }),
    {
        fetch_update(&mut self.0, |v: usize| -> (r: Option<usize>)
            ensures
                r == (if v > 0 { Some((v - 1) as usize) } else { None::<usize> }),
            { v.checked_sub(1) }).is_ok()
    }

    /// Returns a permit.
    pub fn release(&mut self)
        requires
            old(self).0 < usize::MAX,
        ensures
            final(self).0 == old(self).0 + 1,
    {
        let _ = fetch_update(&mut self.0, |v: usize| -> (r: Option<usize>)
            requires
                v < usize::MAX,
            ensures
                r == Some((v + 1) as usize),
            { Some(v + 1) });
    }
}

/// A position counter.
pub struct Counter(pub usize);

impl Counter {
    /// Returns the current position and moves to the next one.
    pub fn fetch_inc(&mut self) -> (r: usize)
        requires
            old(self).0 < usize::MAX,
        ensures
            r == old(self).0,
            final(self).0 == old(self).0 + 1,
    {
        match fetch_update(&mut self.0, |v: usize| -> (r: Option<usize>)
            requires
                v < usize::MAX,
            ensures
                r == Some((v + 1) as usize),
            { Some(v + 1) }) {
            Ok(v) => v,
            Err(v) => v,
        }
    }

    /// The current position.
    pub fn load(&self) -> (r: usize)
        ensures
            r == self.0,
    {
        self.0
    }
}

/// Replaces `*value` by `update(*value)` unless the update declines (`None`).
///
/// Returns the previous value, in `Ok` when it was replaced.
pub fn fetch_update<F: Fn(usize) -> Option<usize>>(value: &mut usize, update: F) -> (r: Result<
    usize,
    usize,
>)
    requires
        update.requires((*old(value),)),
    ensures
        exists|u: Option<usize>|
            #[trigger] update.ensures((*old(value),), u) && (match u {
                Some(n) => r == Ok::<usize, usize>(*old(value)) && *final(value) == n,
                None => r == Err::<usize, usize>(*old(value)) && *final(value) == *old(value),
            }),
{
    loop
        invariant
            *value == *old(value),
            update.requires((*old(value),)),
        decreases 1nat,
    {
        let v = *value;
        let new_v = match update(v) {
            Some(new_v) => new_v,
            None => return Err(v),
        };
        match compare_exchange_usize(value, v, new_v) {
            Ok(_) => return Ok(v),
            Err(_) => {},
        }
    }
}

} // verus!
