//! Multi-producer, single-consumer channels.
pub mod bounded;
pub mod unbounded;

use crate::raw::rc::Rc;
use vstd::prelude::*;

verus! {

/// Creates an unbounded channel.
pub fn unbounded<T>() -> (c: Rc<unbounded::Channel<T>>)
    ensures
        c.wf(),
        c.channel().wf(),
        c.channel().values() == Seq::<T>::empty(),
        c.channel().room() == u64::MAX - 1,
        c.senders() == 1,
        c.receivers() == 1,
        !c.disconnected(),
{
    unbounded::new()
}

/// Creates a bounded channel with room for `capacity` values, rounded up to a
/// power of two.
pub fn bounded<T>(capacity: usize) -> (c: Rc<bounded::Channel<T>>)
    requires
        capacity <= isize::MAX / 2 + 1,
    ensures
        c.wf(),
        c.channel().wf(),
        c.channel().values() == Seq::<T>::empty(),
        c.channel().capacity() >= capacity,
        c.channel().capacity() == crate::raw::util::ceil_pow2(capacity as int),
        c.channel().room() == usize::MAX - 1,
        c.senders() == 1,
        c.receivers() == 1,
        !c.disconnected(),
        c.channel().receiver().state() == crate::wait::mpsc::WAITING,
        c.channel().receiver().waker() == None::<u64>,
        c.channel().senders().next_key() == 0,
        c.channel().senders().state() == crate::wait::queue::EMPTY,
        c.channel().senders().waiters().len() == 0,
        c.channel().senders().woken().len() == 0,
{
    bounded::new(capacity)
}

} // verus!
