//! Multi-producer, multi-consumer channels.
pub mod bounded;
pub mod unbounded;

use crate::raw::rc::Rc;
use crate::wait::queue::EMPTY;
use vstd::prelude::*;

verus! {

/// Creates a bounded channel that holds at least `capacity` values: `capacity`
/// rounded up to a power of two.
pub fn bounded<T>(capacity: usize) -> (c: Rc<bounded::Channel<T>>)
    requires
        0 < capacity < bounded::queue::MAX_CAPACITY,
    ensures
        c.wf(),
        c.channel().wf(),
        c.channel().values() == Seq::<T>::empty(),
        capacity <= c.channel().capacity() < 2 * capacity,
        c.channel().capacity() == crate::raw::util::ceil_pow2(capacity as int),
        c.channel().room() >= 0x2000_0000_0000_0000,
        c.senders() == 1,
        c.receivers() == 1,
        !c.disconnected(),
        c.channel().receivers().next_key() == 0,
        c.channel().receivers().state() == EMPTY,
        c.channel().receivers().waiters().len() == 0,
        c.channel().receivers().woken().len() == 0,
        c.channel().senders().next_key() == 0,
        c.channel().senders().state() == EMPTY,
        c.channel().senders().waiters().len() == 0,
        c.channel().senders().woken().len() == 0,
{
    bounded::new(capacity)
}

} // verus!
