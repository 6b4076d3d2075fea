//! The reference counts of a channel shared by its senders and receivers.
use vstd::prelude::*;

verus! {

/// What dropping a handle asks of the caller.
#[derive(Clone, Copy, Debug, PartialEq, Eq, Structural)]
pub enum DropAction {
    /// Other handles of the same side remain: nothing to do.
    Keep,
    /// The last handle of this side is gone while the other side lives: wake
    /// the tasks of the other side, which now see the channel disconnected.
    Disconnect,
    /// The last handle of both sides is gone: release the channel.
    Free,
}

/// What dropping one of `count` handles of a side does, when the other side
/// has `other` handles left.
pub open spec fn drop_action(count: usize, other: usize) -> DropAction {
    if count != 1 {
        DropAction::Keep
    } else if other == 0 {
        DropAction::Free
    } else {
        DropAction::Disconnect
    }
}

/// Dropping a handle that is not the last of its side keeps the channel as it
/// is; dropping the last one disconnects the channel while the other side
/// still has handles, and frees it once both sides have none.
pub proof fn lemma_drop_action(count: usize, other: usize)
    ensures
        drop_action(count, other) == DropAction::Keep <==> count != 1,
        drop_action(count, other) == DropAction::Disconnect <==> (count == 1 && other > 0),
        drop_action(count, other) == DropAction::Free <==> (count == 1 && other == 0),
{
}

/// A reference counted channel.
pub struct Rc<T> {
    senders: usize,
    receivers: usize,
    disconnected: bool,
    chan: T,
}

impl<T> Rc<T> {
    /// Shares a channel between one sender and one receiver.
    pub fn new(chan: T) -> (rc: Rc<T>)
        ensures
            rc.wf(),
            rc.senders() == 1,
            rc.receivers() == 1,
            !rc.disconnected(),
            rc.channel() == chan,
    {
        Rc { senders: 1, receivers: 1, disconnected: false, chan }
    }

    /// The number of sender handles.
    pub closed spec fn senders(&self) -> usize {
        self.senders
    }

    /// The number of receiver handles.
    pub closed spec fn receivers(&self) -> usize {
        self.receivers
    }

    /// The shared channel.
    pub closed spec fn channel(&self) -> T {
        self.chan
    }

    /// The shared channel.
    pub fn chan(&self) -> (r: &T)
        ensures
            *r == self.channel(),
    {
        &self.chan
    }

    /// The shared channel, to change in place.
    pub fn chan_mut(&mut self) -> (r: &mut T)
        ensures
            *r == old(self).channel(),
            final(self).channel() == *final(r),
            final(self).senders() == old(self).senders(),
            final(self).receivers() == old(self).receivers(),
            final(self).disconnected() == old(self).disconnected(),
            old(self).wf() ==> final(self).wf(),
    {
        &mut self.chan
    }

    /// Whether one side has no handle left.
    pub closed spec fn disconnected(&self) -> bool {
        self.disconnected
    }

    /// The channel is disconnected exactly when one side has no handle left.
    pub open spec fn wf(&self) -> bool {
        self.disconnected() == (self.senders() == 0 || self.receivers() == 0)
    }

    /// Clones a sender handle; at most `max` senders may exist before the clone.
    pub fn add_sender(&mut self, max: usize)
        requires
            old(self).wf(),
            old(self).senders() <= max,
            old(self).senders() < usize::MAX,
            old(self).senders() > 0,
        ensures
            final(self).wf(),
            final(self).senders() == old(self).senders() + 1,
            final(self).receivers() == old(self).receivers(),
            final(self).disconnected() == old(self).disconnected(),
            final(self).channel() == old(self).channel(),
    {
        let count = self.senders;
        self.senders = count + 1;
    }

    /// Clones a receiver handle; at most `max` receivers may exist before the clone.
    pub fn add_receiver(&mut self, max: usize)
        requires
            old(self).wf(),
            old(self).receivers() <= max,
            old(self).receivers() < usize::MAX,
            old(self).receivers() > 0,
        ensures
            final(self).wf(),
            final(self).receivers() == old(self).receivers() + 1,
            final(self).senders() == old(self).senders(),
            final(self).disconnected() == old(self).disconnected(),
            final(self).channel() == old(self).channel(),
    {
        let count = self.receivers;
        self.receivers = count + 1;
    }

    /// Drops a sender handle.
    pub fn remove_sender(&mut self) -> (r: DropAction)
        requires
            old(self).wf(),
            old(self).senders() > 0,
        ensures
            final(self).disconnected() == (final(self).senders() == 0 || final(self).receivers() == 0),
            final(self).wf(),
            final(self).senders() == old(self).senders() - 1,
            final(self).receivers() == old(self).receivers(),
            final(self).channel() == old(self).channel(),
            r == drop_action(old(self).senders(), old(self).receivers()),
            old(self).senders() > 1 ==> r == DropAction::Keep,
            old(self).senders() == 1 && old(self).receivers() > 0 ==> r == DropAction::Disconnect,
            old(self).senders() == 1 && old(self).receivers() == 0 ==> r == DropAction::Free,
    {
        let count = self.senders;
        self.senders = count - 1;
        if count == 1 {
            let disconnected = self.disconnected;
            self.disconnected = true;
            if disconnected {
                DropAction::Free
            } else {
                DropAction::Disconnect
            }
        } else {
            DropAction::Keep
        }
    }

    /// Drops a receiver handle.
    pub fn remove_receiver(&mut self) -> (r: DropAction)
        requires
            old(self).wf(),
            old(self).receivers() > 0,
        ensures
            final(self).disconnected() == (final(self).senders() == 0 || final(self).receivers() == 0),
            final(self).wf(),
            final(self).receivers() == old(self).receivers() - 1,
            final(self).senders() == old(self).senders(),
            final(self).channel() == old(self).channel(),
            r == drop_action(old(self).receivers(), old(self).senders()),
            old(self).receivers() > 1 ==> r == DropAction::Keep,
            old(self).receivers() == 1 && old(self).senders() > 0 ==> r == DropAction::Disconnect,
            old(self).receivers() == 1 && old(self).senders() == 0 ==> r == DropAction::Free,
    {
        let count = self.receivers;
        self.receivers = count - 1;
        if count == 1 {
            let disconnected = self.disconnected;
            self.disconnected = true;
            if disconnected {
                DropAction::Free
            } else {
                DropAction::Disconnect
            }
        } else {
            DropAction::Keep
        }
    }

    /// The number of sender handles.
    pub fn sender_count(&self) -> (r: usize)
        ensures
            r == self.senders(),
    {
        self.senders
    }

    /// The number of receiver handles.
    pub fn receiver_count(&self) -> (r: usize)
        ensures
            r == self.receivers(),
    {
        self.receivers
    }

    /// Whether one side of the channel has no handle left.
    pub fn is_disconnected(&self) -> (r: bool)
        ensures
            r == self.disconnected(),
    {
        self.disconnected
    }
}

/// The channel is released exactly once: of the two drops that take the last
/// handle of each side, in either order, the first disconnects and the second
/// frees.
pub proof fn lemma_release_once()
    ensures
        drop_action(1, 1) == DropAction::Disconnect,
        drop_action(1, 0) == DropAction::Free,
        forall|count: usize, other: usize|
            #[trigger] drop_action(count, other) == DropAction::Free ==> count == 1 && other == 0,
{
}

} // verus!
