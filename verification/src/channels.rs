//! Channels over the raw queues and parking primitives.
//!
//! Every channel here holds its values as a sequence, oldest first: a send
//! appends to it and a receive takes its first value. The law below states
//! what that means over a run of sends and receives.
pub mod mpmc;
pub mod mpsc;
pub mod spmc;
pub mod spsc;

use vstd::prelude::*;

verus! {

/// What a channel holding `held` holds after the sends of `sent`, in order.
pub open spec fn after_sends<T>(held: Seq<T>, sent: Seq<T>) -> Seq<T>
    decreases sent.len(),
{
    if sent.len() == 0 {
        held
    } else {
        after_sends(held.push(sent[0]), sent.drop_first())
    }
}

/// The values that `n` receives from a channel holding `held` answer, in
/// order, when it holds at least `n` values.
pub open spec fn received<T>(held: Seq<T>, n: nat) -> Seq<T>
    decreases n,
{
    if n == 0 || held.len() == 0 {
        Seq::empty()
    } else {
        seq![held[0]] + received(held.drop_first(), (n - 1) as nat)
    }
}

/// What a channel holding `held` holds after `n` receives.
pub open spec fn after_receives<T>(held: Seq<T>, n: nat) -> Seq<T>
    decreases n,
{
    if n == 0 || held.len() == 0 {
        held
    } else {
        after_receives(held.drop_first(), (n - 1) as nat)
    }
}

/// Values leave a channel in the order they were sent: after the sends of
/// `sent` to a channel holding `held`, it holds `held` followed by `sent`,
/// and receives answer the values of that sequence from its start, leaving
/// the rest.
pub proof fn lemma_fifo<T>(held: Seq<T>, sent: Seq<T>, n: nat)
    requires
        n <= held.len() + sent.len(),
    ensures
        after_sends(held, sent) == held + sent,
        received(held + sent, n) == (held + sent).take(n as int),
        after_receives(held + sent, n) == (held + sent).skip(n as int),
    decreases sent.len(),
{
    if sent.len() > 0 {
        lemma_fifo(held.push(sent[0]), sent.drop_first(), 0);
        assert(held.push(sent[0]) + sent.drop_first() =~= held + sent);
    }
    lemma_receives(held + sent, n);
}

/// The receives of `n` values from `s` answer its first `n` values and leave
/// the rest.
proof fn lemma_receives<T>(s: Seq<T>, n: nat)
    requires
        n <= s.len(),
    ensures
        received(s, n) == s.take(n as int),
        after_receives(s, n) == s.skip(n as int),
    decreases n,
{
    if n == 0 {
        assert(s.take(0) =~= Seq::<T>::empty());
        assert(s.skip(0) =~= s);
    } else {
        lemma_receives(s.drop_first(), (n - 1) as nat);
        assert(seq![s[0]] + s.drop_first().take(n - 1) =~= s.take(n as int));
        assert(s.drop_first().skip(n - 1) =~= s.skip(n as int));
    }
}

} // verus!
