use firefly::channels::mpmc::{RecvPoll, RecvState as ParkState};
use firefly::error::{RecvError, SendError, TryRecvError, TrySendError};
use firefly::mpfc::unbounded as mpfc;
use firefly::mpmc::bounded::{RecvState, RecvStep, SendState, SendStep};
use firefly::mpsc::bounded::SendStep as MpscSendStep;
use firefly::raw::rc::DropAction;
use firefly::spsc::bounded::SendPoll;
use firefly::wait::queue::State;

#[test]
fn mpmc_bounded_receive_waits_for_a_send() {
    let mut c = firefly::mpmc::bounded::<u32>(16);
    assert!(c.is_empty());
    let step = c.recv_step(RecvState::Started, 1);
    assert!(matches!(step, (RecvStep::Again(RecvState::Registered(0)), None)));
    let step = c.recv_step(RecvState::Registered(0), 1);
    assert!(matches!(step, (RecvStep::Pending(RecvState::Registered(0)), None)));
    assert_eq!(c.try_send(5), (Ok(()), Some(1)));
    let step = c.recv_step(RecvState::Registered(0), 1);
    assert!(matches!(step, (RecvStep::Again(RecvState::Done), None)));
    let step = c.recv_step(RecvState::Done, 1);
    assert!(matches!(step, (RecvStep::Ready(Ok(5)), None)));
}

#[test]
fn mpmc_bounded_send_waits_for_room() {
    let mut c = firefly::mpmc::bounded::<u32>(16);
    for i in 0..16 {
        assert_eq!(c.try_send(i).0, Ok(()));
    }
    assert_eq!(c.try_send(16), (Err(TrySendError::Full(16)), None));
    let step = c.send_step(SendState::Started(99), 2);
    assert!(matches!(step, (SendStep::Again(SendState::Registered(0, 99)), None)));
    let step = c.send_step(SendState::Registered(0, 99), 2);
    assert!(matches!(step, (SendStep::Pending(SendState::Registered(0, 99)), None)));
    assert_eq!(c.try_recv(), (Ok(0), Some(2)));
    let step = c.send_step(SendState::Registered(0, 99), 2);
    assert!(matches!(step, (SendStep::Again(SendState::Done(99)), None)));
    let step = c.send_step(SendState::Done(99), 2);
    assert!(matches!(step, (SendStep::Ready(Ok(())), None)));
    for i in 1..16 {
        assert_eq!(c.try_recv().0, Ok(i));
    }
    assert_eq!(c.try_recv().0, Ok(99));
    assert_eq!(c.try_recv(), (Err(TryRecvError::Empty), None));
}

#[test]
fn mpmc_bounded_dropped_wait_leaves_the_queue() {
    let mut c = firefly::mpmc::bounded::<u32>(16);
    let step = c.recv_step(RecvState::Started, 3);
    assert!(matches!(step, (RecvStep::Again(RecvState::Registered(0)), None)));
    c.drop_recv(RecvState::Registered(0));
    // nobody waits any more: the wake-up is kept for the next receiver
    assert_eq!(c.try_send(1), (Ok(()), None));
}

#[test]
fn mpmc_bounded_disconnection() {
    let mut c = firefly::mpmc::bounded::<u32>(16);
    let _ = c.recv_step(RecvState::Started, 8);
    c.clone_sender();
    assert_eq!(c.drop_sender(), (DropAction::Keep, vec![]));
    assert_eq!(c.drop_sender(), (DropAction::Disconnect, vec![Some(8)]));
    let step = c.recv_step(RecvState::Registered(0), 8);
    assert!(matches!(step, (RecvStep::Again(RecvState::Done), None)));
    let step = c.recv_step(RecvState::Done, 8);
    assert!(matches!(step, (RecvStep::Ready(Err(RecvError)), None)));
}

#[test]
fn mpsc_bounded_sender_waits_and_is_woken() {
    let mut c = firefly::mpsc::bounded::<u8>(2);
    assert_eq!(c.poll_recv(7), (None, None));
    assert_eq!(c.try_send(1), (Ok(()), Some(7)));
    assert_eq!(c.try_send(2), (Ok(()), None));
    assert_eq!(c.try_send(3), (Err(TrySendError::Full(3)), None));
    let step = c.send_step(State::Started, 3, 4);
    assert!(matches!(step, (MpscSendStep::Again(State::Registered(0), 3), None)));
    let step = c.send_step(State::Registered(0), 3, 4);
    assert!(matches!(step, (MpscSendStep::Pending(State::Registered(0), 3), None)));
    assert_eq!(c.poll_recv(7), (Some(Ok(1)), Some(4)));
    let step = c.send_step(State::Registered(0), 3, 4);
    assert!(matches!(step, (MpscSendStep::Again(State::Done, 3), None)));
    let step = c.send_step(State::Done, 3, 4);
    assert!(matches!(step, (MpscSendStep::Ready(Ok(())), None)));
    assert_eq!(c.try_recv(), (Ok(2), None));
    assert_eq!(c.try_recv(), (Ok(3), None));
    assert!(c.is_empty());
}

#[test]
fn mpsc_bounded_full_and_disconnected() {
    let mut c = firefly::mpsc::bounded::<u8>(1);
    assert_eq!(c.try_send(1), (Ok(()), None));
    assert_eq!(c.drop_receiver().0, DropAction::Disconnect);
    assert_eq!(c.try_send(2), (Err(TrySendError::Disconnected(2)), None));
    let step = c.send_step(State::Started, 2, 1);
    assert!(matches!(step, (MpscSendStep::Ready(Err(SendError(2))), None)));
}

#[test]
fn mpsc_unbounded_last_sender_always_wakes() {
    let mut c = firefly::mpsc::unbounded::<u8>();
    assert_eq!(c.poll_recv(5), None);
    assert_eq!(c.send(1), (Ok(()), Some(5)));
    assert_eq!(c.poll_recv(5), Some(Ok(1)));
    assert_eq!(c.poll_recv(5), None);
    assert_eq!(c.drop_sender(), (DropAction::Disconnect, Some(5)));
    assert_eq!(c.try_recv(), Err(TryRecvError::Disconnected));
    assert_eq!(c.poll_recv(5), Some(Err(RecvError)));
    assert!(c.is_empty());
}

#[test]
fn spsc_bounded_full_then_disconnected() {
    let mut c = firefly::spsc::bounded::new::<u8>(1);
    assert_eq!(c.poll_recv(1), (None, None));
    assert_eq!(c.try_send(4), (Ok(()), Some(1)));
    assert!(matches!(c.poll_send(5, 2), (SendPoll::Pending(5), None)));
    assert_eq!(c.poll_recv(1), (Some(Ok(4)), Some(2)));
    assert!(matches!(c.poll_send(5, 2), (SendPoll::Done(Ok(())), None)));
    assert_eq!(c.drop_receiver().0, DropAction::Disconnect);
    // a full channel answers that the receiver is gone
    assert_eq!(c.try_send(6), (Err(TrySendError::Disconnected(6)), None));
}

#[test]
fn spsc_unbounded_flow() {
    let mut c = firefly::spsc::unbounded::new::<u16>();
    assert_eq!(c.poll_recv(9), None);
    assert_eq!(c.send(300), (Ok(()), Some(9)));
    assert_eq!(c.send(301), (Ok(()), None));
    assert_eq!(c.try_recv(), Ok(300));
    assert_eq!(c.poll_recv(9), Some(Ok(301)));
    assert_eq!(c.drop_receiver(), DropAction::Disconnect);
    assert_eq!(c.send(1), (Err(SendError(1)), None));
}

#[test]
fn mpfc_receivers_are_woken_in_order() {
    let mut c = mpfc::new::<u8>();
    let first = match c.poll_recv(ParkState::Start, 3) {
        RecvPoll::Waiting(s) => s,
        _ => panic!("waits"),
    };
    let second = match c.poll_recv(ParkState::Start, 4) {
        RecvPoll::Waiting(s) => s,
        _ => panic!("waits"),
    };
    assert_eq!(c.send(8), (Ok(()), Some(3)));
    assert!(matches!(c.poll_recv(second, 4), RecvPoll::Waiting(ParkState::Parked(1))));
    assert!(matches!(c.poll_recv(first, 3), RecvPoll::Done(Ok(8))));
    c.drop_recv(ParkState::Parked(1));
    assert_eq!(c.send(9), (Ok(()), None));
    assert!(!c.is_empty());
    assert_eq!(c.try_recv(), Ok(9));
    assert_eq!(c.try_recv(), Err(TryRecvError::Empty));
}

#[test]
fn mpfc_last_sender_wakes_every_receiver() {
    let mut c = mpfc::new::<u8>();
    c.clone_receiver();
    let _ = c.poll_recv(ParkState::Start, 1);
    let _ = c.poll_recv(ParkState::Start, 2);
    let (action, woken) = c.drop_sender();
    assert_eq!(action, DropAction::Disconnect);
    assert_eq!(woken, vec![Some(1), Some(2)]);
    assert_eq!(c.try_recv(), Err(TryRecvError::Disconnected));
    assert_eq!(c.drop_receiver(), DropAction::Keep);
}

#[test]
fn mpmc_bounded_two_slots() {
    let mut c = firefly::mpmc::bounded::<u32>(2);
    assert_eq!(c.try_recv(), (Err(TryRecvError::Empty), None));
    assert_eq!(c.try_send(1), (Ok(()), None));
    assert_eq!(c.try_send(2), (Ok(()), None));
    assert_eq!(c.try_send(3), (Err(TrySendError::Full(3)), None));
    assert_eq!(c.drop_receiver().0, DropAction::Disconnect);
    assert_eq!(c.try_send(3), (Err(TrySendError::Disconnected(3)), None));
}

#[test]
fn mpmc_bounded_drains_then_disconnects() {
    let mut c = firefly::mpmc::bounded::<u32>(2);
    assert_eq!(c.try_send(1), (Ok(()), None));
    assert_eq!(c.drop_sender().0, DropAction::Disconnect);
    assert_eq!(c.try_recv(), (Ok(1), None));
    assert_eq!(c.try_recv(), (Err(TryRecvError::Disconnected), None));
}

#[test]
fn mpmc_bounded_send_without_receivers_enqueues_nothing() {
    let mut c = firefly::mpmc::bounded::<u32>(4);
    assert_eq!(c.drop_receiver().0, DropAction::Disconnect);
    assert_eq!(c.try_send(1), (Err(TrySendError::Disconnected(1)), None));
    assert!(c.is_empty());
    let step = c.send_step(SendState::Started(2), 1);
    assert!(matches!(step, (SendStep::Ready(Err(SendError(2))), None)));
    assert!(c.is_empty());
}

#[test]
fn mpsc_bounded_send_without_receiver_enqueues_nothing() {
    let mut c = firefly::mpsc::bounded::<u8>(4);
    assert_eq!(c.drop_receiver().0, DropAction::Disconnect);
    assert_eq!(c.try_send(1), (Err(TrySendError::Disconnected(1)), None));
    assert!(c.is_empty());
}

#[test]
fn spsc_bounded_send_without_receiver_enqueues_nothing() {
    let mut c = firefly::spsc::bounded::new::<u8>(4);
    assert_eq!(c.drop_receiver().0, DropAction::Disconnect);
    assert_eq!(c.try_send(1), (Err(TrySendError::Disconnected(1)), None));
    assert!(c.is_empty());
}

#[test]
fn mpmc_bounded_one_slot() {
    let mut c = firefly::mpmc::bounded::<u32>(1);
    for i in 0..5 {
        assert_eq!(c.try_send(i), (Ok(()), None));
        assert_eq!(c.try_send(9), (Err(TrySendError::Full(9)), None));
        assert_eq!(c.try_recv(), (Ok(i), None));
    }
}
