use firefly::channels::mpmc::{self as ch_mpmc, RecvPoll, RecvState, SendPoll, SendState};
use firefly::channels::mpsc as ch_mpsc;
use firefly::channels::spsc::{self as ch_spsc, SendPoll as SpscSendPoll};
use firefly::error::{RecvError, SendError, TryRecvError, TrySendError};
use firefly::raw::rc::DropAction;

#[test]
fn mpmc_channel_try_send_and_recv_in_order() {
    let mut c = ch_mpmc::bounded::<u32>(2);
    assert_eq!(c.try_send(1), (Ok(()), None));
    assert_eq!(c.try_send(2), (Ok(()), None));
    assert_eq!(c.try_send(3), (Err(TrySendError::Full(3)), None));
    assert_eq!(c.try_recv(), (Ok(1), None));
    assert_eq!(c.try_recv(), (Ok(2), None));
    assert_eq!(c.try_recv(), (Err(TryRecvError::Empty), None));
}

#[test]
fn mpmc_channel_receiver_parks_and_is_woken_by_send() {
    let mut c = ch_mpmc::bounded::<&str>(4);
    let state = match c.poll_recv(RecvState::Start, 7) {
        (RecvPoll::Waiting(state), None) => state,
        _ => panic!("an empty channel makes the receiver wait"),
    };
    assert!(matches!(state, RecvState::Parked(0)));
    // polling again before a send keeps it waiting
    let state = match c.poll_recv(state, 7) {
        (RecvPoll::Waiting(state), None) => state,
        _ => panic!("still waiting"),
    };
    assert_eq!(c.try_send("hi"), (Ok(()), Some(7)));
    assert!(matches!(c.poll_recv(state, 7), (RecvPoll::Done(Ok("hi")), None)));
}

#[test]
fn mpmc_channel_sender_parks_when_full_and_is_woken_by_recv() {
    let mut c = ch_mpmc::bounded::<u8>(2);
    assert!(matches!(c.poll_send(SendState::Start(1), 3), (SendPoll::Done(Ok(())), None)));
    assert!(matches!(c.poll_send(SendState::Start(2), 3), (SendPoll::Done(Ok(())), None)));
    let state = match c.poll_send(SendState::Start(9), 4) {
        (SendPoll::Waiting(state), None) => state,
        _ => panic!("a full channel makes the sender wait"),
    };
    assert!(matches!(state, SendState::Parked(0, 9)));
    assert_eq!(c.try_recv(), (Ok(1), Some(4)));
    assert!(matches!(c.poll_send(state, 4), (SendPoll::Done(Ok(())), None)));
    assert_eq!(c.try_recv(), (Ok(2), None));
    assert_eq!(c.try_recv(), (Ok(9), None));
}

#[test]
fn mpmc_channel_disconnects_when_receivers_go() {
    let mut c = ch_mpmc::bounded::<u8>(2);
    c.clone_receiver();
    let (action, woken) = c.drop_receiver();
    assert_eq!(action, DropAction::Keep);
    assert!(woken.is_empty());
    assert_eq!(c.try_send(1), (Ok(()), None));
    let (action, woken) = c.drop_receiver();
    assert_eq!(action, DropAction::Disconnect);
    assert!(woken.is_empty());
    assert_eq!(c.try_send(2), (Err(TrySendError::Disconnected(2)), None));
    assert!(matches!(c.poll_send(SendState::Start(3), 1), (SendPoll::Done(Err(SendError(3))), None)));
    assert_eq!(c.drop_sender().0, DropAction::Free);
}

#[test]
fn mpmc_channel_last_sender_wakes_parked_receivers() {
    let mut c = ch_mpmc::bounded::<u8>(2);
    c.clone_receiver();
    let first = match c.poll_recv(RecvState::Start, 10) {
        (RecvPoll::Waiting(s), _) => s,
        _ => panic!("waits"),
    };
    let second = match c.poll_recv(RecvState::Start, 11) {
        (RecvPoll::Waiting(s), _) => s,
        _ => panic!("waits"),
    };
    let (action, woken) = c.drop_sender();
    assert_eq!(action, DropAction::Disconnect);
    assert_eq!(woken, vec![Some(10), Some(11)]);
    assert!(matches!(c.poll_recv(first, 10), (RecvPoll::Done(Err(RecvError)), None)));
    assert!(matches!(c.poll_recv(second, 11), (RecvPoll::Done(Err(RecvError)), None)));
}

#[test]
fn mpmc_channel_receives_what_was_sent_before_disconnection() {
    let mut c = ch_mpmc::bounded::<u8>(4);
    assert_eq!(c.try_send(5), (Ok(()), None));
    let _ = c.drop_sender();
    assert_eq!(c.try_recv(), (Ok(5), None));
    assert_eq!(c.try_recv(), (Err(TryRecvError::Disconnected), None));
}

#[test]
fn mpmc_unbounded_channel_send_and_receive() {
    let mut c = ch_mpmc::unbounded::<u64>();
    assert!(c.is_empty());
    let state = match c.poll_recv(RecvState::Start, 5) {
        RecvPoll::Waiting(s) => s,
        _ => panic!("waits"),
    };
    assert_eq!(c.send(42), (Ok(()), Some(5)));
    assert!(!c.is_empty());
    assert!(matches!(c.poll_recv(state, 5), RecvPoll::Done(Ok(42))));
    for i in 0..3000 {
        assert_eq!(c.send(i).0, Ok(()));
    }
    for i in 0..3000 {
        assert_eq!(c.try_recv(), Ok(i));
    }
    assert_eq!(c.try_recv(), Err(TryRecvError::Empty));
    c.clone_receiver();
    assert_eq!(c.drop_receiver(), DropAction::Keep);
    assert_eq!(c.drop_receiver(), DropAction::Disconnect);
    assert_eq!(c.send(1), (Err(SendError(1)), None));
}

#[test]
fn mpsc_channel_bounded_flow() {
    let mut c = ch_mpsc::bounded::<u8>(2);
    assert!(c.is_empty());
    assert_eq!(c.poll_recv(9), (None, None));
    assert_eq!(c.try_send(1), (Ok(()), Some(9)));
    assert_eq!(c.try_send(2), (Ok(()), None));
    assert!(!c.can_push());
    let state = match c.poll_send(SendState::Start(3), 4) {
        (SendPoll::Waiting(s), None) => s,
        _ => panic!("the sender waits on a full channel"),
    };
    assert_eq!(c.poll_recv(9), (Some(Ok(1)), Some(4)));
    assert!(matches!(c.poll_send(state, 4), (SendPoll::Done(Ok(())), None)));
    assert_eq!(c.try_recv(), (Ok(2), None));
    assert_eq!(c.try_recv(), (Ok(3), None));
    assert_eq!(c.try_recv(), (Err(TryRecvError::Empty), None));
}

#[test]
fn mpsc_channel_last_sender_unparks_receiver() {
    let mut c = ch_mpsc::bounded::<u8>(2);
    c.clone_sender();
    assert_eq!(c.poll_recv(6), (None, None));
    assert_eq!(c.drop_sender(), (DropAction::Keep, None));
    assert_eq!(c.drop_sender(), (DropAction::Disconnect, Some(6)));
    assert_eq!(c.poll_recv(6), (Some(Err(RecvError)), None));
    assert_eq!(c.try_send(1), (Err(TrySendError::Disconnected(1)), None));
}

#[test]
fn mpsc_channel_unbounded_flow() {
    let mut c = ch_mpsc::unbounded::<i32>();
    assert_eq!(c.poll_recv(2), None);
    assert_eq!(c.send(-1), (Ok(()), Some(2)));
    assert_eq!(c.send(-2), (Ok(()), None));
    assert_eq!(c.poll_recv(2), Some(Ok(-1)));
    assert_eq!(c.try_recv(), Ok(-2));
    assert_eq!(c.try_recv(), Err(TryRecvError::Empty));
    assert_eq!(c.drop_receiver(), DropAction::Disconnect);
    assert_eq!(c.send(3), (Err(SendError(3)), None));
}

#[test]
fn spsc_channel_bounded_flow() {
    let mut c = ch_spsc::bounded::<u8>(2);
    assert!(c.is_empty());
    assert_eq!(c.poll_recv(1), (None, None));
    assert_eq!(c.try_send(10), (Ok(()), Some(1)));
    assert!(matches!(c.poll_send(11, 2), (SpscSendPoll::Done(Ok(())), None)));
    assert!(matches!(c.poll_send(12, 2), (SpscSendPoll::Pending(12), None)));
    assert_eq!(c.try_recv(), (Ok(10), Some(2)));
    assert!(matches!(c.poll_send(12, 2), (SpscSendPoll::Done(Ok(())), None)));
    assert_eq!(c.try_recv(), (Ok(11), None));
    assert_eq!(c.try_recv(), (Ok(12), None));
    assert_eq!(c.drop_receiver(), (DropAction::Disconnect, None));
    assert_eq!(c.try_send(13), (Err(TrySendError::Disconnected(13)), None));
}

#[test]
fn spsc_channel_unbounded_flow() {
    let mut c = ch_spsc::unbounded::<u8>();
    assert_eq!(c.poll_recv(3), None);
    assert_eq!(c.send(1), (Ok(()), Some(3)));
    assert_eq!(c.poll_recv(3), Some(Ok(1)));
    assert_eq!(c.drop_sender(), (DropAction::Disconnect, None));
    assert_eq!(c.try_recv(), Err(TryRecvError::Disconnected));
    assert_eq!(c.poll_recv(3), Some(Err(RecvError)));
}
