use firefly::channels::mpmc::{self as mpmc, RecvPoll, RecvState, SendPoll, SendState};
use firefly::channels::mpsc;
use firefly::channels::spsc;
use firefly::error::{RecvError, SendError, TryRecvError, TrySendError};

#[test]
fn bounded_try_send_fills_then_fails() {
    let mut c = mpmc::bounded::<i32>(2);
    assert_eq!(c.try_send(1).0, Ok(()));
    assert_eq!(c.try_send(2).0, Ok(()));
    assert_eq!(c.try_send(3).0, Err(TrySendError::Full(3)));
    let _ = c.drop_receiver();
    assert_eq!(c.try_send(3).0, Err(TrySendError::Disconnected(3)));

    let mut c = mpsc::bounded::<i32>(2);
    assert_eq!(c.try_send(1).0, Ok(()));
    assert_eq!(c.try_send(2).0, Ok(()));
    assert_eq!(c.try_send(3).0, Err(TrySendError::Full(3)));
    let _ = c.drop_receiver();
    assert_eq!(c.try_send(3).0, Err(TrySendError::Disconnected(3)));

    let mut c = spsc::bounded::<i32>(2);
    assert_eq!(c.try_send(1).0, Ok(()));
    assert_eq!(c.try_send(2).0, Ok(()));
    assert_eq!(c.try_send(3).0, Err(TrySendError::Full(3)));
    let _ = c.drop_receiver();
    assert_eq!(c.try_send(3).0, Err(TrySendError::Disconnected(3)));
}

#[test]
fn try_recv_empty_then_value_then_disconnected() {
    let mut c = mpmc::bounded::<i32>(2);
    assert_eq!(c.try_recv().0, Err(TryRecvError::Empty));
    assert_eq!(c.try_send(1).0, Ok(()));
    let _ = c.drop_sender();
    assert_eq!(c.try_recv().0, Ok(1));
    assert_eq!(c.try_recv().0, Err(TryRecvError::Disconnected));

    let mut c = mpmc::unbounded::<i32>();
    assert_eq!(c.try_recv(), Err(TryRecvError::Empty));
    assert_eq!(c.send(1).0, Ok(()));
    let _ = c.drop_sender();
    assert_eq!(c.try_recv(), Ok(1));
    assert_eq!(c.try_recv(), Err(TryRecvError::Disconnected));

    let mut c = mpsc::bounded::<i32>(2);
    assert_eq!(c.try_recv().0, Err(TryRecvError::Empty));
    assert_eq!(c.try_send(1).0, Ok(()));
    let _ = c.drop_sender();
    assert_eq!(c.try_recv().0, Ok(1));
    assert_eq!(c.try_recv().0, Err(TryRecvError::Disconnected));

    let mut c = mpsc::unbounded::<i32>();
    assert_eq!(c.try_recv(), Err(TryRecvError::Empty));
    assert_eq!(c.send(1).0, Ok(()));
    let _ = c.drop_sender();
    assert_eq!(c.try_recv(), Ok(1));
    assert_eq!(c.try_recv(), Err(TryRecvError::Disconnected));

    let mut c = spsc::bounded::<i32>(2);
    assert_eq!(c.try_recv().0, Err(TryRecvError::Empty));
    assert_eq!(c.try_send(1).0, Ok(()));
    let _ = c.drop_sender();
    assert_eq!(c.try_recv().0, Ok(1));
    assert_eq!(c.try_recv().0, Err(TryRecvError::Disconnected));

    let mut c = spsc::unbounded::<i32>();
    assert_eq!(c.try_recv(), Err(TryRecvError::Empty));
    assert_eq!(c.send(1).0, Ok(()));
    let _ = c.drop_sender();
    assert_eq!(c.try_recv(), Ok(1));
    assert_eq!(c.try_recv(), Err(TryRecvError::Disconnected));
}

#[test]
fn unbounded_delivers_everything_sent_before_the_sender_left() {
    let mut c = mpsc::unbounded::<u32>();
    for i in 0..1000 {
        assert_eq!(c.send(i).0, Ok(()));
    }
    let _ = c.drop_sender();
    let mut received = Vec::new();
    while let Some(Ok(i)) = c.poll_recv(1) {
        received.push(i);
    }
    assert_eq!(received, (0..1000).collect::<Vec<u32>>());
    assert_eq!(c.poll_recv(1), Some(Err(RecvError)));
}

#[test]
fn unbounded_send_fails_once_the_receiver_left() {
    let mut c = mpmc::unbounded::<u32>();
    for i in 0..1000 {
        assert_eq!(c.send(i).0, Ok(()));
        assert_eq!(c.try_recv(), Ok(i));
    }
    let _ = c.drop_receiver();
    assert_eq!(c.send(1000), (Err(SendError(1000)), None));
}

#[test]
fn recv_waits_for_a_send_then_sees_the_disconnection() {
    let mut c = mpmc::bounded::<i32>(2);
    let state = match c.poll_recv(RecvState::Start, 1) {
        (RecvPoll::Waiting(state), _) => state,
        _ => panic!("the channel is empty"),
    };
    assert_eq!(c.try_send(1), (Ok(()), Some(1)));
    let _ = c.drop_sender();
    assert!(matches!(c.poll_recv(state, 1), (RecvPoll::Done(Ok(1)), None)));
    assert!(matches!(c.poll_recv(RecvState::Start, 1), (RecvPoll::Done(Err(RecvError)), None)));
}

#[test]
fn send_waits_for_room_then_sees_the_disconnection() {
    let mut c = mpmc::bounded::<i32>(2);
    assert_eq!(c.try_send(1).0, Ok(()));
    assert_eq!(c.try_send(2).0, Ok(()));
    let state = match c.poll_send(SendState::Start(3), 5) {
        (SendPoll::Waiting(state), _) => state,
        _ => panic!("the channel is full"),
    };
    assert_eq!(c.try_recv(), (Ok(1), Some(5)));
    assert!(matches!(c.poll_send(state, 5), (SendPoll::Done(Ok(())), None)));
    let state = match c.poll_send(SendState::Start(4), 5) {
        (SendPoll::Waiting(state), _) => state,
        _ => panic!("the channel is full again"),
    };
    let (_, woken) = c.drop_receiver();
    assert_eq!(woken, vec![Some(5)]);
    assert!(matches!(c.poll_send(state, 5), (SendPoll::Done(Err(SendError(4))), None)));
}
