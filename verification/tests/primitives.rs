use firefly::error::{RecvError, RecvTimeoutError, SendError, SendTimeoutError};
use firefly::mpsc::bounded::queue::atomic::{Counter as AtomicCounter, Semaphore as AtomicSemaphore};
use firefly::mpsc::bounded::queue::portable::{Counter, Semaphore};
use firefly::raw::intrusive::{List, Node};
use firefly::raw::parking::queue::TaskQueue;
use firefly::raw::parking::signal::Signal;
use firefly::raw::parking::task::Task;
use firefly::raw::rc::{DropAction, Rc};
use firefly::raw::util::{
    check_capacity, compare_exchange, compare_exchange_at, compare_exchange_u8, compare_exchange_usize,
    next_power_of_two, swap_u8, wrapping_sub_signed,
};
use firefly::task::{AtomicWaker, Poll};
use firefly::util::intrusive_list::{LinkedList, Node as ListNode};
use firefly::wait::cell::Cell as WaitCellOnce;
use firefly::wait::mpmc::WaitQueue;
use firefly::wait::mpsc::WaitCell;
use firefly::wait::queue::{Queue as WaiterQueue, State, Step, Waiter};
use firefly::wait::spsc::WaitCell as SpscWaitCell;
use firefly::wait::{will_wake, Status};
use firefly::waker::cell::{Cell as WakerCell, Status as CellStatus};

#[test]
fn atomic_waker_register_then_notify_wakes_the_waker() {
    let mut w = AtomicWaker::new();
    assert_eq!(w.register(7), Poll::Pending);
    assert_eq!(w.notify(), Some(7));
}

#[test]
fn atomic_waker_notify_then_register_is_ready() {
    let mut w = AtomicWaker::new();
    assert_eq!(w.notify(), None);
    assert_eq!(w.register(7), Poll::Ready);
    // the notification was consumed
    assert_eq!(w.register(7), Poll::Pending);
}

#[test]
fn atomic_waker_second_notify_wakes_nobody() {
    let mut w = AtomicWaker::new();
    assert_eq!(w.register_seqcst(3), Poll::Pending);
    assert_eq!(w.notify_seqcst(), Some(3));
    assert_eq!(w.notify_seqcst(), None);
    assert_eq!(w.notify(), None);
}

#[test]
fn atomic_waker_keeps_the_latest_waker() {
    let mut w = AtomicWaker::new();
    assert_eq!(w.register(1), Poll::Pending);
    assert_eq!(w.register(2), Poll::Pending);
    assert_eq!(w.notify(), Some(2));
}

#[test]
fn waker_cell_register_then_wake() {
    let mut c = WakerCell::new();
    assert_eq!(c.register(4), CellStatus::Registered);
    assert_eq!(c.wake(), (true, Some(4)));
    assert_eq!(c.wake(), (false, None));
    assert!(c.reset());
    assert!(!c.reset());
}

#[test]
fn waker_cell_wake_then_register_retries() {
    let mut c = WakerCell::new();
    assert_eq!(c.wake(), (true, None));
    assert_eq!(c.register(4), CellStatus::Retry);
}

#[test]
fn wait_cell_register_and_wake() {
    let mut c = WaitCellOnce::new();
    assert_eq!(c.register(5), Status::Registered);
    assert_eq!(c.register(5), Status::Registered);
    assert_eq!(c.wake(), Some(5));
    assert_eq!(c.wake(), None);
    assert_eq!(c.register(5), Status::Awoke);
    assert_eq!(c.register(5), Status::Registered);
}

#[test]
fn mpsc_wait_cell_poll_registers_then_waits() {
    let mut c = WaitCell::new();
    // a new waker is registered, and the caller checks once more
    assert_eq!(c.poll(1), Poll::Ready);
    assert_eq!(c.poll(1), Poll::Pending);
    assert_eq!(c.wake(), Some(1));
    assert_eq!(c.poll(1), Poll::Ready);
    assert_eq!(c.poll(1), Poll::Pending);
}

#[test]
fn spsc_wait_cell_starts_woken() {
    let mut c = SpscWaitCell::new();
    assert_eq!(c.poll(2), Poll::Ready);
    assert_eq!(c.poll(2), Poll::Pending);
    assert_eq!(c.wake(), Some(2));
    assert_eq!(c.wake(), None);
    assert_eq!(c.poll(2), Poll::Ready);
}

#[test]
fn will_wake_compares_wakers() {
    assert!(will_wake(&Some(3), 3));
    assert!(!will_wake(&Some(3), 4));
    assert!(!will_wake(&None, 3));
}

#[test]
fn parking_task_register_and_unpark() {
    let mut t = Task::new();
    assert_eq!(t.register(9), Poll::Pending);
    assert_eq!(t.unpark(), Some(9));
    assert_eq!(t.unpark(), None);
    assert_eq!(t.register(9), Poll::Ready);
    assert_eq!(t.register(9), Poll::Pending);
}

#[test]
fn task_queue_unparks_oldest_first() {
    let mut q = TaskQueue::new();
    assert_eq!(q.park(true), Some(0));
    assert_eq!(q.park(true), Some(1));
    assert_eq!(q.park(false), None);
    assert_eq!(q.poll(0, 10), Poll::Pending);
    assert_eq!(q.poll(1, 11), Poll::Pending);
    assert_eq!(q.unpark_one(), Some(10));
    assert_eq!(q.poll(0, 10), Poll::Ready);
    assert_eq!(q.poll(1, 11), Poll::Pending);
    assert_eq!(q.unpark_all(), vec![Some(11)]);
    assert_eq!(q.unpark_one(), None);
}

#[test]
fn task_queue_cancel_removes_the_task() {
    let mut q = TaskQueue::new();
    assert_eq!(q.park(true), Some(0));
    assert_eq!(q.poll(0, 5), Poll::Pending);
    q.cancel(0);
    assert_eq!(q.unpark_one(), None);
}

#[test]
fn wait_queue_wakes_in_order() {
    let mut q = WaitQueue::new();
    assert_eq!(q.park(true), Some(0));
    assert_eq!(q.park(true), Some(1));
    assert_eq!(q.poll(0, 20), Poll::Pending);
    assert_eq!(q.poll(1, 21), Poll::Pending);
    assert_eq!(q.wake(), Some(20));
    assert_eq!(q.wake_all(), vec![Some(21)]);
    assert_eq!(q.poll(0, 20), Poll::Ready);
    assert_eq!(q.poll(1, 21), Poll::Ready);
    assert_eq!(q.wake(), None);
}

#[test]
fn waiter_queue_keeps_a_wake_up() {
    let mut q = WaiterQueue::new();
    assert_eq!(q.wake(), (false, None));
    // the kept wake-up is consumed by the next registration
    assert_eq!(q.register(Waiter::new(), 1), (Status::Awoke, None));
    assert_eq!(q.register(Waiter::new(), 1), (Status::Registered, Some(0)));
    assert_eq!(q.poll(0, 1), Poll::Pending);
    assert_eq!(q.wake(), (false, Some(1)));
    assert_eq!(q.poll(0, 1), Poll::Ready);
}

#[test]
fn waiter_queue_poll_fn_steps() {
    let mut q = WaiterQueue::new();
    assert_eq!(q.poll_fn_step(State::Started, true, 3), (State::Started, Step::Ready));
    assert_eq!(q.poll_fn_step(State::Started, false, 3), (State::Registered(0), Step::Again));
    assert_eq!(q.poll_fn_step(State::Registered(0), false, 3), (State::Registered(0), Step::Pending));
    assert_eq!(q.wake_all(), vec![Some(3)]);
    assert_eq!(q.poll_fn_step(State::Registered(0), false, 3), (State::Done, Step::Again));
    assert_eq!(q.poll_fn_step(State::Done, true, 3), (State::Done, Step::Ready));
}

#[test]
fn waiter_queue_drop_wait_removes_the_waiter() {
    let mut q = WaiterQueue::new();
    assert_eq!(q.register(Waiter::new(), 1), (Status::Registered, Some(0)));
    q.drop_wait(State::Registered(0));
    assert_eq!(q.wake(), (false, None));
}

#[test]
fn intrusive_lists_keep_keys_and_order() {
    let mut l = List::new();
    assert_eq!(l.push(Node::new('a')), 0);
    assert_eq!(l.push(Node::new('b')), 1);
    assert_eq!(l.push(Node::new('c')), 2);
    assert_eq!(l.position(1), Some(1));
    assert_eq!(l.remove(1).map(|n| n.data), Some('b'));
    assert_eq!(l.position(1), None);
    assert_eq!(l.pop().map(|(k, n)| (k, n.data)), Some((0, 'a')));
    *l.data_mut(0) = 'z';
    let drained: Vec<(u64, char)> = l.drain().into_iter().map(|(k, n)| (k, n.data)).collect();
    assert_eq!(drained, vec![(2, 'z')]);
    assert_eq!(l.pop().map(|(k, _)| k), None);

    let mut ll = LinkedList::new();
    assert!(ll.is_empty());
    assert_eq!(ll.add_front(ListNode::new(10)), 0);
    assert_eq!(ll.add_front(ListNode::new(11)), 1);
    assert!(!ll.is_empty());
    assert_eq!(ll.pop().map(|(k, n)| (k, n.data)), Some((0, 10)));
    assert_eq!(ll.remove(1).map(|n| n.data), Some(11));
    assert!(ll.is_empty());
}

#[test]
fn rc_counts_and_release() {
    let mut rc = Rc::new(5u8);
    assert!(!rc.is_disconnected());
    rc.add_sender(usize::MAX);
    assert_eq!(rc.remove_sender(), DropAction::Keep);
    assert_eq!(rc.remove_sender(), DropAction::Disconnect);
    assert!(rc.is_disconnected());
    assert_eq!(rc.remove_receiver(), DropAction::Free);
    assert_eq!(*rc.chan(), 5);
}

#[test]
fn signal_loads_its_value() {
    let s = Signal::new(3u8);
    assert_eq!(s.load_acquire(), 3);
    assert_eq!(s.load_release(), 3);
    assert_eq!(*s.inner(), 3);
    let t = Signal::new(9usize);
    assert_eq!(t.load_acquire(), 9);
}

#[test]
fn semaphores_and_counters() {
    let mut s = Semaphore::new(1);
    assert!(s.try_acquire());
    assert!(!s.try_acquire());
    s.release();
    assert!(s.try_acquire());
    let mut c = Counter(0);
    assert_eq!(c.fetch_inc(), 0);
    assert_eq!(c.fetch_inc(), 1);
    assert_eq!(c.load(), 2);

    let mut s = AtomicSemaphore::new(2);
    assert!(s.can_push());
    assert!(s.try_acquire());
    assert!(s.try_acquire());
    assert!(!s.can_push());
    assert!(!s.try_acquire());
    s.release();
    assert!(s.try_acquire());
    let mut c = AtomicCounter(usize::MAX);
    assert_eq!(c.fetch_inc(), usize::MAX);
    assert_eq!(c.load(), 0);
}

#[test]
fn atomic_helpers() {
    let mut x = 5u64;
    assert_eq!(compare_exchange(&mut x, 5, 6), Ok(5));
    assert_eq!(compare_exchange(&mut x, 5, 7), Err(6));
    assert_eq!(x, 6);
    let mut b = 1u8;
    assert_eq!(compare_exchange_u8(&mut b, 2, 3), Err(1));
    assert_eq!(swap_u8(&mut b, 4), 1);
    assert_eq!(b, 4);
    let mut u = 10usize;
    assert_eq!(compare_exchange_usize(&mut u, 10, 11), Ok(10));
    assert_eq!(u, 11);
    let mut words = vec![1u64, 2, 3];
    assert_eq!(compare_exchange_at(&mut words, 1, 2, 20), Ok(2));
    assert_eq!(compare_exchange_at(&mut words, 2, 2, 20), Err(3));
    assert_eq!(words, vec![1, 20, 3]);
}

#[test]
fn arithmetic_helpers() {
    assert_eq!(wrapping_sub_signed(5, 3), 2);
    assert_eq!(wrapping_sub_signed(3, 5), -2);
    assert_eq!(wrapping_sub_signed(0, u64::MAX), 1);
    assert!(check_capacity(1));
    assert!(check_capacity(64));
    assert!(!check_capacity(0));
    assert!(!check_capacity(12));
    assert_eq!(next_power_of_two(0), (1, 0));
    assert_eq!(next_power_of_two(1), (1, 0));
    assert_eq!(next_power_of_two(5), (8, 3));
    assert_eq!(next_power_of_two(1024), (1024, 10));
}

#[test]
fn errors_convert_to_timeout_errors() {
    assert_eq!(SendError(4).into_timeout_error(), SendTimeoutError::Disconnected(4));
    assert_eq!(RecvError.into_timeout_error(), RecvTimeoutError::Disconnected);
}
