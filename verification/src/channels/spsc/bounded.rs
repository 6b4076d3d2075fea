//! A ring buffer for one producer and one consumer, each keeping a cached copy
//! of the other side's position.
use crate::raw::util::{is_valid_capacity, CachePadded};
use vstd::prelude::*;

verus! {

/// Steps from `a` forward to `b` in a ring of `len` slots.
pub open spec fn ring_dist(a: int, b: int, len: int) -> int {
    if a <= b {
        b - a
    } else {
        b + len - a
    }
}

/// The slot `j` steps after `a` in a ring of `len` slots.
pub open spec fn ring_add(a: int, j: int, len: int) -> int {
    if a + j < len {
        a + j
    } else {
        a + j - len
    }
}

/// A ring buffer with one slot more than its capacity: it is full when the
/// tail is one step behind the head.
pub struct Queue<T> {
    head: CachePadded<usize>,
    tail: CachePadded<usize>,
    slots: Vec<Option<T>>,
}

/// A local, cached copy of the queue's head and tail.
pub struct Handle {
    head: usize,
    tail: usize,
}

impl<T> Queue<T> {
    /// The number of values the queue can hold.
    pub closed spec fn capacity(&self) -> nat {
        (self.slots@.len() - 1) as nat
    }

    pub closed spec fn len(&self) -> int {
        ring_dist(self.head.0 as int, self.tail.0 as int, self.slots@.len() as int)
    }

    pub closed spec fn wf(&self) -> bool {
        let n = self.slots@.len() as int;
        &&& n >= 2
        &&& n <= usize::MAX
        &&& self.head.0 < n
        &&& self.tail.0 < n
        &&& forall|i: int|
            0 <= i < n ==> (#[trigger] self.slots@[i] is Some <==> ring_dist(self.head.0 as int, i, n)
                < self.len())
    }

    /// The values in the queue, oldest first.
    pub closed spec fn view(&self) -> Seq<T> {
        Seq::new(
            self.len() as nat,
            |j: int| self.slots@[ring_add(self.head.0 as int, j, self.slots@.len() as int)]->Some_0,
        )
    }

    /// The handle is the producer's: its tail is the queue's, and its cached head
    /// is the queue's head or an earlier one.
    pub closed spec fn producer(&self, handle: Handle) -> bool {
        let n = self.slots@.len() as int;
        &&& handle.tail == self.tail.0
        &&& handle.head < n
        &&& ring_dist(handle.head as int, self.head.0 as int, n) + self.len() == ring_dist(
            handle.head as int,
            self.tail.0 as int,
            n,
        )
    }

    /// The handle is the consumer's: its head is the queue's, and its cached tail
    /// is the queue's tail or an earlier one.
    pub closed spec fn consumer(&self, handle: Handle) -> bool {
        let n = self.slots@.len() as int;
        &&& handle.head == self.head.0
        &&& handle.tail < n
        &&& ring_dist(self.head.0 as int, handle.tail as int, n) + ring_dist(
            handle.tail as int,
            self.tail.0 as int,
            n,
        ) == self.len()
    }

    /// Creates a queue that holds at most `capacity` values.
    pub fn new(capacity: usize) -> (q: Queue<T>)
        requires
            is_valid_capacity(capacity),
            capacity < usize::MAX,
        ensures
            q.wf(),
            q.capacity() == capacity,
            q.view() == Seq::<T>::empty(),
            q.producer(Handle::new_spec()),
            q.consumer(Handle::new_spec()),
    {
        crate::raw::util::assert_valid_capacity(capacity);
        let mut slots: Vec<Option<T>> = Vec::new();
        let mut i: usize = 0;
        // need one extra slot
        while i < capacity + 1
            invariant
                i <= capacity + 1,
                capacity < usize::MAX,
                slots@.len() == i,
                forall|j: int| 0 <= j < i ==> slots@[j] is None,
            decreases capacity + 1 - i,
        {
            slots.push(None);
            i = i + 1;
        }
        let q = Queue { head: CachePadded(0), tail: CachePadded(0), slots };
        assert(q.view() =~= Seq::<T>::empty());
        q
    }

    /// The slot after `pos`.
    fn next(&self, pos: usize) -> (r: usize)
        requires
            self.slots@.len() <= usize::MAX,
            pos < self.slots@.len(),
        ensures
            r == ring_add(pos as int, 1, self.slots@.len() as int),
    {
        let pos = pos + 1;
        if pos == self.slots.len() {
            0
        } else {
            pos
        }
    }
}

impl<T> Queue<T> {
    /// A queue holds at most its capacity.
    pub proof fn lemma_len(&self)
        requires
            self.wf(),
        ensures
            self.view().len() <= self.capacity(),
    {
    }

    /// Whether the queue holds no value.
    pub fn is_empty(&self) -> (r: bool)
        requires
            self.wf(),
        ensures
            r == (self.view().len() == 0),
    {
        self.head.0 == self.tail.0
    }
}

impl Handle {
    pub closed spec fn new_spec() -> Handle {
        Handle { head: 0, tail: 0 }
    }

    /// A handle whose cached head and tail are both at the start.
    pub fn new() -> (h: Handle)
        ensures
            h == Handle::new_spec(),
    {
        Handle { head: 0, tail: 0 }
    }

    /// Appends `value`, or hands it back if the queue is full.
    ///
    /// The cached head is reloaded only when it says the queue is full.
    pub fn push<T>(&mut self, value: T, queue: &mut Queue<T>) -> (r: Result<(), T>)
        requires
            old(queue).wf(),
            old(queue).producer(*old(self)),
        ensures
            final(queue).wf(),
            final(queue).producer(*final(self)),
            final(queue).capacity() == old(queue).capacity(),
            forall|c: Handle| old(queue).consumer(c) ==> final(queue).consumer(c),
            old(queue).view().len() < old(queue).capacity() ==> r is Ok && final(queue).view()
                == old(queue).view().push(value),
            old(queue).view().len() == old(queue).capacity() ==> r == Err::<(), T>(value)
                && final(queue).view() == old(queue).view(),
    {
        let ghost n = queue.slots@.len() as int;
        let tail = self.tail;
        let head = self.head;
        let next_tail = queue.next(tail);
        // is the queue full according to our cached head?
        if next_tail == head {
            // load the current head and update our cache
            let head = queue.head.0;
            self.head = head;
            // is the queue really full?
            if next_tail == head {
                return Err(value);
            }
        }
        // store the element and move the tail
        queue.slots.set(tail, Some(value));
        queue.tail.0 = next_tail;
        self.tail = next_tail;
        proof {
            let h = queue.head.0 as int;
            assert forall|i: int| 0 <= i < n implies (#[trigger] queue.slots@[i] is Some <==> ring_dist(
                h,
                i,
                n,
            ) < queue.len()) by {
                if i != tail as int {
                    assert(queue.slots@[i] == old(queue).slots@[i]);
                }
            }
            assert(queue.view() =~= old(queue).view().push(value)) by {
                assert forall|j: int| 0 <= j < queue.view().len() implies queue.view()[j]
                    == old(queue).view().push(value)[j] by {
                    if j < old(queue).len() {
                        assert(ring_add(h, j, n) != tail as int);
                    }
                }
            }
        }
        Ok(())
    }

    /// Removes the oldest value, if any.
    ///
    /// The cached tail is reloaded only when it says the queue is empty.
    pub fn pop<T>(&mut self, queue: &mut Queue<T>) -> (r: Option<T>)
        requires
            old(queue).wf(),
            old(queue).consumer(*old(self)),
        ensures
            final(queue).wf(),
            final(queue).consumer(*final(self)),
            final(queue).capacity() == old(queue).capacity(),
            forall|p: Handle| old(queue).producer(p) ==> final(queue).producer(p),
            old(queue).view().len() == 0 ==> r is None && final(queue).view() == old(queue).view(),
            old(queue).view().len() > 0 ==> r == Some(old(queue).view()[0]) && final(queue).view()
                == old(queue).view().drop_first(),
    {
        let ghost n = queue.slots@.len() as int;
        let head = self.head;
        let tail = self.tail;
        // is the queue empty according to our cached tail?
        if head == tail {
            // load the current tail and update our cache
            let tail = queue.tail.0;
            self.tail = tail;
            // is the queue really empty?
            if tail == head {
                proof {
                    assert(queue.view() =~= old(queue).view());
                }
                return None;
            }
        }
        // read the value
        let mut value = None;
        std::mem::swap(&mut value, &mut queue.slots[head]);
        // move the head
        let head = queue.next(head);
        queue.head.0 = head;
        self.head = head;
        proof {
            let h0 = old(queue).head.0 as int;
            assert forall|i: int| 0 <= i < n implies (#[trigger] queue.slots@[i] is Some <==> ring_dist(
                head as int,
                i,
                n,
            ) < queue.len()) by {
                if i != h0 {
                    assert(queue.slots@[i] == old(queue).slots@[i]);
                }
            }
            assert(queue.view() =~= old(queue).view().drop_first()) by {
                assert forall|j: int| 0 <= j < queue.view().len() implies queue.view()[j]
                    == old(queue).view().drop_first()[j] by {
                    assert(ring_add(head as int, j, n) == ring_add(h0, j + 1, n));
                    assert(ring_add(h0, j + 1, n) != h0);
                }
            }
        }
        value
    }
}

} // verus!
