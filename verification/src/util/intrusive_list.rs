//! A linked list of nodes, added at the front and taken from the back.
//!
//! Each node gets a key when it is pushed; the key names it for `remove`.
//! Keys grow with every push, so from front to back they decrease.
use vstd::prelude::*;

verus! {

/// A list node.
pub struct Node<T> {
    pub data: T,
}

impl<T> Node<T> {
    /// Creates a new `Node` with the given data.
    pub fn new(data: T) -> (n: Node<T>)
        ensures
            n.data == data,
    {
        Node { data }
    }
}

/// A linked list of nodes, each with its key.
pub struct LinkedList<T> {
    entries: Vec<(u64, Node<T>)>,
    next_key: u64,
}

impl<T> View for LinkedList<T> {
    type V = Seq<(u64, T)>;

    /// The keys and data of the nodes, from front to back.
    closed spec fn view(&self) -> Seq<(u64, T)> {
        self.entries@.map_values(|e: (u64, Node<T>)| (e.0, e.1.data))
    }
}

impl<T> LinkedList<T> {
    /// The key that the next push gives.
    pub closed spec fn next_key(&self) -> u64 {
        self.next_key
    }

    /// Keys decrease from front to back and lie below the next key.
    pub closed spec fn wf(&self) -> bool {
        &&& forall|i: int, j: int|
            0 <= i < j < self.entries@.len() ==> self.entries@[i].0 > self.entries@[j].0
        &&& forall|i: int| 0 <= i < self.entries@.len() ==> self.entries@[i].0 < self.next_key
    }

    /// What well-formedness says of the keys: they decrease from front to
    /// back and lie below the next key.
    pub proof fn lemma_keys(&self)
        requires
            self.wf(),
        ensures
            forall|i: int, j: int| 0 <= i < j < self@.len() ==> #[trigger] self@[i].0 > #[trigger] self@[j].0,
            forall|i: int| 0 <= i < self@.len() ==> #[trigger] self@[i].0 < self.next_key(),
    {
    }

    /// Creates an empty list.
    pub fn new() -> (l: Self)
        ensures
            l.wf(),
            l@ == Seq::<(u64, T)>::empty(),
            l.next_key() == 0,
    {
        LinkedList { entries: Vec::new(), next_key: 0 }
    }

    /// Whether the list holds no node.
    pub fn is_empty(&self) -> (r: bool)
        ensures
            r == (self@.len() == 0),
    {
        self.entries.len() == 0
    }

    /// Adds a node to the front of the list, returning its key.
    pub fn add_front(&mut self, node: Node<T>) -> (key: u64)
        requires
            old(self).wf(),
            old(self).next_key() < u64::MAX,
        ensures
            final(self).wf(),
            key == old(self).next_key(),
            final(self).next_key() == key + 1,
            final(self)@ == seq![(key, node.data)] + old(self)@,
    {
        let key = self.next_key;
        let ghost data = node.data;
        self.entries.insert(0, (key, node));
        self.next_key = key + 1;
        proof {
            assert(self@ =~= seq![(key, data)] + old(self)@);
        }
        key
    }

    /// Removes the last node of the list, with its key.
    pub fn pop(&mut self) -> (r: Option<(u64, Node<T>)>)
        requires
            old(self).wf(),
        ensures
            final(self).wf(),
            final(self).next_key() == old(self).next_key(),
            old(self)@.len() == 0 ==> r.is_none() && final(self)@ == old(self)@,
            old(self)@.len() > 0 ==> r.is_some() && (r.unwrap().0, r.unwrap().1.data) == old(
                self,
            )@.last() && final(self)@ == old(self)@.drop_last(),
    {
        let r = self.entries.pop();
        proof {
            if old(self)@.len() > 0 {
                assert(self@ =~= old(self)@.drop_last());
            }
        }
        r
    }

    /// Removes the node with the given key, if the list holds it.
    pub fn remove(&mut self, key: u64) -> (r: Option<Node<T>>)
        requires
            old(self).wf(),
        ensures
            final(self).wf(),
            final(self).next_key() == old(self).next_key(),
            (forall|i: int| 0 <= i < old(self)@.len() ==> old(self)@[i].0 != key) ==> r.is_none()
                && final(self)@ == old(self)@,
            forall|i: int|
                0 <= i < old(self)@.len() && (#[trigger] old(self)@[i]).0 == key ==> r.is_some()
                    && r.unwrap().data == old(self)@[i].1 && final(self)@ == old(self)@.remove(i),
    {
        let mut i: usize = 0;
        while i < self.entries.len()
            invariant
                self.wf(),
                *self == *old(self),
                i <= self.entries.len(),
                forall|j: int| 0 <= j < i ==> self.entries@[j].0 != key,
            decreases self.entries.len() - i,
        {
            if self.entries[i].0 == key {
                assert(old(self)@[i as int].0 == key);
                let (_, node) = self.entries.remove(i);
                proof {
                    assert(self@ =~= old(self)@.remove(i as int));
                    assert forall|j: int|
                        0 <= j < old(self)@.len() && old(self)@[j].0 == key implies j == i by {
                        if j < i {
                        } else if j > i {
                            assert(old(self).entries@[i as int].0 > old(self).entries@[j].0);
                        }
                    }
                }
                return Some(node);
            }
            i = i + 1;
        }
        None
    }

    /// The position of the node with key `key`, counted from the front.
    pub fn position(&self, key: u64) -> (r: Option<usize>)
        requires
            self.wf(),
        ensures
            r.is_none() ==> forall|i: int| 0 <= i < self@.len() ==> self@[i].0 != key,
            r.is_some() ==> r.unwrap() < self@.len() && self@[r.unwrap() as int].0 == key,
    {
        let mut i: usize = 0;
        while i < self.entries.len()
            invariant
                i <= self.entries.len(),
                forall|j: int| 0 <= j < i ==> self.entries@[j].0 != key,
            decreases self.entries.len() - i,
        {
            if self.entries[i].0 == key {
                return Some(i);
            }
            i = i + 1;
        }
        None
    }

    /// The data of the node at `index`, counted from the front, to change in place.
    pub fn data_mut(&mut self, index: usize) -> (r: &mut T)
        requires
            old(self).wf(),
            index < old(self)@.len(),
        ensures
            *r == old(self)@[index as int].1,
            final(self)@ == old(self)@.update(index as int, (old(self)@[index as int].0, *final(r))),
            final(self).next_key() == old(self).next_key(),
            final(self).wf(),
    {
        &mut self.entries[index].1.data
    }

    /// Removes all nodes from the list, from the back to the front.
    pub fn drain(&mut self) -> (r: Vec<(u64, Node<T>)>)
        requires
            old(self).wf(),
        ensures
            final(self).wf(),
            final(self).next_key() == old(self).next_key(),
            final(self)@.len() == 0,
            r@.len() == old(self)@.len(),
            forall|i: int|
                0 <= i < r@.len() ==> (#[trigger] r@[i].0, r@[i].1.data) == old(self)@[old(
                    self,
                )@.len() - 1 - i],
    {
        let mut out: Vec<(u64, Node<T>)> = Vec::new();
        let ghost total = old(self)@.len();
        while self.entries.len() > 0
            invariant
                self.wf(),
                self.next_key == old(self).next_key,
                self.entries@.len() + out@.len() == total,
                self@ == old(self)@.subrange(0, self.entries@.len() as int),
                total == old(self)@.len(),
                forall|i: int|
                    0 <= i < out@.len() ==> (#[trigger] out@[i].0, out@[i].1.data) == old(
                        self,
                    )@[total - 1 - i],
            decreases self.entries.len(),
        {
            let ghost before = self@;
            let e = self.entries.pop().unwrap();
            proof {
                assert(self@ =~= before.drop_last());
                assert((e.0, e.1.data) == before.last());
            }
            out.push(e);
            proof {
                assert(self@ =~= old(self)@.subrange(0, self.entries@.len() as int));
            }
        }
        out
    }
}

} // verus!
