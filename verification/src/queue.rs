//! A first-in-first-out queue backed by a growable array: enqueuing
//! appends at the back, dequeuing shuffles every remaining item one slot
//! toward the front.

use vstd::prelude::*;

verus! {

/// Failure reported when an operation needs a stored item and none is
/// present.
#[derive(Debug)]
pub struct Error {
    details: String,
}

impl Error {
    /// The stored description of what went wrong.
    pub closed spec fn text(&self) -> Seq<char> {
        self.details@
    }

    /// Wraps a description of what went wrong.
    pub fn new(msg: &str) -> (e: Error)
        ensures
            e.text() == msg@,
    {
        Error { details: msg.to_owned() }
    }
}

/// A first-in-first-out queue; the front item is the one enqueued
/// earliest among those still stored.
pub struct ShuffleQueue<T> {
    queue: Vec<T>,
    count: usize,
}

impl<T> View for ShuffleQueue<T> {
    type V = Seq<T>;

    closed spec fn view(&self) -> Seq<T> {
        self.queue@
    }
}

impl<T> ShuffleQueue<T> {
    /// Structural invariant: the mirrored item counter agrees with the
    /// backing storage.
    pub closed spec fn wf(&self) -> bool {
        self.count == self.queue@.len()
    }

    /// Creates an empty queue.
    pub fn new() -> (q: Self)
        ensures
            q.wf(),
            q@ == Seq::<T>::empty(),
    {
        let q = ShuffleQueue { queue: Vec::new(), count: 0 };
        proof {
            assert(q@ =~= Seq::<T>::empty());
        }
        q
    }

    /// Appends `data` at the back of the queue.
    pub fn queue(&mut self, data: T)
        requires
            old(self).wf(),
            old(self)@.len() < usize::MAX,
        ensures
            final(self).wf(),
            final(self)@ == old(self)@.push(data),
    {
        self.queue.push(data);
        self.count = self.count + 1;
    }

    /// Removes and returns the front item, or fails on an empty queue,
    /// leaving it untouched.
    pub fn dequeue(&mut self) -> (r: Result<T, Error>)
        requires
            old(self).wf(),
        ensures
            final(self).wf(),
            old(self)@.len() == 0 ==> r is Err && final(self)@ == old(self)@,
            old(self)@.len() > 0 ==> r == Ok::<T, Error>(old(self)@[0]) && final(self)@ == old(
                self,
            )@.drop_first(),
    {
        if self.count == 0 {
            Err(Error::new("can not dequeue from empty queue"))
        } else {
            self.count = self.count - 1;
            let data = self.queue.remove(0);
            proof {
                assert(self@ =~= old(self)@.drop_first());
            }
            Ok(data)
        }
    }

    /// The number of stored items.
    pub fn count(&self) -> (r: usize)
        requires
            self.wf(),
        ensures
            r == self@.len(),
    {
        self.count
    }

    /// True exactly when no item is stored.
    pub fn is_empty(&self) -> (r: bool)
        requires
            self.wf(),
        ensures
            r <==> self@.len() == 0,
    {
        self.count == 0
    }
}

impl<T: Copy> ShuffleQueue<T> {
    /// Returns a copy of the front item without removing it, or fails on
    /// an empty queue.
    pub fn peek(&self) -> (r: Result<T, Error>)
        requires
            self.wf(),
        ensures
            self@.len() == 0 ==> r is Err,
            self@.len() > 0 ==> r == Ok::<T, Error>(self@[0]),
    {
        if self.count == 0 {
            Err(Error::new("can not peek empty queue"))
        } else {
            Ok(self.queue[0])
        }
    }
}

} // verus!
