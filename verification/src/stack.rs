//! Two last-in-first-out stacks with the same contract: one backed by a
//! growable array, one by a singly linked chain of boxed nodes.

use vstd::prelude::*;

verus! {

/// Failure reported when an operation needs a stored item and none is
/// present.
#[derive(Debug)]
pub struct Error {
    details: String,
}

impl Error {
    /// The stored description of what went wrong.
    pub closed spec fn text(&self) -> Seq<char> {
        self.details@
    }

    /// Wraps a description of what went wrong.
    pub fn new(msg: &str) -> (e: Error)
        ensures
            e.text() == msg@,
    {
        Error { details: msg.to_owned() }
    }
}

/// A stack backed by a growable array; the last element is the top.
pub struct VecStack<T> {
    stack: Vec<T>,
    count: usize,
}

impl<T> View for VecStack<T> {
    type V = Seq<T>;

    closed spec fn view(&self) -> Seq<T> {
        self.stack@
    }
}

impl<T> VecStack<T> {
    /// Structural invariant: the mirrored item counter agrees with the
    /// backing storage.
    pub closed spec fn wf(&self) -> bool {
        self.count == self.stack@.len()
    }

    /// Creates an empty stack.
    pub fn new() -> (s: Self)
        ensures
            s.wf(),
            s@ == Seq::<T>::empty(),
    {
        let s = VecStack { stack: Vec::new(), count: 0 };
        proof {
            assert(s@ =~= Seq::<T>::empty());
        }
        s
    }

    /// Places `data` on top of the stack.
    pub fn push(&mut self, data: T)
        requires
            old(self).wf(),
            old(self)@.len() < usize::MAX,
        ensures
            final(self).wf(),
            final(self)@ == old(self)@.push(data),
    {
        self.stack.push(data);
        self.count = self.count + 1;
    }

    /// Removes and returns the top item, or fails on an empty stack,
    /// leaving it untouched.
    pub fn pop(&mut self) -> (r: Result<T, Error>)
        requires
            old(self).wf(),
        ensures
            final(self).wf(),
            old(self)@.len() == 0 ==> r is Err && final(self)@ == old(self)@,
            old(self)@.len() > 0 ==> r == Ok::<T, Error>(old(self)@.last()) && final(self)@ == old(
                self,
            )@.drop_last(),
    {
        if self.count == 0 {
            Err(Error::new("can not pop empty stack"))
        } else {
            self.count = self.count - 1;
            let data = self.stack.remove(self.count);
            proof {
                assert(self@ =~= old(self)@.drop_last());
            }
            Ok(data)
        }
    }

    /// The number of stored items.
    pub fn count(&self) -> (r: usize)
        requires
            self.wf(),
        ensures
            r == self@.len(),
    {
        self.count
    }

    /// True exactly when no item is stored.
    pub fn is_empty(&self) -> (r: bool)
        requires
            self.wf(),
        ensures
            r <==> self@.len() == 0,
    {
        self.count == 0
    }
}

impl<T: Copy> VecStack<T> {
    /// Returns a copy of the top item without removing it, or fails on an
    /// empty stack.
    pub fn peek(&self) -> (r: Result<T, Error>)
        requires
            self.wf(),
        ensures
            self@.len() == 0 ==> r is Err,
            self@.len() > 0 ==> r == Ok::<T, Error>(self@.last()),
    {
        if self.count == 0 {
            Err(Error::new("stack is empty"))
        } else {
            Ok(self.stack[self.count - 1])
        }
    }
}

/// One link of [`ListStack`]: an item and the rest of the chain below it.
struct ListStackNode<T> {
    data: T,
    next_node: Option<Box<ListStackNode<T>>>,
}

impl<T> ListStackNode<T> {
    /// Creates a link holding `data` on top of `next_node`.
    fn new(data: T, next_node: Option<Box<ListStackNode<T>>>) -> (n: Self)
        ensures
            n.data == data,
            n.next_node == next_node,
    {
        ListStackNode { data, next_node }
    }
}

/// The items of a chain, bottom first, so that the head of the chain is
/// the last element of the sequence.
spec fn chain_view<T>(n: Option<Box<ListStackNode<T>>>) -> Seq<T>
    decreases n,
{
    match n {
        None => Seq::empty(),
        Some(node) => chain_view(node.next_node).push(node.data),
    }
}

/// A stack backed by a singly linked chain of boxed nodes; the head node
/// is the top.
pub struct ListStack<T> {
    root_node: Option<Box<ListStackNode<T>>>,
    count: usize,
}

impl<T> View for ListStack<T> {
    type V = Seq<T>;

    closed spec fn view(&self) -> Seq<T> {
        chain_view(self.root_node)
    }
}

impl<T> ListStack<T> {
    /// Structural invariant: the mirrored item counter agrees with the
    /// chain's length.
    pub closed spec fn wf(&self) -> bool {
        self.count == self@.len()
    }

    /// Creates an empty stack.
    pub fn new() -> (s: Self)
        ensures
            s.wf(),
            s@ == Seq::<T>::empty(),
    {
        ListStack { root_node: None, count: 0 }
    }

    /// Places `data` on top of the stack.
    pub fn push(&mut self, data: T)
        requires
            old(self).wf(),
            old(self)@.len() < usize::MAX,
        ensures
            final(self).wf(),
            final(self)@ == old(self)@.push(data),
    {
        let new_node = ListStackNode::new(data, self.root_node.take());
        self.root_node = Some(Box::new(new_node));
        self.count = self.count + 1;
    }

    /// Removes and returns the top item, or fails on an empty stack,
    /// leaving it untouched.
    pub fn pop(&mut self) -> (r: Result<T, Error>)
        requires
            old(self).wf(),
        ensures
            final(self).wf(),
            old(self)@.len() == 0 ==> r is Err && final(self)@ == old(self)@,
            old(self)@.len() > 0 ==> r == Ok::<T, Error>(old(self)@.last()) && final(self)@ == old(
                self,
            )@.drop_last(),
    {
        if self.count == 0 {
            Err(Error::new("can not pop empty stack"))
        } else {
            let old_root_node = self.root_node.take().unwrap();
            let node = *old_root_node;
            self.root_node = node.next_node;
            self.count = self.count - 1;
            proof {
                assert(self@ =~= old(self)@.drop_last());
            }
            Ok(node.data)
        }
    }

    /// The number of stored items.
    pub fn count(&self) -> (r: usize)
        requires
            self.wf(),
        ensures
            r == self@.len(),
    {
        self.count
    }

    /// True exactly when no item is stored.
    pub fn is_empty(&self) -> (r: bool)
        requires
            self.wf(),
        ensures
            r <==> self@.len() == 0,
    {
        self.count == 0
    }
}

impl<T: Copy> ListStack<T> {
    /// Returns a copy of the top item without removing it, or fails on an
    /// empty stack.
    pub fn peek(&self) -> (r: Result<T, Error>)
        requires
            self.wf(),
        ensures
            self@.len() == 0 ==> r is Err,
            self@.len() > 0 ==> r == Ok::<T, Error>(self@.last()),
    {
        match &self.root_node {
            None => Err(Error::new("stack is empty")),
            Some(node) => Ok(node.data),
        }
    }
}

} // verus!
