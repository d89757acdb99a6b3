//! A list with insertion, removal and peeking at both ends, and an
//! owning iterator that can be driven from either end.

use vstd::prelude::*;

verus! {

/// Failure reported when an operation needs a stored item and none is
/// present.
#[derive(Debug)]
pub struct Error {
    details: String,
}

impl Error {
    /// The stored description of what went wrong.
    pub closed spec fn text(&self) -> Seq<char> {
        self.details@
    }

    /// Wraps a description of what went wrong.
    pub fn new(msg: &str) -> (e: Error)
        ensures
            e.text() == msg@,
    {
        Error { details: msg.to_owned() }
    }
}

/// A list of items reachable from both ends; index 0 is the front.
pub struct LinkedList<T> {
    items: Vec<T>,
}

impl<T> View for LinkedList<T> {
    type V = Seq<T>;

    closed spec fn view(&self) -> Seq<T> {
        self.items@
    }
}

/// An owning iterator over a [`LinkedList`], consumable from either end.
pub struct IntoIter<T>(LinkedList<T>);

impl<T> View for IntoIter<T> {
    type V = Seq<T>;

    closed spec fn view(&self) -> Seq<T> {
        self.0@
    }
}

impl<T> LinkedList<T> {
    /// Creates an empty list.
    pub fn new() -> (l: Self)
        ensures
            l@ == Seq::<T>::empty(),
    {
        let l = LinkedList { items: Vec::new() };
        proof {
            assert(l@ =~= Seq::<T>::empty());
        }
        l
    }

    /// True exactly when no item is stored.
    pub fn is_empty(&self) -> (r: bool)
        ensures
            r <==> self@.len() == 0,
    {
        self.items.is_empty()
    }

    /// Places `data` at the front of the list.
    pub fn insert_first(&mut self, data: T)
        ensures
            final(self)@ == old(self)@.insert(0, data),
    {
        self.items.insert(0, data);
    }

    /// Places `data` at the back of the list.
    pub fn insert_last(&mut self, data: T)
        ensures
            final(self)@ == old(self)@.push(data),
    {
        self.items.push(data);
    }

    /// Removes and returns the front item, or fails on an empty list,
    /// leaving it untouched.
    pub fn remove_first(&mut self) -> (r: Result<T, Error>)
        ensures
            old(self)@.len() == 0 ==> r is Err && final(self)@ == old(self)@,
            old(self)@.len() > 0 ==> r == Ok::<T, Error>(old(self)@[0]) && final(self)@ == old(
                self,
            )@.drop_first(),
    {
        if self.items.len() == 0 {
            Err(Error::new("list is empty"))
        } else {
            let data = self.items.remove(0);
            proof {
                assert(self@ =~= old(self)@.drop_first());
            }
            Ok(data)
        }
    }

    /// Removes and returns the back item, or fails on an empty list,
    /// leaving it untouched.
    pub fn remove_last(&mut self) -> (r: Result<T, Error>)
        ensures
            old(self)@.len() == 0 ==> r is Err && final(self)@ == old(self)@,
            old(self)@.len() > 0 ==> r == Ok::<T, Error>(old(self)@.last()) && final(self)@ == old(
                self,
            )@.drop_last(),
    {
        match self.items.pop() {
            None => Err(Error::new("list is empty")),
            Some(data) => Ok(data),
        }
    }

    /// Borrows the front item, or fails on an empty list.
    pub fn peek_first(&self) -> (r: Result<&T, Error>)
        ensures
            self@.len() == 0 ==> r is Err,
            self@.len() > 0 ==> (r matches Ok(p) && *p == self@[0]),
    {
        if self.items.len() == 0 {
            Err(Error::new("list is empty"))
        } else {
            Ok(&self.items[0])
        }
    }

    /// Borrows the back item, or fails on an empty list.
    pub fn peek_last(&self) -> (r: Result<&T, Error>)
        ensures
            self@.len() == 0 ==> r is Err,
            self@.len() > 0 ==> (r matches Ok(p) && *p == self@.last()),
    {
        if self.items.len() == 0 {
            Err(Error::new("list is empty"))
        } else {
            Ok(&self.items[self.items.len() - 1])
        }
    }

    /// Turns the list into an owning iterator over the same items.
    pub fn into_iter(self) -> (it: IntoIter<T>)
        ensures
            it@ == self@,
    {
        IntoIter(self)
    }
}

impl<T> IntoIter<T> {
    /// Yields the front of the remaining items, or nothing once they are
    /// exhausted.
    pub fn next(&mut self) -> (r: Option<T>)
        ensures
            old(self)@.len() == 0 ==> r is None && final(self)@ == old(self)@,
            old(self)@.len() > 0 ==> r == Some(old(self)@[0]) && final(self)@ == old(
                self,
            )@.drop_first(),
    {
        match self.0.remove_first() {
            Ok(data) => Some(data),
            Err(_) => None,
        }
    }

    /// Yields the back of the remaining items, or nothing once they are
    /// exhausted.
    pub fn next_back(&mut self) -> (r: Option<T>)
        ensures
            old(self)@.len() == 0 ==> r is None && final(self)@ == old(self)@,
            old(self)@.len() > 0 ==> r == Some(old(self)@.last()) && final(self)@ == old(
                self,
            )@.drop_last(),
    {
        match self.0.remove_last() {
            Ok(data) => Some(data),
            Err(_) => None,
        }
    }
}

} // verus!
