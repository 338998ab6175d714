//! A LIFO stack over contiguous storage with a fixed capacity and an
//! explicit top counter.

use vstd::prelude::*;

use crate::Error;

verus! {

/// A sequential (contiguous-storage) stack. `top` equals the number of
/// elements currently held and also indexes the next free slot; elements
/// occupy storage positions `[0, top)`.
pub struct SequentialStack<T> {
    /// The greatest number of elements the stack may hold.
    pub capacity: usize,
    /// The backing storage. Elements occupy positions `[0, top)`.
    pub data: Vec<T>,
    /// The number of elements currently held.
    pub top: usize,
}

impl<T> SequentialStack<T> {
    /// Well-formedness: `top` counts exactly the stored elements and never
    /// exceeds the capacity.
    pub open spec fn wf(&self) -> bool {
        self.top == self.data@.len() && self.top <= self.capacity
    }

    /// Creates an empty stack with the given fixed capacity.
    pub fn new(capacity: usize) -> (s: SequentialStack<T>)
        ensures
            s.wf(),
            s.capacity == capacity,
            s.top == 0,
            s.data@.len() == 0,
    {
        SequentialStack { capacity, data: Vec::with_capacity(capacity), top: 0 }
    }

    /// Reports whether the stack holds no elements.
    pub fn is_empty(&self) -> (r: bool)
        ensures
            r <==> self.top == 0,
    {
        self.top == 0
    }

    /// Reports whether the stack has reached its capacity.
    pub fn is_full(&self) -> (r: bool)
        ensures
            r <==> self.top >= self.capacity,
    {
        self.top >= self.capacity
    }

    /// Pushes `item` on top of the stack; fails with `Full` if and only if
    /// the stack already holds `capacity` elements.
    pub fn push(&mut self, item: T) -> (r: Result<(), Error>)
        requires
            old(self).wf(),
        ensures
            final(self).wf(),
            final(self).capacity == old(self).capacity,
            old(self).top < old(self).capacity ==> r == Ok::<(), Error>(())
                && final(self).data@ == old(self).data@.push(item)
                && final(self).top == old(self).top + 1,
            old(self).top >= old(self).capacity ==> r == Err::<(), Error>(Error::Full)
                && *final(self) == *old(self),
    {
        if self.is_full() {
            return Err(Error::Full);
        }
        self.data.push(item);
        self.top = self.top + 1;
        Ok(())
    }

    /// Removes and returns the top element; fails with `Empty` if and only
    /// if the stack holds no elements.
    pub fn pop(&mut self) -> (r: Result<T, Error>)
        requires
            old(self).wf(),
        ensures
            final(self).wf(),
            final(self).capacity == old(self).capacity,
            old(self).top == 0 ==> r == Err::<T, Error>(Error::Empty)
                && *final(self) == *old(self),
            old(self).top > 0 ==> r == Ok::<T, Error>(old(self).data@.last())
                && final(self).data@ == old(self).data@.drop_last()
                && final(self).top == old(self).top - 1,
    {
        if self.is_empty() {
            return Err(Error::Empty);
        }
        self.top = self.top - 1;
        Ok(self.data.pop().unwrap())
    }

    /// Returns a reference to the top element without removing it, or `None`
    /// when the stack is empty.
    pub fn get_top(&self) -> (r: Option<&T>)
        requires
            self.wf(),
        ensures
            self.top == 0 ==> r is None,
            self.top > 0 ==> (r matches Some(t) && *t == self.data@.last()),
    {
        if self.is_empty() {
            return None;
        }
        Some(&self.data[self.top - 1])
    }

    /// Returns a mutable reference to the top element without removing it,
    /// or `None` when the stack is empty. Writing through the reference
    /// replaces the top element and nothing else.
    pub fn get_top_mut(&mut self) -> (r: Option<&mut T>)
        requires
            old(self).wf(),
        ensures
            old(self).top == 0 ==> r is None && *final(self) == *old(self),
            old(self).top > 0 ==> r is Some,
            r matches Some(t) ==> *t == old(self).data@.last()
                && final(self).wf()
                && final(self).capacity == old(self).capacity
                && final(self).top == old(self).top
                && final(self).data@ == old(self).data@.update(old(self).top - 1, *final(t)),
    {
        if self.is_empty() {
            return None;
        }
        let i = self.top - 1;
        Some(&mut self.data[i])
    }
}

/// Push then pop is LIFO: a pop right after a push returns the pushed value
/// and restores the stack's previous content, so a run of pushes followed
/// by as many pops returns the values in exactly reversed order. Stated
/// over the storage view that `push` and `pop` are specified with.
pub proof fn lemma_push_pop_lifo<T>(s: Seq<T>, v: T)
    ensures
        s.push(v).last() == v,
        s.push(v).drop_last() == s,
{
    assert(s.push(v).drop_last() =~= s);
}

} // verus!
