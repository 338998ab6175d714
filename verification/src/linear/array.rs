//! A fixed-capacity, array-backed ordered list with 1-based positional
//! addressing.
//!
//! The elements occupy a contiguous prefix `[0, length)` of the backing
//! buffer; that prefix invariant alone determines occupancy, and the
//! explicit `length` counter always equals the number of stored elements.

use vstd::prelude::*;
use vstd::std_specs::cmp::PartialEqSpec;

use crate::Error;

verus! {

/// The fixed capacity of every `ArrayList`.
pub const CAPACITY: usize = 100;

/// An ordered sequence over a capacity-checked contiguous buffer with an
/// explicit logical-length counter. External positions are 1-based; position
/// `p` maps to internal index `p - 1`.
pub struct ArrayList<T> {
    element: Vec<T>,
    length: usize,
}

/// Holds when the executable equality of `T` agrees with logical equality:
/// `a == b` in running code returns true exactly when the values are equal.
/// Plain data such as integers and characters satisfy this.
pub open spec fn eq_agrees<T: PartialEq>() -> bool {
    &&& T::obeys_eq_spec()
    &&& forall|x: T, y: T| #[trigger] x.eq_spec(&y) <==> x == y
}

/// What `locate_index` returns on a list viewed as `s`: the smallest
/// 1-based position of an element equal to `v`, or `NotFound`.
pub open spec fn locate_outcome<T>(s: Seq<T>, v: T) -> Result<usize, Error> {
    match s.index_of_first(v) {
        Some(i) => Ok((i + 1) as usize),
        None => Err(Error::NotFound),
    }
}

/// What `prior_element` returns on a list viewed as `s`: `Empty` on a list
/// with no elements; `NoPredecessor` when the first element equals `cur`;
/// otherwise the element left of the first match among positions 2 and up,
/// or `NotFound` when no position there matches.
pub open spec fn prior_outcome<T>(s: Seq<T>, cur: T) -> Result<T, Error> {
    if s.len() == 0 {
        Err(Error::Empty)
    } else if s[0] == cur {
        Err(Error::NoPredecessor)
    } else {
        match s.subrange(1, s.len() as int).index_of_first(cur) {
            Some(j) => Ok(s[j]),
            None => Err(Error::NotFound),
        }
    }
}

/// What `next_element` returns on a list viewed as `s`: `Empty` on a list
/// with no elements; `NoSuccessor` when the last element equals `cur`;
/// otherwise the element right of the first match among the positions
/// before the last, or `NotFound` when no position there matches.
pub open spec fn next_outcome<T>(s: Seq<T>, cur: T) -> Result<T, Error> {
    if s.len() == 0 {
        Err(Error::Empty)
    } else if s[s.len() - 1] == cur {
        Err(Error::NoSuccessor)
    } else {
        match s.subrange(0, s.len() - 1).index_of_first(cur) {
            Some(j) => Ok(s[j + 1]),
            None => Err(Error::NotFound),
        }
    }
}

impl<T> View for ArrayList<T> {
    type V = Seq<T>;

    closed spec fn view(&self) -> Seq<T> {
        self.element@
    }
}

impl<T> ArrayList<T> where T: Copy + PartialEq {
    /// Well-formedness: the counter equals the number of stored elements,
    /// which never exceeds the capacity.
    pub closed spec fn wf(&self) -> bool {
        self.length == self.element@.len() && self.element@.len() <= CAPACITY
    }

    /// Creates a new empty list.
    pub fn new() -> (r: ArrayList<T>)
        ensures
            r.wf(),
            r@.len() == 0,
    {
        ArrayList { element: Vec::with_capacity(CAPACITY), length: 0 }
    }

    /// Returns the element at the 1-based `index` by copy, or `OutOfBounds`
    /// when `index` is zero or beyond the current length.
    pub fn get_element(&self, index: usize) -> (r: Result<T, Error>)
        requires
            self.wf(),
        ensures
            r == if 1 <= index <= self@.len() {
                Ok::<T, Error>(self@[index - 1])
            } else {
                Err::<T, Error>(Error::OutOfBounds)
            },
    {
        if index == 0 {
            return Err(Error::OutOfBounds);
        }
        let idx = index - 1;
        if idx >= self.length {
            return Err(Error::OutOfBounds);
        }
        Ok(self.element[idx])
    }

    /// Inserts `element` so that it becomes the element at the 1-based
    /// `position`, shifting the elements from that position onward one slot
    /// rightward. Valid positions are `1..=length+1`; an invalid position
    /// fails with `OutOfBounds`, and a full list with `Full`.
    pub fn insert(&mut self, position: usize, element: T) -> (r: Result<(), Error>)
        requires
            old(self).wf(),
        ensures
            final(self).wf(),
            position == 0 || position > old(self)@.len() + 1 ==> r == Err::<(), Error>(
                Error::OutOfBounds,
            ) && final(self)@ == old(self)@,
            1 <= position <= old(self)@.len() + 1 && old(self)@.len() == CAPACITY ==> r == Err::<
                (),
                Error,
            >(Error::Full) && final(self)@ == old(self)@,
            1 <= position <= old(self)@.len() + 1 && old(self)@.len() < CAPACITY ==> r == Ok::<
                (),
                Error,
            >(()) && final(self)@ == old(self)@.insert(position - 1, element),
    {
        if position == 0 || position > self.length + 1 {
            return Err(Error::OutOfBounds);
        }
        let index = position - 1;
        if self.length >= CAPACITY {
            return Err(Error::Full);
        }
        if index == self.length {
            self.element.push(element);
        } else {
            let last = self.element[self.length - 1];
            self.element.push(last);
            let mut i = self.length - 1;
            while i > index
                invariant
                    self.length == old(self)@.len(),
                    self.length < CAPACITY,
                    index < self.element@.len(),
                    index <= i <= self.element@.len() - 1,
                    self.element@.len() == old(self)@.len() + 1,
                    forall|k: int| 0 <= k <= i ==> self.element@[k] == old(self)@[k],
                    forall|k: int|
                        i < k < self.element@.len() ==> self.element@[k] == old(self)@[k - 1],
                decreases i,
            {
                let v = self.element[i - 1];
                self.element[i] = v;
                i = i - 1;
            }
            self.element[index] = element;
        }
        self.length = self.length + 1;
        proof {
            assert(self.element@ =~= old(self)@.insert(position - 1, element));
        }
        Ok(())
    }

    /// Returns the smallest 1-based position of an element equal to
    /// `element`, scanning from the front, or `NotFound` when no element
    /// matches.
    pub fn locate_index(&self, element: T) -> (r: Result<usize, Error>)
        requires
            self.wf(),
            eq_agrees::<T>(),
        ensures
            r == locate_outcome(self@, element),
    {
        proof {
            self@.index_of_first_ensures(element);
        }
        let mut i: usize = 0;
        while i < self.length
            invariant
                self.wf(),
                eq_agrees::<T>(),
                i <= self@.len(),
                forall|j: int| 0 <= j < i ==> self@[j] != element,
            decreases self.length - i,
        {
            if self.element[i] == element {
                proof {
                    self@.index_of_first_ensures(element);
                }
                return Ok(i + 1);
            }
            i = i + 1;
        }
        proof {
            self@.index_of_first_ensures(element);
        }
        Err(Error::NotFound)
    }

    /// Removes the element at the 1-based `index`, shifting the elements
    /// after it one slot leftward; fails with `OutOfBounds` when `index` is
    /// zero or beyond the current length.
    pub fn delete(&mut self, index: usize) -> (r: Result<(), Error>)
        requires
            old(self).wf(),
        ensures
            final(self).wf(),
            index == 0 || index > old(self)@.len() ==> r == Err::<(), Error>(Error::OutOfBounds)
                && final(self)@ == old(self)@,
            1 <= index <= old(self)@.len() ==> r == Ok::<(), Error>(()) && final(self)@ == old(
                self,
            )@.remove(index - 1),
    {
        if index == 0 || index > self.length {
            return Err(Error::OutOfBounds);
        }
        let mut j = index;
        while j < self.length
            invariant
                1 <= index <= j <= self.length,
                self.length == self.element@.len(),
                self.element@.len() == old(self)@.len(),
                forall|k: int| 0 <= k < index - 1 ==> self.element@[k] == old(self)@[k],
                forall|k: int| index - 1 <= k < j - 1 ==> self.element@[k] == old(self)@[k + 1],
                forall|k: int|
                    j - 1 <= k < self.element@.len() ==> self.element@[k] == old(self)@[k],
            decreases self.length - j,
        {
            let v = self.element[j];
            self.element[j - 1] = v;
            j = j + 1;
        }
        let _ = self.element.pop();
        self.length = self.length - 1;
        proof {
            assert(self.element@ =~= old(self)@.remove(index - 1));
        }
        Ok(())
    }

    /// Removes every element, leaving the list empty.
    pub fn clear(&mut self)
        requires
            old(self).wf(),
        ensures
            final(self).wf(),
            final(self)@.len() == 0,
    {
        self.element.clear();
        self.length = 0;
    }

    /// Returns the number of elements currently held.
    pub fn length(&self) -> (r: usize)
        requires
            self.wf(),
        ensures
            r == self@.len(),
    {
        self.length
    }

    /// Reports whether the list holds no elements: true exactly when the
    /// length is zero.
    pub fn empty(&self) -> (r: bool)
        requires
            self.wf(),
        ensures
            r <==> self@.len() == 0,
    {
        self.length == 0
    }

    /// Returns the element immediately left of the first element equal to
    /// `cur_e` among positions 2 and up. Fails with `Empty` on a list with
    /// no elements, with `NoPredecessor` when the first element equals
    /// `cur_e`, and with `NotFound` when no element matches.
    pub fn prior_element(&self, cur_e: T) -> (r: Result<T, Error>)
        requires
            self.wf(),
            eq_agrees::<T>(),
        ensures
            r == prior_outcome(self@, cur_e),
    {
        if self.empty() {
            return Err(Error::Empty);
        }
        if self.element[0] == cur_e {
            return Err(Error::NoPredecessor);
        }
        proof {
            self@.subrange(1, self@.len() as int).index_of_first_ensures(cur_e);
        }
        let mut j: usize = 1;
        while j < self.length
            invariant
                self.wf(),
                eq_agrees::<T>(),
                self@.len() > 0,
                self@[0] != cur_e,
                1 <= j <= self@.len(),
                forall|k: int| 1 <= k < j ==> self@[k] != cur_e,
            decreases self.length - j,
        {
            if self.element[j] == cur_e {
                proof {
                    let s = self@;
                    let sub = s.subrange(1, s.len() as int);
                    sub.index_of_first_ensures(cur_e);
                    assert(sub[j - 1] == s[j as int]);
                    assert(sub.contains(cur_e)) by {
                        assert(sub[j - 1] == cur_e);
                    }
                    let idx = sub.index_of_first(cur_e).unwrap();
                    assert(idx == j - 1) by {
                        if idx < j - 1 {
                            assert(s[idx + 1] != cur_e);
                            assert(sub[idx] == s[idx + 1]);
                        }
                        if idx > j - 1 {
                            assert(sub[j - 1] != cur_e);
                        }
                    }
                }
                return Ok(self.element[j - 1]);
            }
            j = j + 1;
        }
        proof {
            self@.subrange(1, self@.len() as int).index_of_first_ensures(cur_e);
        }
        Err(Error::NotFound)
    }

    /// Returns the element immediately right of the first element equal to
    /// `cur_e` among the positions before the last. Fails with `Empty` on a
    /// list with no elements, with `NoSuccessor` when the last element
    /// equals `cur_e`, and with `NotFound` when no element matches.
    pub fn next_element(&self, cur_e: T) -> (r: Result<T, Error>)
        requires
            self.wf(),
            eq_agrees::<T>(),
        ensures
            r == next_outcome(self@, cur_e),
    {
        if self.empty() {
            return Err(Error::Empty);
        }
        if self.element[self.length - 1] == cur_e {
            return Err(Error::NoSuccessor);
        }
        proof {
            self@.subrange(0, self@.len() - 1).index_of_first_ensures(cur_e);
        }
        let mut j: usize = 0;
        while j < self.length - 1
            invariant
                self.wf(),
                eq_agrees::<T>(),
                self@.len() > 0,
                self@[self@.len() - 1] != cur_e,
                0 <= j <= self@.len() - 1,
                forall|k: int| 0 <= k < j ==> self@[k] != cur_e,
            decreases self.length - j,
        {
            if self.element[j] == cur_e {
                proof {
                    let s = self@;
                    let sub = s.subrange(0, s.len() - 1);
                    sub.index_of_first_ensures(cur_e);
                    assert(sub[j as int] == s[j as int]);
                    assert(sub.contains(cur_e)) by {
                        assert(sub[j as int] == cur_e);
                    }
                    let idx = sub.index_of_first(cur_e).unwrap();
                    assert(idx == j) by {
                        if idx < j {
                            assert(s[idx] != cur_e);
                            assert(sub[idx] == s[idx]);
                        }
                        if idx > j {
                            assert(sub[j as int] != cur_e);
                        }
                    }
                }
                return Ok(self.element[j + 1]);
            }
            j = j + 1;
        }
        proof {
            self@.subrange(0, self@.len() - 1).index_of_first_ensures(cur_e);
        }
        Err(Error::NotFound)
    }
}

/// Inserting a value at any valid 1-based position and then reading that
/// position yields the inserted value, and the length grows by exactly one.
/// Stated over the list view that `insert` and `get_element` are specified
/// with.
pub proof fn lemma_insert_then_get<T>(s: Seq<T>, position: int, value: T)
    requires
        1 <= position <= s.len() + 1,
    ensures
        s.insert(position - 1, value).len() == s.len() + 1,
        s.insert(position - 1, value)[position - 1] == value,
{
}

/// Deleting the element at any valid 1-based index shrinks the length by
/// exactly one, and reading the same index afterwards (when it is still in
/// range) yields the element previously one place to its right.
pub proof fn lemma_delete_then_get<T>(s: Seq<T>, index: int)
    requires
        1 <= index <= s.len(),
    ensures
        s.remove(index - 1).len() == s.len() - 1,
        index <= s.len() - 1 ==> s.remove(index - 1)[index - 1] == s[index],
{
}

/// The adjacency queries are inverse on a list whose elements are pairwise
/// distinct: when the successor of `a` is `b`, the predecessor of `b` is
/// `a`. (With duplicated values this can fail: in `[x, b, a, b]` the
/// successor of `a` is `b`, yet the predecessor of `b` is `x`.)
pub proof fn lemma_adjacent_inverse<T>(s: Seq<T>, a: T, b: T)
    requires
        s.no_duplicates(),
        next_outcome(s, a) == Ok::<T, Error>(b),
    ensures
        prior_outcome(s, b) == Ok::<T, Error>(a),
{
    let front = s.subrange(0, s.len() - 1);
    front.index_of_first_ensures(a);
    let j = front.index_of_first(a).unwrap();
    assert(s[j] == a);
    assert(b == s[j + 1]);
    assert(s[0] != b);
    let tail = s.subrange(1, s.len() as int);
    tail.index_of_first_ensures(b);
    assert(tail.contains(b)) by {
        assert(tail[j] == s[j + 1]);
    }
    let idx = tail.index_of_first(b).unwrap();
    assert(idx == j) by {
        assert(tail[idx] == s[idx + 1]);
        if idx != j {
            assert(s[idx + 1] != s[j + 1]);
        }
    }
}

} // verus!
