//! A singly linked list rooted at a sentinel (non-data) head node.
//!
//! Each node exclusively owns its successor, so there is exactly one path
//! from the sentinel to any node and no cycles. External position 0 denotes
//! the sentinel itself; position `k` (for `k >= 1`) denotes the `k`-th real
//! data node.

use vstd::prelude::*;

use crate::Error;

verus! {

/// A linked-list node. The head of a list is a sentinel whose `data` is
/// `None`; nodes appended through the operations carry `Some` data.
pub struct ListNode<T> {
    /// The data stored in this node; `None` in the sentinel.
    pub data: Option<T>,
    /// The rest of the chain, exclusively owned by this node.
    pub next: Option<Box<ListNode<T>>>,
}

impl<T> ListNode<T> {
    /// The data fields of the nodes after this one, in chain order. Viewed
    /// from the sentinel this is the whole content of the list.
    pub open spec fn chain(self) -> Seq<Option<T>>
        decreases self,
    {
        match self.next {
            None => Seq::empty(),
            Some(n) => seq![n.data] + n.chain(),
        }
    }

    /// Creates a new sentinel node carrying no data.
    pub fn new() -> (r: ListNode<T>)
        ensures
            r.data is None,
            r.chain().len() == 0,
    {
        ListNode { data: None, next: None }
    }

    /// Returns a reference to the node `index` hops from this one (0 names
    /// this node itself), or `None` when the chain is shorter than `index`
    /// hops.
    pub fn get(&self, index: usize) -> (r: Option<&Self>)
        ensures
            r is Some <==> index <= self.chain().len(),
            r matches Some(node) ==> node.chain() == self.chain().skip(index as int)
                && node.data == (if index == 0 {
                    self.data
                } else {
                    self.chain()[index - 1]
                }),
        decreases index,
    {
        if index == 0 {
            Some(self)
        } else {
            match &self.next {
                None => None,
                Some(n) => {
                    let r = n.get(index - 1);
                    proof {
                        assert(self.chain() == seq![n.data] + n.chain());
                        if index - 1 <= n.chain().len() {
                            assert(n.chain().skip(index - 1) =~= self.chain().skip(index as int));
                        }
                    }
                    r
                },
            }
        }
    }

    /// Returns a mutable reference to the node `index` hops from this one
    /// (0 names this node itself), or `None` when the chain is shorter than
    /// `index` hops. Writing through the reference rewrites that node and
    /// the chain it owns, and nothing before it.
    pub fn get_mut(&mut self, index: usize) -> (r: Option<&mut Self>)
        ensures
            r is Some <==> index <= old(self).chain().len(),
            r is None ==> *final(self) == *old(self),
            r matches Some(node) ==> (*node).chain() == old(self).chain().skip(index as int)
                && (*node).data == (if index == 0 {
                    old(self).data
                } else {
                    old(self).chain()[index - 1]
                })
                && (if index == 0 {
                    *final(self) == *final(node)
                } else {
                    final(self).data == old(self).data && final(self).chain() == old(
                        self,
                    ).chain().subrange(0, index - 1) + seq![final(node).data] + final(node).chain()
                }),
        decreases index,
    {
        if index == 0 {
            Some(self)
        } else {
            match &mut self.next {
                None => None,
                Some(n) => {
                    proof {
                        assert(old(self).chain() == seq![n.data] + n.chain());
                        if index - 1 <= n.chain().len() {
                            assert(n.chain().skip(index - 1) =~= old(self).chain().skip(
                                index as int,
                            ));
                            if index > 1 {
                                assert(seq![n.data] + n.chain().subrange(0, index - 2)
                                    =~= old(self).chain().subrange(0, index - 1));
                            }
                        }
                    }
                    n.get_mut(index - 1)
                },
            }
        }
    }

    /// Appends a new node holding `data` after the current tail.
    pub fn push(&mut self, data: T)
        ensures
            final(self).data == old(self).data,
            final(self).chain() == old(self).chain().push(Some(data)),
        decreases old(self).chain().len(),
    {
        let node = self.next.take();
        match node {
            None => {
                self.next = Some(Box::new(ListNode { data: Some(data), next: None }));
                proof {
                    reveal_with_fuel(ListNode::chain, 3);
                    assert(self.chain() =~= old(self).chain().push(Some(data)));
                }
            },
            Some(mut n) => {
                let ghost pre = *n;
                n.push(data);
                proof {
                    assert(n.chain() == pre.chain().push(Some(data)));
                    assert(n.data == pre.data);
                    assert(old(self).chain() == seq![pre.data] + pre.chain());
                }
                self.next = Some(n);
                proof {
                    assert(self.chain() == seq![pre.data] + pre.chain().push(Some(data)));
                    assert(self.chain() =~= old(self).chain().push(Some(data)));
                }
            },
        }
    }

    /// Removes the last node of the chain. On a chain with no real nodes
    /// this is a no-op, not a failure.
    pub fn pop_tail(&mut self)
        ensures
            final(self).data == old(self).data,
            old(self).chain().len() == 0 ==> final(self).chain() == old(self).chain(),
            old(self).chain().len() > 0 ==> final(self).chain() == old(self).chain().drop_last(),
        decreases old(self).chain().len(),
    {
        let node = self.next.take();
        match node {
            None => {},
            Some(mut n) => {
                let ghost pre = *n;
                if n.next.is_none() {
                    proof {
                        reveal_with_fuel(ListNode::chain, 3);
                        assert(self.chain() =~= old(self).chain().drop_last());
                    }
                } else {
                    n.pop_tail();
                    proof {
                        reveal_with_fuel(ListNode::chain, 3);
                        assert(pre.chain().len() > 0);
                        assert(n.chain() == pre.chain().drop_last());
                    }
                    self.next = Some(n);
                    proof {
                        reveal_with_fuel(ListNode::chain, 3);
                        assert(old(self).chain() == seq![pre.data] + pre.chain());
                        assert(self.chain() =~= old(self).chain().drop_last());
                    }
                }
            },
        }
    }

    /// Inserts a new node holding `data` so that it becomes the node at the
    /// 1-based position `index` over real nodes, taking ownership of the
    /// former successor chain. Fails with `OutOfBounds` when `index` is zero
    /// or the node at `index - 1` does not exist.
    pub fn insert(&mut self, index: usize, data: T) -> (r: Result<(), Error>)
        ensures
            final(self).data == old(self).data,
            index == 0 || index > old(self).chain().len() + 1 ==> r == Err::<(), Error>(
                Error::OutOfBounds,
            ) && final(self).chain() == old(self).chain(),
            1 <= index <= old(self).chain().len() + 1 ==> r == Ok::<(), Error>(())
                && final(self).chain() == old(self).chain().insert(index - 1, Some(data)),
    {
        if index == 0 {
            return Err(Error::OutOfBounds);
        }
        match self.get_mut(index - 1) {
            None => Err(Error::OutOfBounds),
            Some(node) => {
                let ghost pre = *node;
                let rest = node.next.take();
                node.next = Some(Box::new(ListNode { data: Some(data), next: rest }));
                proof {
                    reveal_with_fuel(ListNode::chain, 3);
                    assert(node.chain() =~= seq![Some(data)] + pre.chain());
                    assert(node.chain() =~= seq![Some(data)] + old(self).chain().skip(index - 1));
                    if index > 1 {
                        assert(old(self).chain().subrange(0, index - 2) + seq![node.data]
                            + node.chain() =~= old(self).chain().insert(index - 1, Some(data)));
                    } else {
                        assert(node.chain() =~= old(self).chain().insert(0, Some(data)));
                    }
                }
                Ok(())
            },
        }
    }

    /// Removes the node at the 1-based position `index` over real nodes by
    /// re-linking its predecessor to its successor. Fails with `OutOfBounds`
    /// when `index` is zero or no node exists at that position.
    pub fn remove(&mut self, index: usize) -> (r: Result<(), Error>)
        ensures
            final(self).data == old(self).data,
            index == 0 || index > old(self).chain().len() ==> r == Err::<(), Error>(
                Error::OutOfBounds,
            ) && final(self).chain() == old(self).chain(),
            1 <= index <= old(self).chain().len() ==> r == Ok::<(), Error>(())
                && final(self).chain() == old(self).chain().remove(index - 1),
    {
        if index == 0 {
            return Err(Error::OutOfBounds);
        }
        match self.get_mut(index - 1) {
            None => Err(Error::OutOfBounds),
            Some(node) => {
                let ghost pre = *node;
                match node.next.take() {
                    None => {
                        proof {
                            if index > 1 {
                                assert(old(self).chain().subrange(0, index - 2) + seq![
                                    old(self).chain()[index - 2]] + old(self).chain().skip(
                                    index - 1,
                                ) =~= old(self).chain());
                            }
                        }
                        Err(Error::OutOfBounds)
                    },
                    Some(removed) => {
                        let ghost grem = *removed;
                        node.next = removed.next;
                        proof {
                            reveal_with_fuel(ListNode::chain, 3);
                            assert(pre.chain() == seq![grem.data] + grem.chain());
                            assert(node.chain() == grem.chain());
                            assert(node.chain() =~= old(self).chain().skip(index - 1).drop_first());
                            if index > 1 {
                                assert(old(self).chain().subrange(0, index - 2) + seq![node.data]
                                    + node.chain() =~= old(self).chain().remove(index - 1));
                            } else {
                                assert(node.chain() =~= old(self).chain().remove(0));
                            }
                        }
                        Ok(())
                    },
                }
            },
        }
    }

    /// The number of real (non-sentinel) nodes, counted by walking the
    /// chain.
    pub fn length(&mut self) -> (r: usize)
        requires
            old(self).chain().len() <= usize::MAX,
        ensures
            *final(self) == *old(self),
            r == old(self).chain().len(),
    {
        self.count()
    }

    /// Recursive walk counting the nodes after this one.
    fn count(&self) -> (r: usize)
        requires
            self.chain().len() <= usize::MAX,
        ensures
            r == self.chain().len(),
        decreases self,
    {
        match &self.next {
            None => 0,
            Some(n) => {
                proof {
                    assert(self.chain() == seq![n.data] + n.chain());
                }
                1 + n.count()
            },
        }
    }
}

/// The chain a list holds after pushing each value of `vals`, in order,
/// onto a list whose chain is `c`.
pub open spec fn append_all<T>(c: Seq<Option<T>>, vals: Seq<T>) -> Seq<Option<T>>
    decreases vals.len(),
{
    if vals.len() == 0 {
        c
    } else {
        append_all(c.push(Some(vals[0])), vals.skip(1))
    }
}

/// After `k` pushes, the length has grown by exactly `k`: pushing the `k`
/// values of `vals` onto a list whose chain is `c` leaves a chain of length
/// `c.len() + k`. Starting from a new (empty) list the length is exactly
/// `k`.
pub proof fn lemma_pushes_grow_length<T>(c: Seq<Option<T>>, vals: Seq<T>)
    ensures
        append_all(c, vals).len() == c.len() + vals.len(),
    decreases vals.len(),
{
    if vals.len() > 0 {
        lemma_pushes_grow_length(c.push(Some(vals[0])), vals.skip(1));
    }
}

/// Inserting a value at any valid position and then removing that same
/// position restores the original chain, value for value.
pub proof fn lemma_insert_then_remove<T>(c: Seq<Option<T>>, index: int, v: T)
    requires
        1 <= index <= c.len() + 1,
    ensures
        c.insert(index - 1, Some(v)).remove(index - 1) == c,
{
    assert(c.insert(index - 1, Some(v)).remove(index - 1) =~= c);
}

} // verus!
