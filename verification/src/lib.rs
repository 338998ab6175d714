//! Foundational linear containers and one sorting routine: a fixed-capacity,
//! array-backed ordered list with 1-based positional addressing, a singly
//! linked list rooted at a sentinel node, a fixed-capacity LIFO stack, and an
//! in-place partition-exchange sort for integer sequences.

pub mod linear;
pub mod sorting;

use vstd::prelude::*;

verus! {

/// The kinds of failure an operation on one of the containers can report.
/// Every anticipated bad input is surfaced as one of these; no operation
/// terminates the process on such an input.
#[derive(Clone, Copy, Debug, PartialEq, Eq, Structural)]
pub enum Error {
    /// An index or position lies outside the valid addressable range.
    OutOfBounds,
    /// The operation needs at least one element, but the container has none.
    Empty,
    /// The container's fixed capacity is exhausted.
    Full,
    /// A value-based lookup found no matching element.
    NotFound,
    /// The queried element is the first one and has no predecessor.
    NoPredecessor,
    /// The queried element is the last one and has no successor.
    NoSuccessor,
    /// An occupied slot held no element: an internal invariant was violated.
    /// Defensive only; unreachable through the operations of this crate.
    ElementMissing,
}

} // verus!
