//! The three linear containers: the array-backed list, the sentinel-rooted
//! singly linked list, and the bounded stack.

pub mod array;
pub mod list_node;
pub mod stack;
