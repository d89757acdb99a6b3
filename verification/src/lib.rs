//! Classic in-memory containers with verified contracts: array-backed binary
//! heaps (min and max ordering), a binary search tree, a linked list, a FIFO
//! queue and two stacks.

pub mod binary_heap;
pub mod binary_search_tree;
pub mod linked_list;
pub mod queue;
pub mod stack;
