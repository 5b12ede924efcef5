//! A persistent singly-linked list with verified structural combinators.

pub mod linked_list;
pub mod pairs;
