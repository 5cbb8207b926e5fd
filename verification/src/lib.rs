//! A persistent, immutable singly-linked list (the classic Cons/Nil list)
//! with a small algebraic API: construction, inspection, transformation,
//! search and aggregation, each operation carrying a full functional
//! contract over the list's view as a mathematical sequence.

pub mod laws;
pub mod list;
