//! A map that chooses small integer keys for its values.
//!
//! Values live in a vector of slots; a key is the index of its slot. Keys of
//! removed values are reused by later insertions: the free slots form a
//! singly-linked list threaded through the vector itself.
pub mod model;
mod map;
mod iter;
mod compare;
pub mod laws;
pub mod wrapped;

pub use map::CompactMap;
pub use compare::{compare, compare_from, partial_compare_from, same_pairs, slots_agree};
pub use iter::{Iter, IterMut, IntoIter, Drain, Keys, Values, ValuesMut};
