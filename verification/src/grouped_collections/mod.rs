//! Collections that map a key to the list of values grouped under it.
//!
//! [`GroupedCollection`] is the interface that groupers fill and reports
//! read. [`SortedMap`] implements it with keys in their order, [`HashedMap`]
//! with keys in no particular order.

pub mod grouped_collection;
pub mod grouping;
pub mod hashed_map;
pub mod key;
pub mod sorted_map;
