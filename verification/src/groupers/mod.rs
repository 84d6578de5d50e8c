//! Functions that file a value under its key in a grouped collection.
//!
//! A grouper calls a matcher to find the key of a value and adds the value to
//! the group of that key.

pub mod string;
