//! Functions that assign a value to an equivalence class.
//!
//! A matcher takes an input value, and possibly some parameters, and returns
//! the key under which the value is grouped with others.

pub mod pattern;
pub mod string;
