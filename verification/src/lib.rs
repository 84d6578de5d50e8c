//! Groups text tokens into named classes and prepares one command per group.
//!
//! A *matcher* computes the key of a token, a *grouper* files the token under
//! that key in a grouped collection, and the command line layer turns a
//! populated collection into the input of one command per group and into the
//! final report.

pub mod command_line;
pub mod grouped_collections;
pub mod groupers;
pub mod matchers;
pub mod text;
