//! Core logic of a keyboard-driven command launcher: a recency-ordered,
//! deduplicated, capped command history; a resolver that picks the command
//! to run from the current list selection or the entry text; the policy
//! mapping modifier keys to launch options; and the line-oriented codec for
//! the persisted bookmark and history lists.
//!
//! The presentation layer (window, lists, key events) and all I/O stay
//! outside; they hand this crate plain values and take plain values back.

pub mod history;
pub mod model;
pub mod policy;
pub mod programs;
pub mod resolve;
pub mod search;
mod seqs;
pub mod store;
