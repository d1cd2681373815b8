//! A per-key click counter kept as decimal text in a key-value store.
//!
//! The store is only eventually consistent and has no atomic increment, so an
//! increment is a read followed by a write. This crate holds the rules of that
//! cycle: how stored text is read as a count, what an increment writes, how the
//! backend's answers become results, and what can and cannot be promised when
//! several increments overlap.

pub mod adapter;
pub mod codec;
pub mod counter;
pub mod error;
pub mod overlap;
pub mod store;
