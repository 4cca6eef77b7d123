//! A persistent, deduplicating queue: unique items kept in insertion order in
//! a named region of an ordered durable store, with an in-memory set that
//! mirrors membership for fast duplicate rejection.

pub mod codec;
pub mod errors;
pub mod hash_queue;
pub mod keys;
pub mod order;
pub mod store;
