//! A sharded, TTL-aware in-process key-value cache, with the small
//! companion utilities that live beside it.

pub mod expiry;
pub mod shard;
pub mod clock;
pub mod cache;
pub mod sweeper;
pub mod laws;
pub mod arith;
pub mod sums;
pub mod parsing;
pub mod linked_list;
pub mod employees;
pub mod greetings;
