//! Caches in front of the storage: a node's share of a ring-partitioned
//! cache, a cache shared by all nodes with a chosen read consistency, and
//! the table layout of the message store.
pub mod cache;
pub mod shared_cache;
pub mod scylla;
