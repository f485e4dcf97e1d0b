//! The broker node: where a message is stored, which partition it belongs
//! to, and how it reaches the consumers of that partition.
pub mod partition;
pub mod storage;
pub mod memory_store;
pub mod stateless;
pub mod routing;
pub mod load_balancer;
pub mod server;
pub mod eviction;

pub use stateless::StatelessBroker;
pub use server::Broker;
