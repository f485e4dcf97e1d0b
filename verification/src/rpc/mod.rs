//! The RPC side of the broker: a broker that owns one partition of the
//! topics, and the producer and consumer clients that talk to it.
pub mod proto;
pub mod broker;
pub mod message;
pub mod clients;
