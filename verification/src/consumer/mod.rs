//! Consumers: the members of a consumer group and the partitions they are
//! given.
pub mod group;
pub mod client;
