//! The cluster: agreement on a log, elections, liveness, replication,
//! recovery and routing between nodes.
pub mod consensus;
pub mod leader;
pub mod heartbeat;
pub mod delivery;
pub mod p2p;
pub mod routing;
pub mod cluster;
pub mod recovery;
pub mod replication;
pub mod dht;
pub mod transfer;
pub mod kubernetes;
pub mod rebalance;
