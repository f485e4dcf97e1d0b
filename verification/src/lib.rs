//! A partitioned message broker: the rules that decide where messages go,
//! how brokers agree on a log, and how the cluster reacts to joins,
//! failures and acknowledgements.
pub mod text;
pub mod rafka_core;
pub mod platform;
pub mod collections;
pub mod wire;
pub mod sorting;
pub mod env_config;
pub mod config;
pub mod broker;
pub mod rpc;
pub mod consumer;
pub mod network;
pub mod producer;
pub mod storage;
