//! The broker's own settings.
pub mod broker_settings;

pub use broker_settings::{Config, BrokerConfig, PartitionStrategy};
