//! Messages, configuration, errors and the task pool shared by every part
//! of the broker.
pub mod error;
pub mod message;
pub mod config;
pub mod thread_pool;

pub use error::Error;
pub use message::{Message, MessageView, BrokerNode, MessageHeaders, CompressionType, MessageType, NetworkMessage};
pub use config::{Config, FromEnv, Environment};
pub use thread_pool::ThreadPool;

use vstd::prelude::*;

verus! {

/// The version of the wire protocol that a producer announces.
pub const PROTOCOL_VERSION: u32 = 1;

} // verus!
