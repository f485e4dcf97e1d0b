//! The settings of a broker process: its task pool, the largest message it
//! takes, and how it places messages in partitions.
use vstd::prelude::*;
use crate::rafka_core::config::{Environment, parse_var_spec};
use crate::rafka_core::error::Error;
use crate::text::IntErrorKind;

verus! {

/// How messages are placed in partitions. Consistent hashing is the only
/// strategy; a `PARTITION_STRATEGY` variable of any value selects it.
#[derive(Clone, Copy, Debug, PartialEq, Eq, Structural)]
pub enum PartitionStrategy {
    Consistent,
}

#[derive(Clone, Copy, Debug, PartialEq, Eq, Structural)]
pub struct BrokerConfig {
    pub thread_pool_size: usize,
    pub max_message_size: usize,
    pub partition_strategy: PartitionStrategy,
}

#[derive(Clone, Copy, Debug, PartialEq, Eq, Structural)]
pub struct Config {
    pub broker: BrokerConfig,
}

impl Config {
    /// `BROKER_THREAD_POOL_SIZE` (default 32) and `MAX_MESSAGE_SIZE`
    /// (default 1048576) as `usize`; a number that does not parse is a
    /// configuration error with the parse error's text.
    pub fn from_env(env: &Environment) -> (r: Result<Config, Error>)
        requires
            env.wf(),
        ensures
            ({
                let pool = parse_var_spec(env@, "BROKER_THREAD_POOL_SIZE"@, "32"@, usize::MAX as int);
                let max_size = parse_var_spec(env@, "MAX_MESSAGE_SIZE"@, "1048576"@, usize::MAX as int);
                match r {
                    Ok(c) => pool == Ok::<int, IntErrorKind>(c.broker.thread_pool_size as int)
                        && max_size == Ok::<int, IntErrorKind>(c.broker.max_message_size as int)
                        && c.broker.partition_strategy == PartitionStrategy::Consistent,
                    Err(e) => match pool {
                        Err(k) => e matches Error::Config(t) && t@ == k.text(),
                        Ok(_) => max_size matches Err(k) && e matches Error::Config(t) && t@ == k.text(),
                    },
                }
            }),
    {
        let thread_pool_size = match env.parse_var("BROKER_THREAD_POOL_SIZE", "32", usize::MAX as u64) {
            Ok(v) => v as usize,
            Err(k) => return Err(Error::Config(k.describe())),
        };
        let max_message_size = match env.parse_var("MAX_MESSAGE_SIZE", "1048576", usize::MAX as u64) {
            Ok(v) => v as usize,
            Err(k) => return Err(Error::Config(k.describe())),
        };
        Ok(Config {
            broker: BrokerConfig {
                thread_pool_size,
                max_message_size,
                partition_strategy: PartitionStrategy::Consistent,
            },
        })
    }
}

} // verus!
