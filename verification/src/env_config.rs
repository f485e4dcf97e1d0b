//! Reading a node's settings from the unprefixed environment variables.
use vstd::prelude::*;
use vstd::string::*;
use crate::rafka_core::config::{Config, Environment, FromEnv, var_or, parse_var_spec, same_config};
use crate::rafka_core::error::Error;
use crate::text::{IntErrorKind, split_to_strings, split_on, views};

verus! {

/// Reads the settings from `CACHE_TTL`, `KEYSPACE`, `NODES`, `BROKER_PORT`,
/// `PRODUCER_PORT`, `CONSUMER_PORT`, `PARTITION_COUNT` and
/// `REPLICATION_FACTOR`.
pub struct ConfigBuilder;

/// The first numeric variable that `ConfigBuilder` cannot read, with the
/// reason, in the order in which they are read.
pub open spec fn builder_config_error(env: Map<Seq<char>, Seq<char>>) -> Option<(Seq<char>, IntErrorKind)> {
    first_keyed_error(seq![
        ("CACHE_TTL"@, parse_var_spec(env, "CACHE_TTL"@, "60"@, u64::MAX as int)),
        ("BROKER_PORT"@, parse_var_spec(env, "BROKER_PORT"@, "8080"@, u64::MAX as int)),
        ("PRODUCER_PORT"@, parse_var_spec(env, "PRODUCER_PORT"@, "8081"@, u64::MAX as int)),
        ("CONSUMER_PORT"@, parse_var_spec(env, "CONSUMER_PORT"@, "8082"@, u64::MAX as int)),
        ("PARTITION_COUNT"@, parse_var_spec(env, "PARTITION_COUNT"@, "32"@, u64::MAX as int)),
        ("REPLICATION_FACTOR"@, parse_var_spec(env, "REPLICATION_FACTOR"@, "3"@, u64::MAX as int)),
    ])
}

pub open spec fn first_keyed_error(fields: Seq<(Seq<char>, Result<int, IntErrorKind>)>) -> Option<(Seq<char>, IntErrorKind)>
    decreases fields.len(),
{
    if fields.len() == 0 {
        None
    } else {
        match fields[0].1 {
            Err(e) => Some((fields[0].0, e)),
            Ok(_) => first_keyed_error(fields.drop_first()),
        }
    }
}

/// The value of a variable that `ConfigBuilder` read as a `u64`.
pub open spec fn builder_value(env: Map<Seq<char>, Seq<char>>, name: Seq<char>, default: Seq<char>) -> int {
    parse_var_spec(env, name, default, u64::MAX as int)->Ok_0
}

/// `c` holds what `ConfigBuilder` reads from `env` when every number parses.
pub open spec fn built_config(env: Map<Seq<char>, Seq<char>>, c: Config) -> bool {
    &&& c.cache_ttl as int == builder_value(env, "CACHE_TTL"@, "60"@)
    &&& c.keyspace@ == var_or(env, "KEYSPACE"@, "default_keyspace"@)
    &&& views(c.nodes@) == split_on(var_or(env, "NODES"@, "localhost:9092"@), ',')
    &&& c.broker_port == builder_value(env, "BROKER_PORT"@, "8080"@) as u16
    &&& c.producer_port == builder_value(env, "PRODUCER_PORT"@, "8081"@) as u16
    &&& c.consumer_port == builder_value(env, "CONSUMER_PORT"@, "8082"@) as u16
    &&& c.partition_count == builder_value(env, "PARTITION_COUNT"@, "32"@) as u32
    &&& c.replication_factor == builder_value(env, "REPLICATION_FACTOR"@, "3"@) as usize
    &&& c.node_id@ == "node_1"@
}

/// The text of the error for a variable that does not parse.
pub open spec fn parse_failure_text(name: Seq<char>, kind: IntErrorKind) -> Seq<char> {
    "Failed to parse "@ + name + ": "@ + kind.text()
}

fn read_u64(env: &Environment, name: &str, default: &str) -> (r: Result<u64, Error>)
    requires
        env.wf(),
    ensures
        match (r, parse_var_spec(env@, name@, default@, u64::MAX as int)) {
            (Ok(a), Ok(b)) => a as int == b,
            (Err(e), Err(k)) => e matches Error::Config(t) && t@ == parse_failure_text(name@, k),
            _ => false,
        },
{
    match env.parse_var(name, default, u64::MAX) {
        Ok(v) => Ok(v),
        Err(k) => {
            let mut text = String::from_str("Failed to parse ");
            text.append(name);
            text.append(": ");
            let reason = k.describe();
            text.append(reason.as_str());
            proof {
                reveal_strlit("Failed to parse ");
                reveal_strlit(": ");
            }
            assert(text@ =~= parse_failure_text(name@, k));
            Err(Error::Config(text))
        },
    }
}

impl ConfigBuilder {
    /// The settings, with the defaults `CACHE_TTL` 60, `KEYSPACE`
    /// `default_keyspace`, `NODES` `localhost:9092` (comma-separated),
    /// ports 8080, 8081 and 8082, `PARTITION_COUNT` 32 and
    /// `REPLICATION_FACTOR` 3. Every number is read as a `u64` and then
    /// narrowed to its field's type, keeping the low bits. The node id is the
    /// default `node_1`.
    pub fn from_env(env: &Environment) -> (r: Result<Config, Error>)
        requires
            env.wf(),
        ensures
            match r {
                Ok(c) => builder_config_error(env@) is None && built_config(env@, c),
                Err(e) => builder_config_error(env@) matches Some(fail)
                    && e matches Error::Config(t) && t@ == parse_failure_text(fail.0, fail.1),
            },
    {
        proof {
            reveal_with_fuel(first_keyed_error, 7);
            reveal_strlit("node_1");
        }
        let cache_ttl = read_u64(env, "CACHE_TTL", "60")?;
        let keyspace = env.var_or("KEYSPACE", "default_keyspace");
        let nodes_text = env.var_or("NODES", "localhost:9092");
        let nodes = split_to_strings(nodes_text.as_str(), ',');
        let broker_port = read_u64(env, "BROKER_PORT", "8080")?;
        let producer_port = read_u64(env, "PRODUCER_PORT", "8081")?;
        let consumer_port = read_u64(env, "CONSUMER_PORT", "8082")?;
        let partition_count = read_u64(env, "PARTITION_COUNT", "32")?;
        let replication_factor = read_u64(env, "REPLICATION_FACTOR", "3")?;
        Ok(Config {
            nodes,
            keyspace,
            broker_port: #[verifier::truncate] (broker_port as u16),
            producer_port: #[verifier::truncate] (producer_port as u16),
            consumer_port: #[verifier::truncate] (consumer_port as u16),
            cache_ttl,
            partition_count: #[verifier::truncate] (partition_count as u32),
            replication_factor: #[verifier::truncate] (replication_factor as usize),
            node_id: String::from_str("node_1"),
        })
    }
}

/// The settings as `ConfigBuilder` reads them.
pub struct RafkaConfig(pub Config);

impl FromEnv for RafkaConfig {
    fn from_env(env: &Environment) -> (r: Result<RafkaConfig, Error>)
        ensures
            match r {
                Ok(c) => builder_config_error(env@) is None && built_config(env@, c.0),
                Err(e) => builder_config_error(env@) matches Some(fail)
                    && e matches Error::Config(t) && t@ == parse_failure_text(fail.0, fail.1),
            },
    {
        match ConfigBuilder::from_env(env) {
            Ok(c) => Ok(RafkaConfig(c)),
            Err(e) => Err(e),
        }
    }
}

impl RafkaConfig {
    pub fn into_inner(self) -> (c: Config)
        ensures
            c == self.0,
    {
        self.0
    }
}

/// Wrapping a copy of settings and unwrapping it gives the settings back:
/// `RafkaConfig(c.clone()).into_inner()` agrees with `c` field for field.
/// `copy` is what `clone` gave for `c`, and `inner` what `into_inner` gave
/// for `RafkaConfig(copy)`.
pub proof fn lemma_into_inner_of_clone(c: Config, copy: Config, inner: Config)
    requires
        same_config(c, copy),
        inner == RafkaConfig(copy).0,
    ensures
        same_config(c, inner),
{
}

} // verus!
