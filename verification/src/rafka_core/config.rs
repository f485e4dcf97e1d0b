//! The node's settings, read from environment variables with defaults.
use vstd::prelude::*;
use vstd::string::*;
use crate::collections::StringMap;
use crate::text::{IntErrorKind, parse_unsigned, parse_unsigned_spec, split_to_strings, split_on, views};
use crate::rafka_core::error::Error;

verus! {

/// The environment variables that a node was started with, as the process
/// reads them; a variable that is not set (or not text) is absent.
pub struct Environment {
    vars: StringMap<String>,
}

impl Environment {
    pub closed spec fn wf(&self) -> bool {
        self.vars.wf()
    }

    /// Each variable's value.
    pub closed spec fn view(&self) -> Map<Seq<char>, Seq<char>> {
        self.vars@.map_values(|v: String| v@)
    }

    pub fn new() -> (e: Environment)
        ensures
            e.wf(),
            e@ == Map::<Seq<char>, Seq<char>>::empty(),
    {
        let e = Environment { vars: StringMap::new() };
        assert(e@ =~= Map::<Seq<char>, Seq<char>>::empty());
        e
    }

    pub fn set(&mut self, name: String, value: String)
        requires
            old(self).wf(),
        ensures
            final(self).wf(),
            final(self)@ == old(self)@.insert(name@, value@),
    {
        let ghost n = name@;
        let ghost v = value@;
        self.vars.insert(name, value);
        assert(self@ =~= old(self)@.insert(n, v));
    }

    /// `std::env::var(name)`.
    pub fn var(&self, name: &str) -> (r: Option<String>)
        requires
            self.wf(),
        ensures
            match r {
                Some(v) => self@.contains_key(name@) && self@[name@] == v@,
                None => !self@.contains_key(name@),
            },
    {
        let key = String::from_str(name);
        match self.vars.get(&key) {
            Some(v) => Some(v.clone()),
            None => None,
        }
    }

    /// `std::env::var(name).unwrap_or_else(|_| default.to_string())`.
    pub fn var_or(&self, name: &str, default: &str) -> (r: String)
        requires
            self.wf(),
        ensures
            r@ == var_or(self@, name@, default@),
    {
        match self.var(name) {
            Some(v) => v,
            None => String::from_str(default),
        }
    }

    /// The variable `name` (or `default`) read as an unsigned integer no
    /// larger than `max`.
    pub fn parse_var(&self, name: &str, default: &str, max: u64) -> (r: Result<u64, IntErrorKind>)
        requires
            self.wf(),
        ensures
            match (r, parse_var_spec(self@, name@, default@, max as int)) {
                (Ok(a), Ok(b)) => a as int == b,
                (Err(a), Err(b)) => a == b,
                _ => false,
            },
    {
        let text = self.var_or(name, default);
        parse_unsigned(text.as_str(), 10, max)
    }
}

/// The value of `name` in `env`, or `default` when it is not set.
pub open spec fn var_or(env: Map<Seq<char>, Seq<char>>, name: Seq<char>, default: Seq<char>) -> Seq<char> {
    if env.contains_key(name) { env[name] } else { default }
}

/// The variable `name` (or `default`) read as a decimal no larger than `max`.
pub open spec fn parse_var_spec(env: Map<Seq<char>, Seq<char>>, name: Seq<char>, default: Seq<char>, max: int) -> Result<int, IntErrorKind> {
    parse_unsigned_spec(var_or(env, name, default), 10, max)
}

/// The settings of a node.
#[derive(Debug)]
pub struct Config {
    pub nodes: Vec<String>,
    pub keyspace: String,
    pub broker_port: u16,
    pub producer_port: u16,
    pub consumer_port: u16,
    pub cache_ttl: u64,
    pub partition_count: u32,
    pub replication_factor: usize,
    pub node_id: String,
}

/// Two settings that agree field for field.
pub open spec fn same_config(a: Config, b: Config) -> bool {
    &&& a.nodes@ == b.nodes@
    &&& a.keyspace == b.keyspace
    &&& a.broker_port == b.broker_port
    &&& a.producer_port == b.producer_port
    &&& a.consumer_port == b.consumer_port
    &&& a.cache_ttl == b.cache_ttl
    &&& a.partition_count == b.partition_count
    &&& a.replication_factor == b.replication_factor
    &&& a.node_id == b.node_id
}

impl Clone for Config {
    /// A copy that agrees with the original field for field.
    fn clone(&self) -> (r: Self)
        ensures
            same_config(*self, r),
    {
        let nodes = self.nodes.clone();
        proof {
            assert forall|i: int| 0 <= i < nodes@.len() implies nodes@[i] == self.nodes@[i] by {
                assert(cloned::<String>(self.nodes[i], nodes[i]));
            }
            assert(nodes@ =~= self.nodes@);
        }
        Config {
            nodes,
            keyspace: self.keyspace.clone(),
            broker_port: self.broker_port,
            producer_port: self.producer_port,
            consumer_port: self.consumer_port,
            cache_ttl: self.cache_ttl,
            partition_count: self.partition_count,
            replication_factor: self.replication_factor,
            node_id: self.node_id.clone(),
        }
    }
}

/// A type whose value can be read from the environment.
pub trait FromEnv: Sized {
    fn from_env(env: &Environment) -> Result<Self, Error>
        requires
            env.wf(),
    ;
}

/// The first numeric setting of `Config` that the environment gets wrong,
/// in the order in which they are read.
pub open spec fn core_config_error(env: Map<Seq<char>, Seq<char>>) -> Option<IntErrorKind> {
    let fields = seq![
        parse_var_spec(env, "RAFKA_BROKER_PORT"@, "8080"@, 0xffff),
        parse_var_spec(env, "RAFKA_PRODUCER_PORT"@, "8081"@, 0xffff),
        parse_var_spec(env, "RAFKA_CONSUMER_PORT"@, "8082"@, 0xffff),
        parse_var_spec(env, "RAFKA_CACHE_TTL"@, "3600"@, 0xffff_ffff_ffff_ffff),
        parse_var_spec(env, "RAFKA_PARTITION_COUNT"@, "32"@, 0xffff_ffff),
        parse_var_spec(env, "RAFKA_REPLICATION_FACTOR"@, "3"@, usize::MAX as int),
    ];
    first_error(fields)
}

/// The error of the first refused field, if one is.
pub open spec fn first_error(fields: Seq<Result<int, IntErrorKind>>) -> Option<IntErrorKind>
    decreases fields.len(),
{
    if fields.len() == 0 {
        None
    } else {
        match fields[0] {
            Err(e) => Some(e),
            Ok(_) => first_error(fields.drop_first()),
        }
    }
}

impl FromEnv for Config {
    /// Reads `RAFKA_NODES` (comma-separated, default `127.0.0.1`),
    /// `RAFKA_KEYSPACE` (`rafka`), the ports `RAFKA_BROKER_PORT`,
    /// `RAFKA_PRODUCER_PORT`, `RAFKA_CONSUMER_PORT` (8080, 8081, 8082),
    /// `RAFKA_CACHE_TTL` (3600), `RAFKA_PARTITION_COUNT` (32),
    /// `RAFKA_REPLICATION_FACTOR` (3) and `RAFKA_NODE_ID` (`node_1`). A
    /// number that does not parse as its field's type is a configuration
    /// error that carries the parse error's text.
    fn from_env(env: &Environment) -> (r: Result<Config, Error>)
        ensures
            match r {
                Ok(c) => {
                    &&& core_config_error(env@) is None
                    &&& views(c.nodes@) == split_on(var_or(env@, "RAFKA_NODES"@, "127.0.0.1"@), ',')
                    &&& c.keyspace@ == var_or(env@, "RAFKA_KEYSPACE"@, "rafka"@)
                    &&& parse_var_spec(env@, "RAFKA_BROKER_PORT"@, "8080"@, 0xffff) == Ok::<int, IntErrorKind>(c.broker_port as int)
                    &&& parse_var_spec(env@, "RAFKA_PRODUCER_PORT"@, "8081"@, 0xffff) == Ok::<int, IntErrorKind>(c.producer_port as int)
                    &&& parse_var_spec(env@, "RAFKA_CONSUMER_PORT"@, "8082"@, 0xffff) == Ok::<int, IntErrorKind>(c.consumer_port as int)
                    &&& parse_var_spec(env@, "RAFKA_CACHE_TTL"@, "3600"@, 0xffff_ffff_ffff_ffff) == Ok::<int, IntErrorKind>(c.cache_ttl as int)
                    &&& parse_var_spec(env@, "RAFKA_PARTITION_COUNT"@, "32"@, 0xffff_ffff) == Ok::<int, IntErrorKind>(c.partition_count as int)
                    &&& parse_var_spec(env@, "RAFKA_REPLICATION_FACTOR"@, "3"@, usize::MAX as int) == Ok::<int, IntErrorKind>(c.replication_factor as int)
                    &&& c.node_id@ == var_or(env@, "RAFKA_NODE_ID"@, "node_1"@)
                },
                Err(e) => core_config_error(env@) matches Some(k) && e matches Error::Config(t) && t@ == k.text(),
            },
    {
        proof { reveal_with_fuel(first_error, 7); }
        let nodes_text = env.var_or("RAFKA_NODES", "127.0.0.1");
        let nodes = split_to_strings(nodes_text.as_str(), ',');
        let keyspace = env.var_or("RAFKA_KEYSPACE", "rafka");
        let broker_port = match env.parse_var("RAFKA_BROKER_PORT", "8080", 0xffff) {
            Ok(v) => v as u16,
            Err(e) => return Err(Error::Config(e.describe())),
        };
        let producer_port = match env.parse_var("RAFKA_PRODUCER_PORT", "8081", 0xffff) {
            Ok(v) => v as u16,
            Err(e) => return Err(Error::Config(e.describe())),
        };
        let consumer_port = match env.parse_var("RAFKA_CONSUMER_PORT", "8082", 0xffff) {
            Ok(v) => v as u16,
            Err(e) => return Err(Error::Config(e.describe())),
        };
        let cache_ttl = match env.parse_var("RAFKA_CACHE_TTL", "3600", 0xffff_ffff_ffff_ffff) {
            Ok(v) => v,
            Err(e) => return Err(Error::Config(e.describe())),
        };
        let partition_count = match env.parse_var("RAFKA_PARTITION_COUNT", "32", 0xffff_ffff) {
            Ok(v) => v as u32,
            Err(e) => return Err(Error::Config(e.describe())),
        };
        let replication_factor = match env.parse_var("RAFKA_REPLICATION_FACTOR", "3", usize::MAX as u64) {
            Ok(v) => v as usize,
            Err(e) => return Err(Error::Config(e.describe())),
        };
        let node_id = env.var_or("RAFKA_NODE_ID", "node_1");
        Ok(Config {
            nodes,
            keyspace,
            broker_port,
            producer_port,
            consumer_port,
            cache_ttl,
            partition_count,
            replication_factor,
            node_id,
        })
    }
}

} // verus!
