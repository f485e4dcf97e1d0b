//! The message table in ScyllaDB: the statements that create and use it,
//! and the rows that a write stores. The session that runs them belongs to
//! the caller.
use vstd::prelude::*;
use vstd::string::*;
use crate::platform::{bytes_content, bytes_to_vec, bytes_from_vec, utc_now_millis};

verus! {

/// The statements that write, read and delete one message by key.
#[derive(Debug)]
pub struct PreparedStatements {
    pub write: String,
    pub read: String,
    pub delete: String,
}

/// A row of the message table: the key, the value and the time of the
/// write in milliseconds since the UNIX epoch.
#[derive(Debug)]
pub struct MessageRow {
    pub key: String,
    pub value: Vec<u8>,
    pub timestamp: i64,
}

pub open spec fn write_cql() -> Seq<char> {
    "INSERT INTO messages (key, value, timestamp) VALUES (?, ?, ?)"@
}

pub open spec fn read_cql() -> Seq<char> {
    "SELECT value FROM messages WHERE key = ?"@
}

pub open spec fn delete_cql() -> Seq<char> {
    "DELETE FROM messages WHERE key = ?"@
}

pub open spec fn keyspace_cql() -> Seq<char> {
    "CREATE KEYSPACE IF NOT EXISTS rafka WITH replication = {'class': 'SimpleStrategy', 'replication_factor': 3}"@
}

pub open spec fn table_cql() -> Seq<char> {
    "CREATE TABLE IF NOT EXISTS messages (key text PRIMARY KEY, value blob, timestamp timestamp)"@
}

pub struct ScyllaStorage {
    pub nodes: Vec<String>,
    pub keyspace: String,
    pub prepared_statements: PreparedStatements,
}

impl ScyllaStorage {
    /// The store for the cluster at `nodes`, in `keyspace`, with its three
    /// statements.
    pub fn new(nodes: Vec<String>, keyspace: String) -> (s: ScyllaStorage)
        ensures
            s.nodes@ == nodes@,
            s.keyspace == keyspace,
            s.prepared_statements.write@ == write_cql(),
            s.prepared_statements.read@ == read_cql(),
            s.prepared_statements.delete@ == delete_cql(),
    {
        proof {
            reveal_strlit("INSERT INTO messages (key, value, timestamp) VALUES (?, ?, ?)");
            reveal_strlit("SELECT value FROM messages WHERE key = ?");
            reveal_strlit("DELETE FROM messages WHERE key = ?");
        }
        let prepared_statements = PreparedStatements {
            write: String::from_str("INSERT INTO messages (key, value, timestamp) VALUES (?, ?, ?)"),
            read: String::from_str("SELECT value FROM messages WHERE key = ?"),
            delete: String::from_str("DELETE FROM messages WHERE key = ?"),
        };
        ScyllaStorage { nodes, keyspace, prepared_statements }
    }

    /// The statements that create the keyspace and the message table, in
    /// the order in which they run.
    pub fn initialize_schema() -> (r: Vec<String>)
        ensures
            r@.len() == 2,
            r@[0]@ == keyspace_cql(),
            r@[1]@ == table_cql(),
    {
        proof {
            reveal_strlit("CREATE KEYSPACE IF NOT EXISTS rafka WITH replication = {'class': 'SimpleStrategy', 'replication_factor': 3}");
            reveal_strlit("CREATE TABLE IF NOT EXISTS messages (key text PRIMARY KEY, value blob, timestamp timestamp)");
        }
        let mut r: Vec<String> = Vec::new();
        r.push(String::from_str("CREATE KEYSPACE IF NOT EXISTS rafka WITH replication = {'class': 'SimpleStrategy', 'replication_factor': 3}"));
        r.push(String::from_str("CREATE TABLE IF NOT EXISTS messages (key text PRIMARY KEY, value blob, timestamp timestamp)"));
        r
    }

    /// The row that writing `value` under `key` stores, stamped with the
    /// current time.
    pub fn write(&self, key: &str, value: bytes::Bytes) -> (row: MessageRow)
        ensures
            row.key@ == key@,
            row.value@ == bytes_content(value),
    {
        MessageRow { key: key.to_string(), value: bytes_to_vec(&value), timestamp: utc_now_millis() }
    }

    /// What a read gives from the value column of the first row found, if
    /// any.
    pub fn read(&self, first_row: Option<Vec<u8>>) -> (r: Option<bytes::Bytes>)
        ensures
            match first_row {
                Some(v) => r matches Some(b) && bytes_content(b) == v@,
                None => r is None,
            },
    {
        match first_row {
            Some(v) => Some(bytes_from_vec(v)),
            None => None,
        }
    }
}

} // verus!
