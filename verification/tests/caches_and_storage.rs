use bytes::Bytes;
use rafka::rafka_core::Error;
use rafka::storage::cache::{CacheRead, DistributedCache};
use rafka::storage::shared_cache::{resolve_read, ConsistencyLevel, SharedCache, Versioned};
use rafka::storage::scylla::ScyllaStorage;

fn s(x: &str) -> String {
    x.to_string()
}

fn v(data: &str, version: u64) -> Option<Versioned> {
    Some(Versioned { value: Bytes::from(data.as_bytes().to_vec()), version })
}

#[test]
fn one_takes_the_first_answer_with_a_value() {
    assert_eq!(resolve_read(ConsistencyLevel::One, vec![None, v("x", 1), v("y", 9)]), Ok(Some(Bytes::from("x"))));
    assert_eq!(resolve_read(ConsistencyLevel::One, vec![None, None]), Ok(None));
}

#[test]
fn quorum_takes_the_most_recent_of_the_first_majority() {
    // five answers: a majority is three values
    let answers = vec![v("a", 3), None, v("b", 5), v("c", 5), v("d", 99)];
    assert_eq!(resolve_read(ConsistencyLevel::Quorum, answers), Ok(Some(Bytes::from("c"))));
    assert_eq!(resolve_read(ConsistencyLevel::Quorum, vec![v("a", 3), None, None]), Ok(None));
}

#[test]
fn all_needs_every_node() {
    assert_eq!(resolve_read(ConsistencyLevel::All, vec![v("a", 1), v("b", 2)]), Ok(Some(Bytes::from("b"))));
    assert_eq!(resolve_read(ConsistencyLevel::All, vec![v("a", 1), None]), Err(Error::ConsistencyError));
    assert_eq!(resolve_read(ConsistencyLevel::All, vec![]), Ok(None));
}

#[test]
fn shared_cache_entries_expire() {
    let mut c = SharedCache::new(s("n1"), 3, 100, ConsistencyLevel::Quorum);
    let u = c.put_at(s("k"), Bytes::from("v"), 1_000);
    assert_eq!(u.key, "k");
    assert_eq!(u.version, 1_000);
    assert_eq!(u.source_node, "n1");
    assert_eq!(&u.value[..], b"v");
    assert_eq!(c.get_local_at("k", 1_099), Some(Bytes::from("v")));
    assert_eq!(c.get_local_at("k", 1_100), None);
    assert!(!c.local_cache.contains_key("k"));
    assert_eq!(c.resolve(vec![v("x", 1)]), Ok(Some(Bytes::from("x"))));
}

#[test]
fn shared_cache_takes_updates_from_other_nodes_only() {
    let mut c = SharedCache::new(s("n1"), 3, 60_000_000_000, ConsistencyLevel::One);
    let own = rafka::storage::shared_cache::CacheUpdate { key: s("a"), value: Bytes::from("1"), version: 1, source_node: s("n1") };
    c.apply_update(own, 0);
    assert!(c.get_local_at("a", 0).is_none());
    let other = rafka::storage::shared_cache::CacheUpdate { key: s("a"), value: Bytes::from("2"), version: 2, source_node: s("n2") };
    c.apply_update(other, 0);
    assert_eq!(c.get_local_at("a", 50), Some(Bytes::from("2")));
    let u = c.put(s("b"), Bytes::from("3"));
    assert_eq!(u.key, "b");
    assert_eq!(c.get_local("b"), Some(Bytes::from("3")));
}

#[test]
fn ring_cache_serves_its_own_keys_and_forwards_the_rest() {
    let mut c = DistributedCache::new(s("n1"), 10);
    let owners_here = vec![s("n0"), s("n1")];
    let owners_there = vec![s("n2"), s("n3")];
    assert_eq!(c.put_at(s("k"), Bytes::from("v"), &owners_here, 5), None);
    assert!(matches!(c.get_at("k", &owners_here, 14), CacheRead::Local(Some(b)) if b == Bytes::from("v")));
    assert!(matches!(c.get_at("k", &owners_here, 15), CacheRead::Local(None)));
    assert_eq!(c.put_at(s("z"), Bytes::from("w"), &owners_there, 5), Some(s("n2")));
    assert!(matches!(c.get_at("z", &owners_there, 5), CacheRead::Forward(o) if o == "n2"));
    assert!(!c.local_cache.contains_key("z"));
}

#[test]
fn scylla_statements_and_rows() {
    let st = ScyllaStorage::new(vec![s("10.0.0.1:9042")], s("rafka"));
    assert_eq!(st.prepared_statements.write, "INSERT INTO messages (key, value, timestamp) VALUES (?, ?, ?)");
    assert_eq!(st.prepared_statements.read, "SELECT value FROM messages WHERE key = ?");
    assert_eq!(st.prepared_statements.delete, "DELETE FROM messages WHERE key = ?");
    let schema = ScyllaStorage::initialize_schema();
    assert_eq!(schema.len(), 2);
    assert!(schema[0].starts_with("CREATE KEYSPACE IF NOT EXISTS rafka"));
    let row = st.write("k", Bytes::from("abc"));
    assert_eq!(row.key, "k");
    assert_eq!(row.value, b"abc".to_vec());
    assert!(row.timestamp > 0);
    assert_eq!(st.read(Some(b"xyz".to_vec())), Some(Bytes::from("xyz")));
    assert_eq!(st.read(None), None);
}
