//! Cached values with an expiry, and the cache of a node in a ring: a key
//! is served here when this node is among its owners, else the request
//! goes to the key's first owner.
use vstd::prelude::*;
use crate::platform::{bytes_content, now_unix_nanos, max_duration_nanos};
use crate::text::{views, contains_string};

verus! {

/// A cached value, the time after which it is stale (nanoseconds since the
/// UNIX epoch) and its version.
#[derive(Debug)]
pub struct CacheEntry {
    pub data: bytes::Bytes,
    pub expires_at: u128,
    pub version: u64,
}

/// A cached value as plain values.
pub struct EntryView {
    pub data: Seq<u8>,
    pub expires_at: u128,
    pub version: u64,
}

impl View for CacheEntry {
    type V = EntryView;

    open spec fn view(&self) -> EntryView {
        EntryView { data: bytes_content(self.data), expires_at: self.expires_at, version: self.version }
    }
}

/// The cached entries, by key.
pub uninterp spec fn cache_table(m: dashmap::DashMap<String, CacheEntry>) -> Map<Seq<char>, EntryView>;

/// `DashMap::new` for a cache.
#[verifier::external_body]
pub(crate) fn new_cache_table() -> (m: dashmap::DashMap<String, CacheEntry>)
    ensures
        cache_table(m).dom() == Set::<Seq<char>>::empty(),
{
    dashmap::DashMap::new()
}

/// `DashMap::insert` for a cache.
#[verifier::external_body]
pub(crate) fn cache_insert(m: &mut dashmap::DashMap<String, CacheEntry>, k: String, e: CacheEntry)
    ensures
        cache_table(*final(m)) == cache_table(*old(m)).insert(k@, e@),
{
    m.insert(k, e);
}

/// `DashMap::remove` for a cache; the removed entry is dropped.
#[verifier::external_body]
pub(crate) fn cache_remove(m: &mut dashmap::DashMap<String, CacheEntry>, k: &str)
    ensures
        cache_table(*final(m)) == cache_table(*old(m)).remove(k@),
{
    m.remove(k);
}

/// `DashMap::get` for a cache: the expiry and a handle on the value.
#[verifier::external_body]
pub(crate) fn cache_get(m: &dashmap::DashMap<String, CacheEntry>, k: &str) -> (r: Option<(bytes::Bytes, u128)>)
    ensures
        match r {
            Some((b, t)) => cache_table(*m).contains_key(k@) && bytes_content(b) == cache_table(*m)[k@].data
                && t == cache_table(*m)[k@].expires_at,
            None => !cache_table(*m).contains_key(k@),
        },
{
    m.get(k).map(|e| (e.value().data.clone(), e.value().expires_at))
}

/// What a local read of `key` at time `now` leaves in the cache: an entry
/// that has expired is dropped.
pub open spec fn after_read(cache: Map<Seq<char>, EntryView>, key: Seq<char>, now: u128) -> Map<Seq<char>, EntryView> {
    if cache.contains_key(key) && cache[key].expires_at <= now {
        cache.remove(key)
    } else {
        cache
    }
}

/// The value that a local read of `key` at time `now` gives: the cached
/// value while it has not expired.
pub open spec fn fresh_value(cache: Map<Seq<char>, EntryView>, key: Seq<char>, now: u128) -> Option<Seq<u8>> {
    if cache.contains_key(key) && cache[key].expires_at > now {
        Some(cache[key].data)
    } else {
        None
    }
}

/// Reads `key` from a cache at time `now`, dropping the entry when it has
/// expired.
pub fn read_fresh(m: &mut dashmap::DashMap<String, CacheEntry>, key: &str, now: u128) -> (r: Option<bytes::Bytes>)
    ensures
        cache_table(*final(m)) == after_read(cache_table(*old(m)), key@, now),
        match fresh_value(cache_table(*old(m)), key@, now) {
            Some(v) => r matches Some(b) && bytes_content(b) == v,
            None => r is None,
        },
{
    match cache_get(m, key) {
        Some((data, expires_at)) => {
            if expires_at > now {
                Some(data)
            } else {
                cache_remove(m, key);
                None
            }
        },
        None => None,
    }
}

/// What a request to the ring's cache turned into: a local read, or a
/// request for the key's first owner.
#[derive(Debug)]
pub enum CacheRead {
    Local(Option<bytes::Bytes>),
    Forward(String),
}

pub struct DistributedCache {
    pub node_id: String,
    pub local_cache: dashmap::DashMap<String, CacheEntry>,
    pub ttl: u64,
}

impl DistributedCache {
    pub open spec fn entries(&self) -> Map<Seq<char>, EntryView> {
        cache_table(self.local_cache)
    }

    /// An empty cache for this node whose entries live `ttl` nanoseconds.
    pub fn new(node_id: String, ttl: u64) -> (c: DistributedCache)
        ensures
            c.node_id == node_id,
            c.ttl == ttl,
            c.entries().dom() == Set::<Seq<char>>::empty(),
    {
        DistributedCache { node_id, local_cache: new_cache_table(), ttl }
    }

    /// Reads `key` whose owners are `owners` at time `now`: served here
    /// (dropping an expired entry) when this node owns the key, else sent
    /// to the first owner.
    pub fn get_at(&mut self, key: &str, owners: &Vec<String>, now: u128) -> (r: CacheRead)
        requires
            views(owners@).contains(old(self).node_id@) || owners@.len() > 0,
        ensures
            final(self).node_id == old(self).node_id,
            final(self).ttl == old(self).ttl,
            views(owners@).contains(old(self).node_id@) ==> {
                &&& final(self).entries() == after_read(old(self).entries(), key@, now)
                &&& r matches CacheRead::Local(v) && match fresh_value(old(self).entries(), key@, now) {
                    Some(d) => v matches Some(b) && bytes_content(b) == d,
                    None => v is None,
                }
            },
            !views(owners@).contains(old(self).node_id@) ==> {
                &&& final(self).entries() == old(self).entries()
                &&& r matches CacheRead::Forward(o) && o == owners@[0]
            },
    {
        if contains_string(owners, &self.node_id) {
            CacheRead::Local(read_fresh(&mut self.local_cache, key, now))
        } else {
            CacheRead::Forward(owners[0].clone())
        }
    }

    /// Reads `key` now; see `get_at`.
    pub fn get(&mut self, key: &str, owners: &Vec<String>) -> (r: CacheRead)
        requires
            views(owners@).contains(old(self).node_id@) || owners@.len() > 0,
        ensures
            final(self).node_id == old(self).node_id,
            !views(owners@).contains(old(self).node_id@) ==> (r matches CacheRead::Forward(o) && o == owners@[0]),
    {
        let now = now_unix_nanos();
        self.get_at(key, owners, now)
    }

    /// Writes `key` at time `now`: stored here to expire `ttl` later when
    /// this node owns the key (returning `None`), else handed to the first
    /// owner (returned) and nothing is stored.
    pub fn put_at(&mut self, key: String, value: bytes::Bytes, owners: &Vec<String>, now: u128) -> (r: Option<String>)
        requires
            views(owners@).contains(old(self).node_id@) || owners@.len() > 0,
            now + old(self).ttl <= u128::MAX,
        ensures
            final(self).node_id == old(self).node_id,
            final(self).ttl == old(self).ttl,
            views(owners@).contains(old(self).node_id@) ==> {
                &&& r is None
                &&& final(self).entries().dom() == old(self).entries().dom().insert(key@)
                &&& forall|k: Seq<char>| k != key@ && #[trigger] old(self).entries().contains_key(k) ==> final(self).entries()[k] == old(self).entries()[k]
                &&& final(self).entries()[key@].data == bytes_content(value)
                &&& final(self).entries()[key@].expires_at == now + old(self).ttl
                &&& final(self).entries()[key@].version == 0
            },
            !views(owners@).contains(old(self).node_id@) ==> {
                &&& final(self).entries() == old(self).entries()
                &&& r == Some(owners@[0])
            },
    {
        if contains_string(owners, &self.node_id) {
            let entry = CacheEntry { data: value, expires_at: now + self.ttl as u128, version: 0 };
            cache_insert(&mut self.local_cache, key, entry);
            None
        } else {
            Some(owners[0].clone())
        }
    }

    /// Writes `key` now; see `put_at`.
    pub fn put(&mut self, key: String, value: bytes::Bytes, owners: &Vec<String>) -> (r: Option<String>)
        requires
            views(owners@).contains(old(self).node_id@) || owners@.len() > 0,
        ensures
            final(self).node_id == old(self).node_id,
            !views(owners@).contains(old(self).node_id@) ==> final(self).entries() == old(self).entries() && r == Some(owners@[0]),
            views(owners@).contains(old(self).node_id@) ==> r is None && final(self).entries()[key@].data == bytes_content(value),
    {
        let now = now_unix_nanos();
        self.put_at(key, value, owners, now)
    }
}

} // verus!
