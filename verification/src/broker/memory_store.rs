//! Partitions kept in memory, with indexes by time and by key, and the
//! accounting of the memory they take.
use vstd::prelude::*;
use vstd::string::*;
use crate::rafka_core::{Error, Message};
use crate::rafka_core::message::{MessageView, message_views, copy_messages};
use crate::platform::now_unix_nanos;

verus! {

// ------------------------------------------------------------ the indexes

/// The position that each timestamp points at.
pub uninterp spec fn timestamp_positions(m: dashmap::DashMap<u128, u64>) -> Map<u128, u64>;

/// The positions that each key points at, in the order they were added.
pub uninterp spec fn key_positions(m: dashmap::DashMap<Vec<u8>, Vec<u64>>) -> Map<Seq<u8>, Seq<u64>>;

/// `DashMap::new` for the timestamp index.
#[verifier::external_body]
fn new_timestamp_index() -> (m: dashmap::DashMap<u128, u64>)
    ensures
        timestamp_positions(m).dom() == Set::<u128>::empty(),
{
    dashmap::DashMap::new()
}

/// `DashMap::insert` for the timestamp index.
#[verifier::external_body]
fn index_timestamp(m: &mut dashmap::DashMap<u128, u64>, ts: u128, pos: u64)
    ensures
        timestamp_positions(*final(m)) == timestamp_positions(*old(m)).insert(ts, pos),
{
    m.insert(ts, pos);
}

/// `DashMap::new` for the key index.
#[verifier::external_body]
fn new_key_index() -> (m: dashmap::DashMap<Vec<u8>, Vec<u64>>)
    ensures
        key_positions(m).dom() == Set::<Seq<u8>>::empty(),
{
    dashmap::DashMap::new()
}

/// `DashMap::get` for the key index, copying the positions out.
#[verifier::external_body]
fn key_index_get(m: &dashmap::DashMap<Vec<u8>, Vec<u64>>, key: &Vec<u8>) -> (r: Option<Vec<u64>>)
    ensures
        match r {
            Some(v) => key_positions(*m).contains_key(key@) && v@ == key_positions(*m)[key@],
            None => !key_positions(*m).contains_key(key@),
        },
{
    m.get(key).map(|entry| vstd::slice::slice_to_vec(entry.value().as_slice()))
}

/// `DashMap::insert` for the key index.
#[verifier::external_body]
fn key_index_set(m: &mut dashmap::DashMap<Vec<u8>, Vec<u64>>, key: Vec<u8>, v: Vec<u64>)
    ensures
        key_positions(*final(m)) == key_positions(*old(m)).insert(key@, v@),
{
    m.insert(key, v);
}

/// Where each message of a partition can be found by time and by key.
pub struct MessageIndexes {
    timestamp_index: dashmap::DashMap<u128, u64>,
    key_index: dashmap::DashMap<Vec<u8>, Vec<u64>>,
}

impl MessageIndexes {
    pub closed spec fn by_timestamp(&self) -> Map<u128, u64> {
        timestamp_positions(self.timestamp_index)
    }

    pub closed spec fn by_key(&self) -> Map<Seq<u8>, Seq<u64>> {
        key_positions(self.key_index)
    }
}

/// Who leads and follows a partition, how many bytes it holds, and when it
/// was last used (nanoseconds since the UNIX epoch).
pub struct PartitionMetadata {
    pub leader_id: String,
    pub followers: Vec<String>,
    pub size_bytes: u64,
    pub last_access: u128,
}

pub struct PartitionStore {
    pub messages: Vec<Message>,
    pub metadata: PartitionMetadata,
    pub indexes: MessageIndexes,
}

impl PartitionStore {
    /// Every position in an index is that of a message with that timestamp
    /// or that key.
    pub open spec fn indexes_consistent(&self) -> bool {
        &&& forall|ts: u128| #[trigger] self.indexes.by_timestamp().contains_key(ts) ==> {
            let pos = self.indexes.by_timestamp()[ts];
            pos < self.messages@.len() && message_views(self.messages@)[pos as int].timestamp == ts
        }
        &&& forall|k: Seq<u8>, j: int| #[trigger] self.indexes.by_key().contains_key(k) && 0 <= j < self.indexes.by_key()[k].len() ==> {
            let pos = #[trigger] self.indexes.by_key()[k][j];
            pos < self.messages@.len() && message_views(self.messages@)[pos as int].key == Some(k)
        }
    }
}

// ------------------------------------------------------------ the store

/// The partition stores, by name.
pub uninterp spec fn partition_stores(m: dashmap::DashMap<String, PartitionStore>) -> Map<Seq<char>, PartitionStore>;

/// `DashMap::new` for the stores.
#[verifier::external_body]
fn new_store_map() -> (m: dashmap::DashMap<String, PartitionStore>)
    ensures
        partition_stores(m).dom() == Set::<Seq<char>>::empty(),
{
    dashmap::DashMap::new()
}

/// `DashMap::remove`: takes the store of `key` out of the map.
#[verifier::external_body]
fn take_store(m: &mut dashmap::DashMap<String, PartitionStore>, key: &String) -> (r: Option<PartitionStore>)
    ensures
        partition_stores(*final(m)) == partition_stores(*old(m)).remove(key@),
        match r {
            Some(ps) => partition_stores(*old(m)).contains_key(key@) && ps == partition_stores(*old(m))[key@],
            None => !partition_stores(*old(m)).contains_key(key@),
        },
{
    m.remove(key).map(|entry| entry.1)
}

/// `DashMap::insert`: puts the store of `key` in the map.
#[verifier::external_body]
fn put_store(m: &mut dashmap::DashMap<String, PartitionStore>, key: String, ps: PartitionStore)
    ensures
        partition_stores(*final(m)) == partition_stores(*old(m)).insert(key@, ps),
{
    m.insert(key, ps);
}

/// `DashMap::get`, copying the messages of the store out.
#[verifier::external_body]
fn store_messages(m: &dashmap::DashMap<String, PartitionStore>, key: &str) -> (r: Option<Vec<Message>>)
    ensures
        match r {
            Some(v) => partition_stores(*m).contains_key(key@) && message_views(v@) == message_views(partition_stores(*m)[key@].messages@),
            None => !partition_stores(*m).contains_key(key@),
        },
{
    m.get(key).map(|entry| copy_messages(&entry.value().messages))
}

/// What the eviction order reads of a held partition.
pub struct PartitionSummary {
    pub name: String,
    pub last_access: u128,
    pub size_bytes: u64,
}

/// The partitions as `DashMap::iter` walks them, each summarised once, in
/// an order that the map does not promise.
#[verifier::external_body]
fn store_summaries(m: &dashmap::DashMap<String, PartitionStore>) -> (r: Vec<PartitionSummary>)
    ensures
        r@.map_values(|e: PartitionSummary| e.name@).no_duplicates(),
        r@.map_values(|e: PartitionSummary| e.name@).to_set() == partition_stores(*m).dom(),
        forall|i: int| 0 <= i < r@.len() ==> {
            let ps = partition_stores(*m)[(#[trigger] r@[i]).name@];
            &&& ps.metadata.last_access == r@[i].last_access
            &&& ps.metadata.size_bytes == r@[i].size_bytes
        },
{
    m.iter().map(|e| PartitionSummary {
        name: e.key().clone(),
        last_access: e.value().metadata.last_access,
        size_bytes: e.value().metadata.size_bytes,
    }).collect()
}

// ------------------------------------------------------------ accounting

/// The bytes that the partitions hold together.
pub open spec fn total_bytes(m: Map<Seq<char>, PartitionStore>) -> int
    decreases m.dom().len(),
{
    if m.dom().finite() && m.dom().len() > 0 {
        let k = m.dom().choose();
        m[k].metadata.size_bytes + total_bytes(m.remove(k))
    } else {
        0
    }
}

/// The total is never negative.
proof fn lemma_total_nonneg(m: Map<Seq<char>, PartitionStore>)
    ensures
        total_bytes(m) >= 0,
    decreases m.dom().len(),
{
    if m.dom().finite() && m.dom().len() > 0 {
        let k = m.dom().choose();
        lemma_total_nonneg(m.remove(k));
    }
}

/// The total is the bytes of any one partition and the total of the rest.
proof fn lemma_total_remove(m: Map<Seq<char>, PartitionStore>, k: Seq<char>)
    requires
        m.dom().finite(),
        m.dom().contains(k),
    ensures
        total_bytes(m) == m[k].metadata.size_bytes + total_bytes(m.remove(k)),
    decreases m.dom().len(),
{
    let c = m.dom().choose();
    if c != k {
        lemma_total_remove(m.remove(c), k);
        lemma_total_remove(m.remove(k), c);
        assert(m.remove(c).remove(k) =~= m.remove(k).remove(c));
    }
}

/// Putting a partition in the map: the total of the others and its bytes.
proof fn lemma_total_insert(m: Map<Seq<char>, PartitionStore>, k: Seq<char>, v: PartitionStore)
    requires
        m.dom().finite(),
    ensures
        total_bytes(m.insert(k, v)) == v.metadata.size_bytes + total_bytes(m.remove(k)),
        m.dom().contains(k) ==> total_bytes(m) == m[k].metadata.size_bytes + total_bytes(m.remove(k)),
        !m.dom().contains(k) ==> total_bytes(m) == total_bytes(m.remove(k)),
{
    lemma_total_remove(m.insert(k, v), k);
    assert(m.insert(k, v).remove(k) =~= m.remove(k));
    if m.dom().contains(k) {
        lemma_total_remove(m, k);
    } else {
        assert(m.remove(k) =~= m);
    }
}

/// With no partition but `k`, the total is what `k` holds, if it is held.
proof fn lemma_total_only(m: Map<Seq<char>, PartitionStore>, k: Seq<char>)
    requires
        m.dom().finite(),
        forall|x: Seq<char>| #[trigger] m.dom().contains(x) ==> x == k,
    ensures
        total_bytes(m) == if m.dom().contains(k) { m[k].metadata.size_bytes as int } else { 0 },
{
    if m.dom().contains(k) {
        lemma_total_remove(m, k);
        assert(m.remove(k).dom() =~= Set::<Seq<char>>::empty());
    } else {
        assert(m.dom() =~= Set::<Seq<char>>::empty());
    }
}

/// A partition with no messages, no bytes, no leader, no followers and
/// empty indexes.
pub open spec fn is_empty_partition(ps: PartitionStore) -> bool {
    &&& ps.messages@.len() == 0
    &&& ps.metadata.size_bytes == 0
    &&& ps.metadata.leader_id@ == Seq::<char>::empty()
    &&& ps.metadata.followers@.len() == 0
    &&& ps.indexes.by_timestamp() == Map::<u128, u64>::empty()
    &&& ps.indexes.by_key() == Map::<Seq<u8>, Seq<u64>>::empty()
}

/// The answer to a read: the messages held in memory, or that the request
/// must go to a broker.
pub enum StoreResponse {
    InMemory(Vec<Message>),
    NeedsRouting,
}

/// Which partitions go first when memory runs out.
#[derive(Clone, Copy, Debug, PartialEq, Eq, Structural)]
pub enum EvictionPolicy {
    LRU,
    Size,
}

/// Whether, under `policy`, partition `a` goes no later than `b`: the one
/// used less recently first, or the larger first.
pub open spec fn goes_first(policy: EvictionPolicy, a: PartitionStore, b: PartitionStore) -> bool {
    match policy {
        EvictionPolicy::LRU => a.metadata.last_access <= b.metadata.last_access,
        EvictionPolicy::Size => a.metadata.size_bytes >= b.metadata.size_bytes,
    }
}

/// `goes_first` read on summaries.
pub open spec fn summary_first(policy: EvictionPolicy, a: PartitionSummary, b: PartitionSummary) -> bool {
    match policy {
        EvictionPolicy::LRU => a.last_access <= b.last_access,
        EvictionPolicy::Size => a.size_bytes >= b.size_bytes,
    }
}

/// The partitions went from `before` to `after` by evicting partitions
/// other than `keep`, in the order of `policy`, and no more than needed:
/// every partition left (but `keep`) is as it was; every evicted one goes
/// no later than every one left; and when one was evicted, one of those
/// evicted would not have fitted beside the `used_after` bytes counted in
/// the end.
pub open spec fn evicted_for(
    before: Map<Seq<char>, PartitionStore>,
    after: Map<Seq<char>, PartitionStore>,
    keep: Seq<char>,
    policy: EvictionPolicy,
    max: int,
    used_after: int,
) -> bool {
    &&& forall|k: Seq<char>| #[trigger] after.contains_key(k) && k != keep ==> before.contains_key(k) && after[k] == before[k]
    &&& forall|e: Seq<char>, k: Seq<char>|
        #![trigger before.contains_key(e), after.contains_key(k)]
        before.contains_key(e) && e != keep && !after.contains_key(e) && after.contains_key(k) && k != keep
            ==> goes_first(policy, before[e], after[k])
    &&& (exists|e: Seq<char>| #[trigger] before.contains_key(e) && e != keep && !after.contains_key(e)) ==>
        exists|e: Seq<char>| #[trigger] before.contains_key(e) && e != keep && !after.contains_key(e)
            && used_after + before[e].metadata.size_bytes > max
}

/// The summary that goes first under `policy` among those not of `keep`,
/// or `None` when every summary is of `keep`.
fn pick_victim(sums: &Vec<PartitionSummary>, keep: &String, policy: EvictionPolicy) -> (r: Option<usize>)
    ensures
        match r {
            Some(i) => i < sums@.len() && sums@[i as int].name@ != keep@
                && forall|j: int| 0 <= j < sums@.len() && (#[trigger] sums@[j]).name@ != keep@
                    ==> summary_first(policy, sums@[i as int], sums@[j]),
            None => forall|j: int| 0 <= j < sums@.len() ==> (#[trigger] sums@[j]).name@ == keep@,
        },
{
    let mut best: Option<usize> = None;
    let mut i: usize = 0;
    while i < sums.len()
        invariant
            i <= sums@.len(),
            match best {
                Some(b) => b < i && sums@[b as int].name@ != keep@
                    && forall|j: int| 0 <= j < i && (#[trigger] sums@[j]).name@ != keep@
                        ==> summary_first(policy, sums@[b as int], sums@[j]),
                None => forall|j: int| 0 <= j < i ==> (#[trigger] sums@[j]).name@ == keep@,
            },
        decreases sums@.len() - i,
    {
        if sums[i].name != *keep {
            match best {
                None => {
                    best = Some(i);
                },
                Some(b) => {
                    let better = match policy {
                        EvictionPolicy::LRU => sums[i].last_access < sums[b].last_access,
                        EvictionPolicy::Size => sums[i].size_bytes > sums[b].size_bytes,
                    };
                    if better {
                        best = Some(i);
                    }
                },
            }
        }
        i = i + 1;
    }
    best
}

/// The memory budget of the store.
pub struct CapacityManager {
    pub max_bytes: u64,
    pub used_bytes: u64,
    pub eviction_policy: EvictionPolicy,
}

impl CapacityManager {
    pub fn new(max_bytes: u64) -> (c: CapacityManager)
        ensures
            c.max_bytes == max_bytes,
            c.used_bytes == 0,
            c.eviction_policy == EvictionPolicy::LRU,
    {
        CapacityManager { max_bytes, used_bytes: 0, eviction_policy: EvictionPolicy::LRU }
    }

    /// Counts `needed_bytes` as used when they fit in the budget. The
    /// manager holds no partitions and evicts none: the store evicts first
    /// (`InMemoryStore::evict_until_space_available`). What does not fit is
    /// refused with `Storage("Insufficient memory")` and not counted.
    pub fn reserve_space(&mut self, needed_bytes: u64) -> (r: Result<(), Error>)
        ensures
            final(self).max_bytes == old(self).max_bytes,
            final(self).eviction_policy == old(self).eviction_policy,
            old(self).used_bytes + needed_bytes <= old(self).max_bytes ==> {
                &&& r is Ok
                &&& final(self).used_bytes == old(self).used_bytes + needed_bytes
            },
            old(self).used_bytes + needed_bytes > old(self).max_bytes ==> {
                &&& (r matches Err(Error::Storage(s)) && s@ == "Insufficient memory"@)
                &&& final(self).used_bytes == old(self).used_bytes
            },
    {
        if self.used_bytes > self.max_bytes || needed_bytes > self.max_bytes - self.used_bytes {
            proof { reveal_strlit("Insufficient memory"); }
            return Err(Error::Storage(String::from_str("Insufficient memory")));
        }
        self.used_bytes = self.used_bytes + needed_bytes;
        Ok(())
    }
}

/// The bytes counted for a message: the size of the message value, its
/// payload and its key.
pub open spec fn message_size(m: MessageView) -> int {
    let key_len: int = match m.key {
        Some(k) => k.len() as int,
        None => 0,
    };
    vstd::layout::size_of::<Message>() + m.payload.len() + key_len
}

pub fn estimate_message_size(message: &Message) -> (size: u64)
    requires
        message_size(message@) <= u64::MAX,
    ensures
        size == message_size(message@),
{
    let mut size = core::mem::size_of::<Message>() as u64;
    size = size + message.payload.len() as u64;
    match &message.key {
        Some(key) => {
            size = size + key.len() as u64;
        },
        None => {},
    }
    size
}

/// What `store_message` does: from `before` the store went to `after`, and
/// `r` came back, for `message` stored in `partition`. When the partition
/// and the message do not fit in the budget even alone, the message is
/// refused with `Storage("Insufficient memory")`, nothing is evicted, and an
/// absent partition is made empty. Otherwise other partitions are evicted
/// in the order of the policy until the message fits (none when it fits
/// already), and the message is appended to the partition and indexed by
/// time and by key.
pub open spec fn store_outcome(before: InMemoryStore, after: InMemoryStore, partition: Seq<char>, message: Message, r: Result<(), Error>) -> bool {
    let fits = before.held_bytes(partition) + message_size(message@) <= before.max_bytes();
    &&& after.wf()
    &&& after.max_bytes() == before.max_bytes()
    &&& after.policy() == before.policy()
    &&& !fits ==> {
        &&& (r matches Err(Error::Storage(s)) && s@ == "Insufficient memory"@)
        &&& after.used_bytes() == before.used_bytes()
        &&& after.partitions().dom() == before.partitions().dom().insert(partition)
        &&& forall|k: Seq<char>| k != partition && #[trigger] before.partitions().contains_key(k)
            ==> after.partitions()[k] == before.partitions()[k]
        &&& (before.partitions().contains_key(partition)
            ==> after.partitions()[partition] == before.partitions()[partition])
        &&& (!before.partitions().contains_key(partition) ==> is_empty_partition(after.partitions()[partition]))
    }
    &&& fits ==> {
        &&& r is Ok
        &&& after.partitions().contains_key(partition)
        &&& evicted_for(before.partitions(), after.partitions(), partition, before.policy(),
            before.max_bytes() as int, after.used_bytes() as int)
        &&& (before.used_bytes() + message_size(message@) <= before.max_bytes()
            ==> after.partitions().dom() == before.partitions().dom().insert(partition))
        &&& appended(before, after.partitions()[partition], partition, message)
    }
}

/// The partition `ps` is what `partition` was in `before` (or an empty one
/// when it was not held) with `message` appended and indexed by time and
/// by key.
pub open spec fn appended(before: InMemoryStore, ps: PartitionStore, partition: Seq<char>, message: Message) -> bool {
    let was_held = before.partitions().contains_key(partition);
    let old_ps = before.partitions()[partition];
    let before_msgs = if was_held { message_views(old_ps.messages@) } else { Seq::empty() };
    let before_size = if was_held { old_ps.metadata.size_bytes as int } else { 0 };
    let pos = before_msgs.len();
    let old_keys = if was_held { old_ps.indexes.by_key() } else { Map::empty() };
    &&& message_views(ps.messages@) == before_msgs.push(message@)
    &&& ps.metadata.size_bytes == before_size + message_size(message@)
    &&& (was_held ==> ps.metadata.leader_id == old_ps.metadata.leader_id)
    &&& (was_held ==> ps.metadata.followers == old_ps.metadata.followers)
    &&& (!was_held ==> ps.metadata.leader_id@ == Seq::<char>::empty() && ps.metadata.followers@.len() == 0)
    &&& ps.indexes.by_timestamp() == (if was_held { old_ps.indexes.by_timestamp() } else { Map::empty() }).insert(message.timestamp, pos as u64)
    &&& match message@.key {
        Some(k) => {
            let old_positions = if old_keys.contains_key(k) { old_keys[k] } else { Seq::empty() };
            ps.indexes.by_key() == old_keys.insert(k, old_positions.push(pos as u64))
        },
        None => ps.indexes.by_key() == old_keys,
    }
}

/// The partition written was used at `now`: the one the message went to,
/// or the empty one made when the message was refused.
pub open spec fn touched_at(before: InMemoryStore, after: InMemoryStore, partition: Seq<char>, r: Result<(), Error>, now: u128) -> bool {
    &&& r is Ok ==> after.partitions()[partition].metadata.last_access == now
    &&& (r is Err && !before.partitions().contains_key(partition)) ==> after.partitions()[partition].metadata.last_access == now
}

pub struct InMemoryStore {
    store: dashmap::DashMap<String, PartitionStore>,
    capacity_manager: CapacityManager,
}

impl InMemoryStore {
    /// The partitions held, by name.
    pub closed spec fn partitions(&self) -> Map<Seq<char>, PartitionStore> {
        partition_stores(self.store)
    }

    pub closed spec fn used_bytes(&self) -> u64 {
        self.capacity_manager.used_bytes
    }

    pub closed spec fn max_bytes(&self) -> u64 {
        self.capacity_manager.max_bytes
    }

    pub closed spec fn policy(&self) -> EvictionPolicy {
        self.capacity_manager.eviction_policy
    }

    /// The bytes counted as used are those the partitions hold, and they
    /// stay within the budget.
    pub open spec fn wf(&self) -> bool {
        &&& self.partitions().dom().finite()
        &&& self.used_bytes() == total_bytes(self.partitions())
        &&& self.used_bytes() <= self.max_bytes()
    }

    /// The bytes that partition `p` holds, 0 when it is not held.
    pub open spec fn held_bytes(&self, p: Seq<char>) -> int {
        if self.partitions().contains_key(p) { self.partitions()[p].metadata.size_bytes as int } else { 0 }
    }

    /// An empty store with a budget of `capacity_bytes`, evicting the least
    /// recently used partitions first.
    pub fn new(capacity_bytes: u64) -> (s: InMemoryStore)
        ensures
            s.wf(),
            s.partitions().dom() == Set::<Seq<char>>::empty(),
            s.used_bytes() == 0,
            s.max_bytes() == capacity_bytes,
            s.policy() == EvictionPolicy::LRU,
    {
        let s = InMemoryStore { store: new_store_map(), capacity_manager: CapacityManager::new(capacity_bytes) };
        assert(s.partitions().dom() =~= Set::<Seq<char>>::empty());
        assert(total_bytes(s.partitions()) == 0);
        s
    }

    /// The bytes counted as used.
    pub fn memory_used(&self) -> (r: u64)
        ensures
            r == self.used_bytes(),
    {
        self.capacity_manager.used_bytes
    }

    /// The budget, in bytes.
    pub fn get_capacity_limit(&self) -> (r: u64)
        ensures
            r == self.max_bytes(),
    {
        self.capacity_manager.max_bytes
    }

    /// Evicts partitions other than `keep`, in the order of the policy, until
    /// `needed_bytes` more fit in the budget. It always gets there, since
    /// `keep` and the bytes needed fit by themselves; nothing is evicted when
    /// they already fit.
    pub fn evict_until_space_available(&mut self, needed_bytes: u64, keep: &String)
        requires
            old(self).wf(),
            old(self).held_bytes(keep@) + needed_bytes <= old(self).max_bytes(),
        ensures
            final(self).wf(),
            final(self).used_bytes() + needed_bytes <= final(self).max_bytes(),
            final(self).max_bytes() == old(self).max_bytes(),
            final(self).policy() == old(self).policy(),
            forall|k: Seq<char>| #[trigger] final(self).partitions().contains_key(k)
                ==> old(self).partitions().contains_key(k) && final(self).partitions()[k] == old(self).partitions()[k],
            old(self).partitions().contains_key(keep@) ==> final(self).partitions().contains_key(keep@),
            evicted_for(old(self).partitions(), final(self).partitions(), keep@, old(self).policy(),
                old(self).max_bytes() as int, final(self).used_bytes() + needed_bytes),
            old(self).used_bytes() + needed_bytes <= old(self).max_bytes() ==> final(self).partitions() == old(self).partitions(),
    {
        let ghost start = self.partitions();
        let ghost start_used = self.used_bytes();
        let ghost mut last: Option<Seq<char>> = None;
        let policy = self.capacity_manager.eviction_policy;
        while needed_bytes > self.capacity_manager.max_bytes - self.capacity_manager.used_bytes
            invariant
                self.wf(),
                self.max_bytes() == old(self).max_bytes(),
                self.policy() == old(self).policy(),
                policy == self.policy(),
                start == old(self).partitions(),
                start_used == old(self).used_bytes(),
                start_used == total_bytes(start),
                self.held_bytes(keep@) == old(self).held_bytes(keep@),
                old(self).held_bytes(keep@) + needed_bytes <= old(self).max_bytes(),
                forall|k: Seq<char>| #[trigger] self.partitions().contains_key(k)
                    ==> start.contains_key(k) && self.partitions()[k] == start[k],
                start.contains_key(keep@) ==> self.partitions().contains_key(keep@),
                forall|e: Seq<char>, k: Seq<char>|
                    #![trigger start.contains_key(e), self.partitions().contains_key(k)]
                    start.contains_key(e) && e != keep@ && !self.partitions().contains_key(e)
                        && self.partitions().contains_key(k) && k != keep@
                        ==> goes_first(policy, start[e], self.partitions()[k]),
                last is None ==> self.partitions() == start,
                last matches Some(e) ==> start.contains_key(e) && e != keep@ && !self.partitions().contains_key(e)
                    && self.used_bytes() + start[e].metadata.size_bytes + needed_bytes > self.max_bytes(),
                start_used + needed_bytes <= self.max_bytes() ==> self.partitions() == start,
            decreases self.partitions().dom().len(),
        {
            let sums = store_summaries(&self.store);
            let ghost cur = self.partitions();
            let ghost names = sums@.map_values(|e: PartitionSummary| e.name@);
            let victim = pick_victim(&sums, keep, policy);
            let i = match victim {
                Some(i) => i,
                None => {
                    proof {
                        assert forall|x: Seq<char>| #[trigger] cur.dom().contains(x) implies x == keep@ by {
                            assert(names.to_set().contains(x));
                            let j = choose|j: int| 0 <= j < names.len() && names[j] == x;
                            assert(sums@[j].name@ == x);
                        }
                        lemma_total_only(cur, keep@);
                    }
                    return;
                },
            };
            let ghost v = sums@[i as int].name@;
            proof {
                assert(names[i as int] == v);
                assert(names.to_set().contains(v));
                lemma_total_remove(cur, v);
                lemma_total_nonneg(cur.remove(v));
                assert forall|k: Seq<char>| #[trigger] cur.contains_key(k) && k != keep@ implies goes_first(policy, cur[v], cur[k]) by {
                    assert(names.to_set().contains(k));
                    let j = choose|j: int| 0 <= j < names.len() && names[j] == k;
                    assert(sums@[j].name@ == k);
                    assert(summary_first(policy, sums@[i as int], sums@[j]));
                }
            }
            let taken = take_store(&mut self.store, &sums[i].name);
            match taken {
                Some(ps) => {
                    self.capacity_manager.used_bytes = self.capacity_manager.used_bytes - ps.metadata.size_bytes;
                },
                None => {
                    proof { assert(false); }
                },
            }
            proof {
                assert(self.partitions() == cur.remove(v));
                assert(self.partitions().dom() =~= cur.dom().remove(v));
                last = Some(v);
                assert forall|e: Seq<char>, k: Seq<char>|
                    #![trigger start.contains_key(e), self.partitions().contains_key(k)]
                    start.contains_key(e) && e != keep@ && !self.partitions().contains_key(e)
                        && self.partitions().contains_key(k) && k != keep@
                        implies goes_first(policy, start[e], self.partitions()[k]) by {
                    assert(cur.contains_key(k));
                    if e != v {
                        assert(start.contains_key(e) && !cur.contains_key(e));
                    }
                }
            }
        }
    }

    /// The messages of partition `key` when it is held in memory, and the
    /// answer that the request needs routing otherwise.
    pub fn get_or_route(&self, key: &str) -> (r: Result<StoreResponse, Error>)
        ensures
            match r {
                Ok(StoreResponse::InMemory(v)) => self.partitions().contains_key(key@)
                    && message_views(v@) == message_views(self.partitions()[key@].messages@),
                Ok(StoreResponse::NeedsRouting) => !self.partitions().contains_key(key@),
                Err(_) => false,
            },
    {
        match store_messages(&self.store, key) {
            Some(v) => Ok(StoreResponse::InMemory(v)),
            None => Ok(StoreResponse::NeedsRouting),
        }
    }

    /// A partition with no messages, no leader, no followers and empty
    /// indexes.
    fn empty_partition(now: u128) -> (ps: PartitionStore)
        ensures
            is_empty_partition(ps),
            ps.metadata.last_access == now,
    {
        let ps = PartitionStore {
            messages: Vec::new(),
            metadata: PartitionMetadata {
                leader_id: String::new(),
                followers: Vec::new(),
                size_bytes: 0,
                last_access: now,
            },
            indexes: MessageIndexes {
                timestamp_index: new_timestamp_index(),
                key_index: new_key_index(),
            },
        };
        assert(ps.indexes.by_timestamp() =~= Map::<u128, u64>::empty());
        assert(ps.indexes.by_key() =~= Map::<Seq<u8>, Seq<u64>>::empty());
        assert(message_views(ps.messages@) =~= Seq::<MessageView>::empty());
        ps
    }

    /// Appends `message` to `partition` at time `now`, as `store_outcome`
    /// says, and the partition written counts as used at `now`.
    pub fn store_message_at(&mut self, partition: &str, message: Message, now: u128) -> (r: Result<(), Error>)
        requires
            old(self).wf(),
            message_size(message@) <= u64::MAX,
            old(self).partitions().contains_key(partition@) ==>
                old(self).partitions()[partition@].messages@.len() < u64::MAX,
        ensures
            store_outcome(*old(self), *final(self), partition@, message, r),
            touched_at(*old(self), *final(self), partition@, r, now),
    {
        let ghost start = self.partitions();
        let key = String::from_str(partition);
        let message_size = estimate_message_size(&message);
        let mut held_flag = false;
        let mut held: u64 = 0;
        match take_store(&mut self.store, &key) {
            Some(ps) => {
                held_flag = true;
                held = ps.metadata.size_bytes;
                put_store(&mut self.store, key.clone(), ps);
                assert(self.partitions() =~= start);
            },
            None => {
                assert(self.partitions() =~= start);
            },
        }
        proof {
            if held_flag {
                lemma_total_remove(start, partition@);
                lemma_total_nonneg(start.remove(partition@));
            }
        }
        if message_size > self.capacity_manager.max_bytes || held > self.capacity_manager.max_bytes - message_size {
            if !held_flag {
                let ps = Self::empty_partition(now);
                let ghost e = ps;
                put_store(&mut self.store, key, ps);
                proof {
                    lemma_total_insert(start, partition@, e);
                    assert(start.remove(partition@) =~= start);
                    assert(self.partitions().dom() =~= start.dom().insert(partition@));
                }
            } else {
                assert(self.partitions().dom() =~= start.dom().insert(partition@));
            }
            proof { reveal_strlit("Insufficient memory"); }
            return Err(Error::Storage(String::from_str("Insufficient memory")));
        }
        self.evict_until_space_available(message_size, &key);
        let ghost mid = self.partitions();
        let mut ps = match take_store(&mut self.store, &key) {
            Some(ps) => ps,
            None => Self::empty_partition(now),
        };
        let ghost ps0 = ps;
        self.capacity_manager.reserve_space(message_size)?;
        let pos = ps.messages.len() as u64;
        index_timestamp(&mut ps.indexes.timestamp_index, message.timestamp, pos);
        match &message.key {
            Some(k) => {
                let mut positions = match key_index_get(&ps.indexes.key_index, k) {
                    Some(v) => v,
                    None => Vec::new(),
                };
                positions.push(pos);
                key_index_set(&mut ps.indexes.key_index, crate::rafka_core::message::copy_bytes(k), positions);
            },
            None => {},
        }
        let ghost before = ps.messages@;
        let ghost mv = message@;
        ps.messages.push(message);
        assert(message_views(ps.messages@) =~= message_views(before).push(mv));
        ps.metadata.size_bytes = ps.metadata.size_bytes + message_size;
        ps.metadata.last_access = now;
        let ghost ps1 = ps;
        put_store(&mut self.store, key, ps);
        proof {
            lemma_total_insert(mid, partition@, ps1);
            assert(mid.remove(partition@).insert(partition@, ps1) =~= mid.insert(partition@, ps1));
            assert(self.partitions() == mid.insert(partition@, ps1));
            if mid.contains_key(partition@) {
                assert(ps0 == mid[partition@]);
            }
            if start.contains_key(partition@) {
                assert(mid.contains_key(partition@));
            }
            assert(self.partitions().dom() =~= mid.dom().insert(partition@));
            if start.contains_key(partition@) {
                assert(self.partitions()[partition@] == ps1);
            }
        }
        proof {
            let b = *old(self);
            let was_held = b.partitions().contains_key(partition@);
            let old_ps = b.partitions()[partition@];
            let before_msgs = if was_held { message_views(old_ps.messages@) } else { Seq::empty() };
            let pos = before_msgs.len();
            let ps2 = self.partitions()[partition@];
            assert(message_views(ps2.messages@) == before_msgs.push(message@));
            assert(ps2.indexes.by_timestamp() == (if was_held { old_ps.indexes.by_timestamp() } else { Map::empty() }).insert(message.timestamp, pos as u64));
        }
        assert(appended(*old(self), self.partitions()[partition@], partition@, message));
        Ok(())
    }

    /// Appends `message` to `partition` now, as `store_outcome` says; the
    /// partition written counts as used at the time the clock reads.
    pub fn store_message(&mut self, partition: &str, message: Message) -> (r: Result<(), Error>)
        requires
            old(self).wf(),
            message_size(message@) <= u64::MAX,
            old(self).partitions().contains_key(partition@) ==>
                old(self).partitions()[partition@].messages@.len() < u64::MAX,
        ensures
            store_outcome(*old(self), *final(self), partition@, message, r),
            exists|now: u128| #[trigger] touched_at(*old(self), *final(self), partition@, r, now),
    {
        let now = now_unix_nanos();
        let r = self.store_message_at(partition, message, now);
        assert(touched_at(*old(self), *self, partition@, r, now));
        r
    }

    /// Adds `follower` to the followers of `partition`, when it is held.
    pub fn forward_to_follower(&mut self, partition: &str, follower: String) -> (r: Result<(), Error>)
        requires
            old(self).wf(),
        ensures
            final(self).wf(),
            final(self).policy() == old(self).policy(),
            r is Ok,
            final(self).used_bytes() == old(self).used_bytes(),
            final(self).max_bytes() == old(self).max_bytes(),
            final(self).partitions().dom() == old(self).partitions().dom(),
            forall|k: Seq<char>| k != partition@ && #[trigger] old(self).partitions().contains_key(k)
                ==> final(self).partitions()[k] == old(self).partitions()[k],
            old(self).partitions().contains_key(partition@) ==> {
                let before = old(self).partitions()[partition@];
                let after = final(self).partitions()[partition@];
                &&& after.metadata.followers@ == before.metadata.followers@.push(follower)
                &&& after.messages == before.messages
                &&& after.indexes == before.indexes
                &&& after.metadata.size_bytes == before.metadata.size_bytes
                &&& after.metadata.leader_id == before.metadata.leader_id
            },
    {
        let key = String::from_str(partition);
        match take_store(&mut self.store, &key) {
            Some(mut ps) => {
                ps.metadata.followers.push(follower);
                let ghost v = ps;
                put_store(&mut self.store, key, ps);
                assert(self.partitions().dom() =~= old(self).partitions().dom());
                proof {
                    lemma_total_insert(old(self).partitions(), partition@, v);
                    assert(self.partitions() =~= old(self).partitions().insert(partition@, v));
                }
            },
            None => {
                assert(self.partitions() =~= old(self).partitions());
            },
        }
        Ok(())
    }
}

/// Memory pressure never takes the store past its budget: over any run of
/// `store_message` calls on a well-formed store (as `new` makes one), each
/// store after a call holds exactly the bytes it counts, and they stay
/// within the budget, which never changes.
pub proof fn lemma_stays_within_budget(
    states: Seq<InMemoryStore>,
    partitions: Seq<Seq<char>>,
    messages: Seq<Message>,
    results: Seq<Result<(), Error>>,
)
    requires
        states.len() == messages.len() + 1,
        partitions.len() == messages.len(),
        results.len() == messages.len(),
        states[0].wf(),
        forall|i: int| 0 <= i < messages.len() ==>
            #[trigger] store_outcome(states[i], states[i + 1], partitions[i], messages[i], results[i]),
    ensures
        forall|i: int| 0 <= i < states.len() ==> {
            &&& (#[trigger] states[i]).used_bytes() == total_bytes(states[i].partitions())
            &&& states[i].used_bytes() <= states[i].max_bytes()
            &&& states[i].max_bytes() == states[0].max_bytes()
        },
    decreases messages.len(),
{
    if messages.len() > 0 {
        let n = messages.len() - 1;
        lemma_stays_within_budget(states.drop_last(), partitions.drop_last(), messages.drop_last(), results.drop_last());
        assert forall|i: int| 0 <= i < messages.drop_last().len() implies
            #[trigger] store_outcome(states.drop_last()[i], states.drop_last()[i + 1], partitions.drop_last()[i], messages.drop_last()[i], results.drop_last()[i]) by {
            assert(store_outcome(states[i], states[i + 1], partitions[i], messages[i], results[i]));
        }
        assert(store_outcome(states[n], states[n + 1], partitions[n], messages[n], results[n]));
        assert forall|i: int| 0 <= i < states.len() implies {
            &&& (#[trigger] states[i]).used_bytes() == total_bytes(states[i].partitions())
            &&& states[i].used_bytes() <= states[i].max_bytes()
            &&& states[i].max_bytes() == states[0].max_bytes()
        } by {
            if i < states.len() - 1 {
                assert(states[i] == states.drop_last()[i]);
                assert(states.drop_last()[0] == states[0]);
            } else {
                assert(states[n] == states.drop_last()[n]);
            }
        }
    }
}

/// Storing a message keeps every index entry pointing at a message with
/// that timestamp and that key: if the indexes of a partition were
/// consistent before `store_message`, they are after it.
pub proof fn lemma_store_keeps_indexes_consistent(
    before_msgs: Seq<MessageView>,
    before_ts: Map<u128, u64>,
    before_keys: Map<Seq<u8>, Seq<u64>>,
    after: PartitionStore,
    m: MessageView,
)
    requires
        forall|ts: u128| #[trigger] before_ts.contains_key(ts) ==>
            before_ts[ts] < before_msgs.len() && before_msgs[before_ts[ts] as int].timestamp == ts,
        forall|k: Seq<u8>, j: int| #[trigger] before_keys.contains_key(k) && 0 <= j < before_keys[k].len() ==>
            (#[trigger] before_keys[k][j]) < before_msgs.len() && before_msgs[before_keys[k][j] as int].key == Some(k),
        message_views(after.messages@) == before_msgs.push(m),
        after.indexes.by_timestamp() == before_ts.insert(m.timestamp, before_msgs.len() as u64),
        match m.key {
            Some(k) => after.indexes.by_key() == before_keys.insert(k,
                (if before_keys.contains_key(k) { before_keys[k] } else { Seq::empty() }).push(before_msgs.len() as u64)),
            None => after.indexes.by_key() == before_keys,
        },
        before_msgs.len() < u64::MAX,
    ensures
        after.indexes_consistent(),
{
    let n = before_msgs.len();
    let mv = message_views(after.messages@);
    assert(mv.len() == n + 1);
    assert forall|ts: u128| #[trigger] after.indexes.by_timestamp().contains_key(ts) implies {
        let pos = after.indexes.by_timestamp()[ts];
        pos < after.messages@.len() && mv[pos as int].timestamp == ts
    } by {
        if ts != m.timestamp {
            assert(mv[before_ts[ts] as int] == before_msgs[before_ts[ts] as int]);
        }
    }
    assert forall|k: Seq<u8>, j: int| #[trigger] after.indexes.by_key().contains_key(k) && 0 <= j < after.indexes.by_key()[k].len() implies {
        let pos = #[trigger] after.indexes.by_key()[k][j];
        pos < after.messages@.len() && mv[pos as int].key == Some(k)
    } by {
        match m.key {
            Some(mk) => {
                if k == mk {
                    let old_positions = if before_keys.contains_key(k) { before_keys[k] } else { Seq::empty() };
                    if j < old_positions.len() {
                        assert(before_keys.contains_key(k));
                        assert(old_positions[j] == before_keys[k][j]);
                        assert(mv[before_keys[k][j] as int] == before_msgs[before_keys[k][j] as int]);
                    }
                } else {
                    assert(mv[before_keys[k][j] as int] == before_msgs[before_keys[k][j] as int]);
                }
            },
            None => {
                assert(mv[before_keys[k][j] as int] == before_msgs[before_keys[k][j] as int]);
            },
        }
    }
}

} // verus!
