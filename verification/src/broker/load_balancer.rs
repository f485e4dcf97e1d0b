//! Choosing the node that takes a message: by consistent hashing of its
//! key, in turn, or the healthy node with the least load.
use vstd::prelude::*;
use vstd::string::*;
use crate::rafka_core::Error;
use crate::platform::{default_hash_bytes, default_hash_of_bytes};

verus! {

/// A node as the balancer sees it: its load, and whether it is healthy.
#[derive(Clone, Debug, PartialEq, Eq)]
pub struct NodeLoadInfo {
    pub node_id: String,
    pub current_load: u64,
    pub healthy: bool,
}

/// The first healthy node of `nodes` (in the order the node table was
/// walked) whose load is the least among the healthy ones; no healthy node
/// is `Error::NoAvailableNodes`.
pub fn least_loaded_node(nodes: &Vec<NodeLoadInfo>) -> (r: Result<String, Error>)
    ensures
        match r {
            Ok(id) => exists|i: int| #![auto] 0 <= i < nodes@.len() && nodes@[i].healthy && nodes@[i].node_id == id
                && (forall|j: int| 0 <= j < nodes@.len() && nodes@[j].healthy ==> nodes@[i].current_load <= nodes@[j].current_load)
                && (forall|j: int| 0 <= j < i && nodes@[j].healthy ==> nodes@[i].current_load < nodes@[j].current_load),
            Err(e) => e == Error::NoAvailableNodes && forall|j: int| 0 <= j < nodes@.len() ==> !nodes@[j].healthy,
        },
{
    let mut best: Option<usize> = None;
    let mut i: usize = 0;
    while i < nodes.len()
        invariant
            i <= nodes@.len(),
            match best {
                Some(b) => b < i && nodes@[b as int].healthy
                    && (forall|j: int| 0 <= j < i && nodes@[j].healthy ==> nodes@[b as int].current_load <= nodes@[j].current_load)
                    && (forall|j: int| 0 <= j < b && nodes@[j].healthy ==> nodes@[b as int].current_load < nodes@[j].current_load),
                None => forall|j: int| 0 <= j < i ==> !nodes@[j].healthy,
            },
        decreases nodes@.len() - i,
    {
        if nodes[i].healthy {
            match best {
                Some(b) => {
                    if nodes[i].current_load < nodes[b].current_load {
                        best = Some(i);
                    }
                },
                None => {
                    best = Some(i);
                },
            }
        }
        i = i + 1;
    }
    match best {
        Some(b) => Ok(nodes[b].node_id.clone()),
        None => Err(Error::NoAvailableNodes),
    }
}

/// What the balancer knows of a node: its load and whether its health
/// check passes.
#[derive(Clone, Copy, Debug, PartialEq, Eq, Structural)]
pub struct NodeStats {
    pub current_load: u64,
    pub healthy: bool,
}

#[derive(Clone, Copy, Debug, PartialEq, Eq, Structural)]
pub enum LoadBalancingStrategy {
    ConsistentHashing,
    RoundRobin,
    LeastLoaded,
}

/// The nodes' statistics, by node id.
pub uninterp spec fn stats_table(m: dashmap::DashMap<String, NodeStats>) -> Map<Seq<char>, NodeStats>;

/// `DashMap::new` for the statistics.
#[verifier::external_body]
fn new_stats_table() -> (m: dashmap::DashMap<String, NodeStats>)
    ensures
        stats_table(m).dom() == Set::<Seq<char>>::empty(),
{
    dashmap::DashMap::new()
}

/// `DashMap::insert` for the statistics.
#[verifier::external_body]
fn stats_insert(m: &mut dashmap::DashMap<String, NodeStats>, id: String, s: NodeStats)
    ensures
        stats_table(*final(m)) == stats_table(*old(m)).insert(id@, s),
{
    m.insert(id, s);
}

/// The statistics as `DashMap::iter` walks them: each node once, in an
/// order that the map does not promise.
#[verifier::external_body]
fn stats_entries(m: &dashmap::DashMap<String, NodeStats>) -> (r: Vec<NodeLoadInfo>)
    ensures
        r@.map_values(|e: NodeLoadInfo| e.node_id@).no_duplicates(),
        r@.map_values(|e: NodeLoadInfo| e.node_id@).to_set() == stats_table(*m).dom(),
        forall|i: int| 0 <= i < r@.len() ==> stats_table(*m)[(#[trigger] r@[i]).node_id@]
            == (NodeStats { current_load: r@[i].current_load, healthy: r@[i].healthy }),
{
    m.iter().map(|e| NodeLoadInfo {
        node_id: e.key().clone(),
        current_load: e.value().current_load,
        healthy: e.value().healthy,
    }).collect()
}

/// The position of `id` on the hash ring.
pub open spec fn ring_position(id: Seq<char>) -> u64 {
    default_hash_of_bytes(vstd::utf8::encode_utf8(id))
}

/// How far `id` lies clockwise from `point` on the ring of `u64`s.
pub open spec fn ring_distance(point: u64, id: Seq<char>) -> int {
    (ring_position(id) - point) % 0x1_0000_0000_0000_0000
}

pub struct LoadBalancer {
    pub node_stats: dashmap::DashMap<String, NodeStats>,
    pub strategy: LoadBalancingStrategy,
    pub next_index: usize,
}

impl LoadBalancer {
    pub open spec fn stats(&self) -> Map<Seq<char>, NodeStats> {
        stats_table(self.node_stats)
    }

    /// A balancer that knows no node yet.
    pub fn new(strategy: LoadBalancingStrategy) -> (b: LoadBalancer)
        ensures
            b.strategy == strategy,
            b.stats().dom() == Set::<Seq<char>>::empty(),
    {
        LoadBalancer { node_stats: new_stats_table(), strategy, next_index: 0 }
    }

    /// Records the statistics of a node.
    pub fn update_node(&mut self, node_id: String, stats: NodeStats)
        ensures
            final(self).stats() == old(self).stats().insert(node_id@, stats),
            final(self).strategy == old(self).strategy,
    {
        stats_insert(&mut self.node_stats, node_id, stats);
    }

    /// The node that follows the key's hash on the ring: the least
    /// clockwise distance from it, among all known nodes. No node is
    /// `NoAvailableNodes`.
    pub fn consistent_hash_node(&self, key: &[u8]) -> (r: Result<String, Error>)
        ensures
            match r {
                Ok(id) => self.stats().contains_key(id@) && forall|k: Seq<char>| #[trigger] self.stats().contains_key(k)
                    ==> ring_distance(default_hash_of_bytes(key@), id@) <= ring_distance(default_hash_of_bytes(key@), k),
                Err(e) => e == Error::NoAvailableNodes && self.stats().dom() == Set::<Seq<char>>::empty(),
            },
    {
        let point = default_hash_bytes(key);
        let nodes = stats_entries(&self.node_stats);
        let ghost ids = nodes@.map_values(|e: NodeLoadInfo| e.node_id@);
        if nodes.len() == 0 {
            assert(ids.to_set() =~= Set::<Seq<char>>::empty());
            return Err(Error::NoAvailableNodes);
        }
        let mut best: usize = 0;
        let mut best_d: u64 = default_hash_bytes(nodes[0].node_id.as_str().as_bytes()).wrapping_sub(point);
        let mut i: usize = 1;
        while i < nodes.len()
            invariant
                1 <= i <= nodes@.len(),
                best < i,
                best_d == ring_distance(point, nodes@[best as int].node_id@),
                forall|j: int| 0 <= j < i ==> best_d <= ring_distance(point, (#[trigger] nodes@[j]).node_id@),
            decreases nodes@.len() - i,
        {
            let d = default_hash_bytes(nodes[i].node_id.as_str().as_bytes()).wrapping_sub(point);
            if d < best_d {
                best = i;
                best_d = d;
            }
            i = i + 1;
        }
        proof {
            let id = nodes@[best as int].node_id@;
            assert(ids[best as int] == id);
            assert forall|k: Seq<char>| #[trigger] self.stats().contains_key(k) implies best_d <= ring_distance(point, k) by {
                assert(ids.to_set().contains(k));
                let j = choose|j: int| 0 <= j < ids.len() && ids[j] == k;
                assert(nodes@[j].node_id@ == k);
            }
        }
        Ok(nodes[best].node_id.clone())
    }

    /// The next node in turn, as the statistics are walked; no node is
    /// `NoAvailableNodes`.
    pub fn next_round_robin_node(&mut self) -> (r: Result<String, Error>)
        ensures
            final(self).stats() == old(self).stats(),
            final(self).strategy == old(self).strategy,
            match r {
                Ok(id) => old(self).stats().contains_key(id@) && final(self).next_index == (old(self).next_index + 1) % (usize::MAX as int + 1),
                Err(e) => e == Error::NoAvailableNodes && old(self).stats().dom() == Set::<Seq<char>>::empty()
                    && final(self).next_index == old(self).next_index,
            },
    {
        let nodes = stats_entries(&self.node_stats);
        let ghost ids = nodes@.map_values(|e: NodeLoadInfo| e.node_id@);
        if nodes.len() == 0 {
            assert(ids.to_set() =~= Set::<Seq<char>>::empty());
            return Err(Error::NoAvailableNodes);
        }
        let i = self.next_index % nodes.len();
        let c0 = self.next_index;
        self.next_index = self.next_index.wrapping_add(1);
        proof {
            if c0 == usize::MAX {
                vstd::arithmetic::div_mod::lemma_mod_self_0(usize::MAX as int + 1);
            } else {
                vstd::arithmetic::div_mod::lemma_small_mod((c0 + 1) as nat, (usize::MAX as int + 1) as nat);
            }
            assert(ids[i as int] == nodes@[i as int].node_id@);
            assert(ids.to_set().contains(nodes@[i as int].node_id@));
        }
        Ok(nodes[i].node_id.clone())
    }

    /// The healthy node with the least load, the first of them as the
    /// statistics are walked; no healthy node is `NoAvailableNodes`.
    pub fn least_loaded_node(&self) -> (r: Result<String, Error>)
        ensures
            match r {
                Ok(id) => self.stats().contains_key(id@) && self.stats()[id@].healthy
                    && forall|k: Seq<char>| #[trigger] self.stats().contains_key(k) && self.stats()[k].healthy
                        ==> self.stats()[id@].current_load <= self.stats()[k].current_load,
                Err(e) => e == Error::NoAvailableNodes && forall|k: Seq<char>| #[trigger] self.stats().contains_key(k) ==> !self.stats()[k].healthy,
            },
    {
        let nodes = stats_entries(&self.node_stats);
        let ghost ids = nodes@.map_values(|e: NodeLoadInfo| e.node_id@);
        let r = least_loaded_node(&nodes);
        proof {
            assert forall|k: Seq<char>| #[trigger] self.stats().contains_key(k) implies exists|j: int| 0 <= j < nodes@.len() && nodes@[j].node_id@ == k by {
                assert(ids.to_set().contains(k));
                let j = choose|j: int| 0 <= j < ids.len() && ids[j] == k;
                assert(nodes@[j].node_id@ == k);
            }
            if r is Ok {
                let id = r->Ok_0;
                let i = choose|i: int| #![auto] 0 <= i < nodes@.len() && nodes@[i].healthy && nodes@[i].node_id == id
                    && (forall|j: int| 0 <= j < nodes@.len() && nodes@[j].healthy ==> nodes@[i].current_load <= nodes@[j].current_load);
                assert(ids[i] == id@);
                assert(ids.to_set().contains(id@));
                assert forall|k: Seq<char>| #[trigger] self.stats().contains_key(k) && self.stats()[k].healthy
                    implies self.stats()[id@].current_load <= self.stats()[k].current_load by {
                    let j = choose|j: int| 0 <= j < nodes@.len() && nodes@[j].node_id@ == k;
                    assert(nodes@[j].healthy);
                }
            }
        }
        r
    }

    /// The node for a message: with consistent hashing its key's node when
    /// it has a key, else the least loaded; in turn with round robin; the
    /// least loaded healthy node otherwise.
    pub fn select_node(&mut self, message_key: Option<&[u8]>) -> (r: Result<String, Error>)
        ensures
            final(self).stats() == old(self).stats(),
            final(self).strategy == old(self).strategy,
            r matches Ok(id) ==> old(self).stats().contains_key(id@),
            r is Err ==> r == Err::<String, Error>(Error::NoAvailableNodes),
            old(self).strategy == LoadBalancingStrategy::LeastLoaded
                || (old(self).strategy == LoadBalancingStrategy::ConsistentHashing && message_key is None)
                ==> (r matches Ok(id) ==> old(self).stats()[id@].healthy
                    && forall|k: Seq<char>| #[trigger] old(self).stats().contains_key(k) && old(self).stats()[k].healthy
                        ==> old(self).stats()[id@].current_load <= old(self).stats()[k].current_load),
            old(self).strategy == LoadBalancingStrategy::ConsistentHashing && message_key is Some ==> (r matches Ok(id) ==>
                forall|k: Seq<char>| #[trigger] old(self).stats().contains_key(k)
                    ==> ring_distance(default_hash_of_bytes(message_key->0@), id@) <= ring_distance(default_hash_of_bytes(message_key->0@), k)),
    {
        match self.strategy {
            LoadBalancingStrategy::ConsistentHashing => {
                match message_key {
                    Some(key) => self.consistent_hash_node(key),
                    None => self.least_loaded_node(),
                }
            },
            LoadBalancingStrategy::RoundRobin => self.next_round_robin_node(),
            LoadBalancingStrategy::LeastLoaded => self.least_loaded_node(),
        }
    }
}

} // verus!
