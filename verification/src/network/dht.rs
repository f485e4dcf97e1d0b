//! A distributed hash table over the routing table. A key is held by the
//! `replication_factor` nodes nearest to it; a put stores the value here
//! when this node is one of them and hands the others to the caller to
//! replicate to, and succeeds when at least half the replication factor of
//! them confirm.
use vstd::prelude::*;
use vstd::string::*;
use crate::rafka_core::Error;
use crate::rafka_core::message::copy_bytes;
use crate::network::p2p::NodeInfo;
use crate::network::routing::{RoutingTable, node_ids};
use crate::text::views;

verus! {

/// The values stored on this node, by key.
pub uninterp spec fn data_table(m: dashmap::DashMap<String, Vec<u8>>) -> Map<Seq<char>, Seq<u8>>;

/// `DashMap::new` for the stored values.
#[verifier::external_body]
fn new_data_table() -> (m: dashmap::DashMap<String, Vec<u8>>)
    ensures
        data_table(m).dom() == Set::<Seq<char>>::empty(),
{
    dashmap::DashMap::new()
}

/// `DashMap::insert` for the stored values.
#[verifier::external_body]
fn data_insert(m: &mut dashmap::DashMap<String, Vec<u8>>, k: String, v: Vec<u8>)
    ensures
        data_table(*final(m)) == data_table(*old(m)).insert(k@, v@),
{
    m.insert(k, v);
}

/// `DashMap::get` for the stored values, copied out of the map.
#[verifier::external_body]
fn data_get(m: &dashmap::DashMap<String, Vec<u8>>, k: &str) -> (r: Option<Vec<u8>>)
    ensures
        match r {
            Some(v) => data_table(*m).contains_key(k@) && v@ == data_table(*m)[k@],
            None => !data_table(*m).contains_key(k@),
        },
{
    m.get(k).map(|e| copy_bytes(e.value()))
}

/// What a put leaves to do: whether the value was stored here, and the
/// other nodes to replicate it to.
#[derive(Debug)]
pub struct PutPlan {
    pub stored_locally: bool,
    pub remote: Vec<NodeInfo>,
}

/// A value stored on this node under `key` is what a local read of `key`
/// gives back.
pub proof fn lemma_local_read_after_put(before: Map<Seq<char>, Seq<u8>>, key: Seq<char>, value: Seq<u8>)
    ensures
        before.insert(key, value).contains_key(key),
        before.insert(key, value)[key] == value,
{
}

/// The nodes of `t` other than the node `id`, in order.
pub open spec fn others(t: Seq<NodeInfo>, id: Seq<char>) -> Seq<NodeInfo>
    decreases t.len(),
{
    if t.len() == 0 {
        t
    } else {
        let r = others(t.drop_last(), id);
        if t.last().id@ == id {
            r
        } else {
            r.push(t.last())
        }
    }
}

pub struct DHT {
    pub node_id: String,
    pub routing_table: RoutingTable,
    pub data_store: dashmap::DashMap<String, Vec<u8>>,
    pub replication_factor: usize,
}

impl DHT {
    pub open spec fn data(&self) -> Map<Seq<char>, Seq<u8>> {
        data_table(self.data_store)
    }

    /// Whether `r` is a choice of target nodes for `key` that
    /// `find_target_nodes` may make: at most `count`, each once, the first
    /// as `route` gives it and each next as `next_closest` gives it past
    /// those before; fewer than `count` only when no further node is known.
    pub open spec fn targets_ok(&self, key: Seq<char>, count: nat, r: Seq<NodeInfo>) -> bool {
        &&& r.len() <= count
        &&& node_ids(r).no_duplicates()
        &&& r.len() > 0 ==> self.routing_table.route_result(key, Some(r[0]))
        &&& forall|i: int| 0 < i < r.len() ==> self.routing_table.next_closest_result(key, node_ids(r.take(i)), Some(#[trigger] r[i]))
        &&& count > 0 && r.len() == 0 ==> self.routing_table.route_result(key, None)
        &&& 0 < r.len() < count ==> self.routing_table.next_closest_result(key, node_ids(r), None)
    }

    /// A node with an empty store and a routing table of four rows.
    pub fn new(node_id: String, replication_factor: usize) -> (d: DHT)
        ensures
            d.node_id == node_id,
            d.replication_factor == replication_factor,
            d.routing_table.rows@.len() == 4,
            d.data().dom() == Set::<Seq<char>>::empty(),
    {
        let routing_table = RoutingTable::new(node_id.as_str(), 4);
        DHT { node_id, routing_table, data_store: new_data_table(), replication_factor }
    }

    /// Up to `count` nodes for `key`, each once: the node that `route`
    /// gives, then each time the nearest node not chosen yet, until `count`
    /// are chosen or no other node is known.
    pub fn find_target_nodes(&self, key: &str, count: usize) -> (r: Vec<NodeInfo>)
        ensures
            self.targets_ok(key@, count as nat, r@),
    {
        let mut nodes: Vec<NodeInfo> = Vec::new();
        let mut ids: Vec<String> = Vec::new();
        let mut current = self.routing_table.route(key);
        while nodes.len() < count
            invariant
                views(ids@) == node_ids(nodes@),
                node_ids(nodes@).no_duplicates(),
                nodes@.len() <= count,
                current matches Some(n) ==> !node_ids(nodes@).contains(n.id@),
                nodes@.len() == 0 ==> self.routing_table.route_result(key@, current),
                nodes@.len() > 0 ==> self.routing_table.route_result(key@, Some(nodes@[0])),
                nodes@.len() > 0 ==> self.routing_table.next_closest_result(key@, node_ids(nodes@), current),
                forall|i: int| 0 < i < nodes@.len() ==> self.routing_table.next_closest_result(key@, node_ids(nodes@.take(i)), Some(#[trigger] nodes@[i])),
            ensures
                nodes@.len() <= count,
                nodes@.len() < count ==> current is None,
                views(ids@) == node_ids(nodes@),
                node_ids(nodes@).no_duplicates(),
                nodes@.len() == 0 ==> self.routing_table.route_result(key@, current),
                nodes@.len() > 0 ==> self.routing_table.route_result(key@, Some(nodes@[0])),
                nodes@.len() > 0 ==> self.routing_table.next_closest_result(key@, node_ids(nodes@), current),
                forall|i: int| 0 < i < nodes@.len() ==> self.routing_table.next_closest_result(key@, node_ids(nodes@.take(i)), Some(#[trigger] nodes@[i])),
            decreases count - nodes@.len(),
        {
            match current {
                Some(node) => {
                    let ghost before = node_ids(nodes@);
                    let ghost prev = nodes@;
                    ids.push(node.id.clone());
                    nodes.push(node);
                    assert(node_ids(nodes@) =~= before.push(node.id@));
                    assert(views(ids@) =~= before.push(node.id@));
                    assert(nodes@.take(prev.len() as int) =~= prev);
                    assert forall|i: int| 0 < i < nodes@.len() implies self.routing_table.next_closest_result(key@, node_ids(nodes@.take(i)), Some(#[trigger] nodes@[i])) by {
                        if i < prev.len() {
                            assert(nodes@.take(i) =~= prev.take(i));
                            assert(nodes@[i] == prev[i]);
                        }
                    }
                    current = self.routing_table.next_closest(key, &ids);
                },
                None => {
                    break;
                },
            }
        }
        nodes
    }

    /// Whether this node is among `targets`, and the other targets in
    /// order.
    fn split_targets(&self, targets: &Vec<NodeInfo>) -> (r: (bool, Vec<NodeInfo>))
        requires
            node_ids(targets@).no_duplicates(),
        ensures
            r.0 == node_ids(targets@).contains(self.node_id@),
            r.1@ == others(targets@, self.node_id@),
            r.1@.len() <= targets@.len(),
            node_ids(r.1@).no_duplicates(),
            !node_ids(r.1@).contains(self.node_id@),
    {
        let mut here = false;
        let mut remote: Vec<NodeInfo> = Vec::new();
        let mut i: usize = 0;
        while i < targets.len()
            invariant
                i <= targets@.len(),
                node_ids(targets@).no_duplicates(),
                remote@.len() <= i,
                here == node_ids(targets@.take(i as int)).contains(self.node_id@),
                remote@ == others(targets@.take(i as int), self.node_id@),
                node_ids(remote@).no_duplicates(),
                !node_ids(remote@).contains(self.node_id@),
                forall|k: int| 0 <= k < remote@.len() ==> node_ids(targets@.take(i as int)).contains(#[trigger] remote@[k].id@),
            decreases targets@.len() - i,
        {
            let t = &targets[i];
            let ghost pre = targets@.take(i as int);
            assert(targets@.take(i as int + 1).drop_last() =~= pre);
            assert(targets@.take(i as int + 1).last() == *t);
            assert(node_ids(targets@.take(i as int + 1)) =~= node_ids(pre).push(t.id@));
            if t.id == self.node_id {
                here = true;
            } else {
                let ghost before = node_ids(remote@);
                proof {
                    if before.contains(t.id@) {
                        let k = choose|k: int| 0 <= k < before.len() && before[k] == t.id@;
                        assert(remote@[k].id@ == t.id@);
                        let j = choose|j: int| 0 <= j < i && node_ids(pre)[j] == t.id@;
                        assert(node_ids(targets@)[j] == node_ids(targets@)[i as int]);
                    }
                }
                remote.push(t.copy());
                assert(node_ids(remote@) =~= before.push(t.id@));
            }
            proof {
                let p1 = node_ids(targets@.take(i as int + 1));
                if p1.contains(self.node_id@) {
                    let j = choose|j: int| 0 <= j < p1.len() && p1[j] == self.node_id@;
                    if j < i {
                        assert(node_ids(pre)[j] == self.node_id@);
                    }
                }
                if node_ids(pre).contains(self.node_id@) {
                    let j = choose|j: int| 0 <= j < node_ids(pre).len() && node_ids(pre)[j] == self.node_id@;
                    assert(p1[j] == self.node_id@);
                }
                if t.id@ == self.node_id@ {
                    assert(p1[i as int] == self.node_id@);
                }
                assert forall|k: int| 0 <= k < remote@.len() implies node_ids(targets@.take(i as int + 1)).contains(#[trigger] remote@[k].id@) by {
                    if k < remote@.len() - 1 || t.id@ == self.node_id@ {
                        let j = choose|j: int| 0 <= j < i && node_ids(pre)[j] == remote@[k].id@;
                        assert(node_ids(targets@.take(i as int + 1))[j] == remote@[k].id@);
                    } else {
                        assert(node_ids(targets@.take(i as int + 1))[i as int] == remote@[k].id@);
                    }
                }
            }
            i = i + 1;
        }
        assert(targets@.take(targets@.len() as int) =~= targets@);
        (here, remote)
    }

    /// Stores `value` under `key` here when this node is one of the
    /// `replication_factor` target nodes of the key, and returns the other
    /// targets to replicate to.
    pub fn put(&mut self, key: String, value: Vec<u8>) -> (p: PutPlan)
        ensures
            final(self).node_id == old(self).node_id,
            final(self).replication_factor == old(self).replication_factor,
            p.stored_locally ==> final(self).data() == old(self).data().insert(key@, value@),
            !p.stored_locally ==> final(self).data() == old(self).data(),
            p.remote@.len() <= old(self).replication_factor,
            node_ids(p.remote@).no_duplicates(),
            !node_ids(p.remote@).contains(old(self).node_id@),
            exists|t: Seq<NodeInfo>| #[trigger] old(self).targets_ok(key@, old(self).replication_factor as nat, t)
                && p.stored_locally == node_ids(t).contains(old(self).node_id@)
                && p.remote@ == others(t, old(self).node_id@),
    {
        let targets = self.find_target_nodes(key.as_str(), self.replication_factor);
        let (stored_locally, remote) = self.split_targets(&targets);
        if stored_locally {
            data_insert(&mut self.data_store, key, value);
        }
        PutPlan { stored_locally, remote }
    }

    /// How a put ends once the replicas answered: it succeeds when at least
    /// half the replication factor (rounded down) confirmed, else it is
    /// `Replication("Failed to replicate to majority")`.
    pub fn put_outcome(&self, successful: usize) -> (r: Result<(), Error>)
        ensures
            successful >= self.replication_factor / 2 ==> r == Ok::<(), Error>(()),
            successful < self.replication_factor / 2 ==> (r matches Err(Error::Replication(t)) && t@ == "Failed to replicate to majority"@),
    {
        if successful >= self.replication_factor / 2 {
            Ok(())
        } else {
            proof { reveal_strlit("Failed to replicate to majority"); }
            Err(Error::Replication(String::from_str("Failed to replicate to majority")))
        }
    }

    /// The value stored here under `key`, if any.
    pub fn get_local(&self, key: &str) -> (r: Option<Vec<u8>>)
        ensures
            match r {
                Some(v) => self.data().contains_key(key@) && v@ == self.data()[key@],
                None => !self.data().contains_key(key@),
            },
    {
        data_get(&self.data_store, key)
    }

    /// The other target nodes of `key`, in the order in which a read that
    /// misses here asks them.
    pub fn query_targets(&self, key: &str) -> (r: Vec<NodeInfo>)
        ensures
            r@.len() <= self.replication_factor,
            node_ids(r@).no_duplicates(),
            !node_ids(r@).contains(self.node_id@),
            exists|t: Seq<NodeInfo>| #[trigger] self.targets_ok(key@, self.replication_factor as nat, t) && r@ == others(t, self.node_id@),
    {
        let targets = self.find_target_nodes(key, self.replication_factor);
        let (_, r) = self.split_targets(&targets);
        r
    }
}

} // verus!
