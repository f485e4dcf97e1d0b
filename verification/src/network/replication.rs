//! Replication of a message to the in-sync replicas of its partition. The
//! leader registers the message, sends it to every in-sync replica, and
//! counts acknowledgements until a majority of the replication factor,
//! `replication_factor / 2 + 1`, has answered.
use vstd::prelude::*;
use vstd::string::*;
use vstd::set_lib::*;
use crate::rafka_core::{Error, Message};
use crate::network::p2p::{NodeInfo, copy_nodes};
use crate::platform::now_unix_nanos;

verus! {

/// The acknowledgements of one message; `timestamp` is in nanoseconds since
/// the UNIX epoch.
#[derive(Debug)]
pub struct AckTracker {
    pub message_id: String,
    pub acks_received: Vec<String>,
    pub timestamp: u128,
}

/// The in-sync replicas, by partition.
pub uninterp spec fn isr_table(m: dashmap::DashMap<u32, Vec<NodeInfo>>) -> Map<u32, Vec<NodeInfo>>;

/// The trackers, by message id.
pub uninterp spec fn ack_table(m: dashmap::DashMap<String, AckTracker>) -> Map<Seq<char>, AckTracker>;

/// `DashMap::new` for the in-sync replicas.
#[verifier::external_body]
fn new_isr_table() -> (m: dashmap::DashMap<u32, Vec<NodeInfo>>)
    ensures
        isr_table(m).dom() == Set::<u32>::empty(),
{
    dashmap::DashMap::new()
}

/// `DashMap::insert` for the in-sync replicas.
#[verifier::external_body]
fn isr_insert(m: &mut dashmap::DashMap<u32, Vec<NodeInfo>>, p: u32, v: Vec<NodeInfo>)
    ensures
        isr_table(*final(m)) == isr_table(*old(m)).insert(p, v),
{
    m.insert(p, v);
}

/// `DashMap::get` for the in-sync replicas, copied out of the map.
#[verifier::external_body]
fn isr_get(m: &dashmap::DashMap<u32, Vec<NodeInfo>>, p: u32) -> (r: Option<Vec<NodeInfo>>)
    ensures
        match r {
            Some(v) => isr_table(*m).contains_key(p) && v@ == isr_table(*m)[p]@,
            None => !isr_table(*m).contains_key(p),
        },
{
    m.get(&p).map(|e| copy_nodes(e.value()))
}

/// `DashMap::new` for the trackers.
#[verifier::external_body]
fn new_ack_table() -> (m: dashmap::DashMap<String, AckTracker>)
    ensures
        ack_table(m).dom() == Set::<Seq<char>>::empty(),
{
    dashmap::DashMap::new()
}

/// `DashMap::insert` for the trackers.
#[verifier::external_body]
fn ack_put(m: &mut dashmap::DashMap<String, AckTracker>, id: String, t: AckTracker)
    ensures
        ack_table(*final(m)) == ack_table(*old(m)).insert(id@, t),
{
    m.insert(id, t);
}

/// `DashMap::remove` for the trackers.
#[verifier::external_body]
fn ack_take(m: &mut dashmap::DashMap<String, AckTracker>, id: &String) -> (r: Option<AckTracker>)
    ensures
        ack_table(*final(m)) == ack_table(*old(m)).remove(id@),
        match r {
            Some(t) => ack_table(*old(m)).contains_key(id@) && t == ack_table(*old(m))[id@],
            None => !ack_table(*old(m)).contains_key(id@),
        },
{
    m.remove(id).map(|entry| entry.1)
}

/// The number of acknowledgements that completes a replication.
pub open spec fn quorum(replication_factor: nat) -> nat {
    replication_factor / 2 + 1
}

/// Two sets of distinct replicas, taken from at most `replication_factor`
/// replicas and each at least a quorum, share a replica: two completed
/// replications have a witness in common.
pub proof fn lemma_quorums_intersect(replication_factor: nat, all: Set<Seq<char>>, a: Set<Seq<char>>, b: Set<Seq<char>>)
    requires
        all.finite(),
        all.len() <= replication_factor,
        a.subset_of(all),
        b.subset_of(all),
        a.len() >= quorum(replication_factor),
        b.len() >= quorum(replication_factor),
    ensures
        exists|x: Seq<char>| a.contains(x) && b.contains(x),
{
    lemma_len_subset(a, all);
    lemma_len_subset(b, all);
    lemma_set_intersect_union_lens(a, b);
    assert((a + b).subset_of(all));
    lemma_len_subset(a + b, all);
    let i = a.intersect(b);
    assert(i.len() > 0);
    if forall|x: Seq<char>| !(a.contains(x) && b.contains(x)) {
        assert(i =~= Set::<Seq<char>>::empty());
    }
}

/// How a replication that was waited for ends: acknowledged by a quorum in
/// time, or `Replication("Replication timeout")`.
pub fn replication_outcome(acknowledged: bool) -> (r: Result<(), Error>)
    ensures
        acknowledged ==> r == Ok::<(), Error>(()),
        !acknowledged ==> (r matches Err(Error::Replication(t)) && t@ == "Replication timeout"@),
{
    if acknowledged {
        Ok(())
    } else {
        proof { reveal_strlit("Replication timeout"); }
        Err(Error::Replication(String::from_str("Replication timeout")))
    }
}

/// How signalling a completion ends: delivered to the waiting sender, or
/// `Replication("Failed to signal completion")`.
pub fn completion_outcome(delivered: bool) -> (r: Result<(), Error>)
    ensures
        delivered ==> r == Ok::<(), Error>(()),
        !delivered ==> (r matches Err(Error::Replication(t)) && t@ == "Failed to signal completion"@),
{
    if delivered {
        Ok(())
    } else {
        proof { reveal_strlit("Failed to signal completion"); }
        Err(Error::Replication(String::from_str("Failed to signal completion")))
    }
}

/// What `handle_replica_ack` does: the acknowledgement of `replica_id` is
/// added to the tracker of `message_id`, and `done` says whether the
/// tracker now holds a quorum of them; an unknown message changes nothing
/// and is not done.
pub open spec fn ack_outcome(before: ReplicationManager, message_id: Seq<char>, replica_id: String, done: bool, after: ReplicationManager) -> bool {
    &&& after.isr() == before.isr()
    &&& after.replication_factor == before.replication_factor
    &&& !before.trackers().contains_key(message_id) ==> {
        &&& !done
        &&& after.trackers() == before.trackers()
    }
    &&& before.trackers().contains_key(message_id) ==> {
        let t = before.trackers()[message_id];
        let u = after.trackers()[message_id];
        &&& after.trackers().dom() == before.trackers().dom()
        &&& forall|k: Seq<char>| k != message_id && #[trigger] before.trackers().contains_key(k)
            ==> after.trackers()[k] == before.trackers()[k]
        &&& u.message_id == t.message_id
        &&& u.timestamp == t.timestamp
        &&& u.acks_received@ == t.acks_received@.push(replica_id)
        &&& done == (u.acks_received@.len() >= quorum(before.replication_factor as nat))
    }
}

/// A replication completes at its quorum: after `replicate_message`
/// registered a message (no acknowledgements yet), the acknowledgements
/// that arrive are kept in order, and the call that brings the count to
/// `replication_factor / 2 + 1` is the first to signal completion, as do
/// all after it. `states` are the manager before and after each call.
pub proof fn lemma_completes_at_quorum(states: Seq<ReplicationManager>, id: Seq<char>, replicas: Seq<String>, dones: Seq<bool>)
    requires
        states.len() == dones.len() + 1,
        replicas.len() == dones.len(),
        states[0].trackers().contains_key(id),
        states[0].trackers()[id].acks_received@.len() == 0,
        forall|i: int| 0 <= i < dones.len() ==> #[trigger] ack_outcome(states[i], id, replicas[i], dones[i], states[i + 1]),
    ensures
        forall|i: int| 0 <= i < dones.len() ==> {
            &&& (#[trigger] dones[i]) == (i + 1 >= quorum(states[0].replication_factor as nat))
            &&& states[i + 1].trackers()[id].acks_received@ == replicas.take(i + 1)
        },
    decreases dones.len(),
{
    if dones.len() > 0 {
        let n = dones.len() - 1;
        let s2 = states.drop_last();
        lemma_completes_at_quorum(s2, id, replicas.drop_last(), dones.drop_last());
        assert forall|i: int| 0 <= i < dones.drop_last().len() implies
            #[trigger] ack_outcome(s2[i], id, replicas.drop_last()[i], dones.drop_last()[i], s2[i + 1]) by {
            assert(ack_outcome(states[i], id, replicas[i], dones[i], states[i + 1]));
        }
        lemma_tracker_kept(states, id, replicas, dones, n);
        assert(ack_outcome(states[n], id, replicas[n], dones[n], states[n + 1]));
        if n > 0 {
            let m = n - 1;
            assert(dones.drop_last()[m] == dones[m]);
            assert(states[m + 1].trackers()[id].acks_received@ == replicas.drop_last().take(m + 1));
            assert(replicas.drop_last().take(m + 1) =~= replicas.take(n));
        } else {
            assert(replicas.take(0) =~= Seq::<String>::empty());
        }
        assert(replicas.take(n).push(replicas[n]) =~= replicas.take(n + 1));
        assert forall|i: int| 0 <= i < dones.len() implies {
            &&& (#[trigger] dones[i]) == (i + 1 >= quorum(states[0].replication_factor as nat))
            &&& states[i + 1].trackers()[id].acks_received@ == replicas.take(i + 1)
        } by {
            if i < n {
                assert(dones.drop_last()[i] == dones[i]);
                assert(s2[i + 1] == states[i + 1]);
                assert(replicas.drop_last().take(i + 1) =~= replicas.take(i + 1));
            }
        }
    }
}

/// Along the run, the tracker stays, the factor stays, and the count of
/// acknowledgements after `k` calls is `k`.
proof fn lemma_tracker_kept(states: Seq<ReplicationManager>, id: Seq<char>, replicas: Seq<String>, dones: Seq<bool>, k: int)
    requires
        0 <= k <= dones.len(),
        states.len() == dones.len() + 1,
        replicas.len() == dones.len(),
        states[0].trackers().contains_key(id),
        states[0].trackers()[id].acks_received@.len() == 0,
        forall|i: int| 0 <= i < dones.len() ==> #[trigger] ack_outcome(states[i], id, replicas[i], dones[i], states[i + 1]),
    ensures
        states[k].trackers().contains_key(id),
        states[k].replication_factor == states[0].replication_factor,
        states[k].trackers()[id].acks_received@.len() == k,
    decreases k,
{
    if k > 0 {
        let j = k - 1;
        lemma_tracker_kept(states, id, replicas, dones, j);
        assert(ack_outcome(states[j], id, replicas[j], dones[j], states[j + 1]));
    }
}

pub struct ReplicationManager {
    pub node_id: String,
    pub replication_factor: usize,
    pub isr_sets: dashmap::DashMap<u32, Vec<NodeInfo>>,
    pub ack_trackers: dashmap::DashMap<String, AckTracker>,
}

impl ReplicationManager {
    pub open spec fn isr(&self) -> Map<u32, Vec<NodeInfo>> {
        isr_table(self.isr_sets)
    }

    pub open spec fn trackers(&self) -> Map<Seq<char>, AckTracker> {
        ack_table(self.ack_trackers)
    }

    pub fn new(node_id: String, replication_factor: usize) -> (m: ReplicationManager)
        ensures
            m.node_id == node_id,
            m.replication_factor == replication_factor,
            m.isr().dom() == Set::<u32>::empty(),
            m.trackers().dom() == Set::<Seq<char>>::empty(),
    {
        ReplicationManager {
            node_id,
            replication_factor,
            isr_sets: new_isr_table(),
            ack_trackers: new_ack_table(),
        }
    }

    /// Sets the in-sync replicas of a partition.
    pub fn set_isr(&mut self, partition: u32, replicas: Vec<NodeInfo>)
        ensures
            final(self).isr() == old(self).isr().insert(partition, replicas),
            final(self).trackers() == old(self).trackers(),
            final(self).replication_factor == old(self).replication_factor,
    {
        isr_insert(&mut self.isr_sets, partition, replicas);
    }

    /// Registers `message` for replication in `partition` and returns the
    /// in-sync replicas to send it to; the caller then waits for the
    /// quorum. A partition without in-sync replicas is
    /// `Replication("No ISR set found")`, and nothing is registered.
    pub fn replicate_message(&mut self, partition: u32, message: &Message) -> (r: Result<Vec<NodeInfo>, Error>)
        ensures
            final(self).isr() == old(self).isr(),
            final(self).replication_factor == old(self).replication_factor,
            old(self).isr().contains_key(partition) ==> {
                &&& r matches Ok(v) && v@ == old(self).isr()[partition]@
                &&& final(self).trackers().dom() == old(self).trackers().dom().insert(message.id@)
                &&& forall|k: Seq<char>| k != message.id@ && #[trigger] old(self).trackers().contains_key(k)
                    ==> final(self).trackers()[k] == old(self).trackers()[k]
                &&& final(self).trackers()[message.id@].message_id == message.id
                &&& final(self).trackers()[message.id@].acks_received@.len() == 0
            },
            !old(self).isr().contains_key(partition) ==> {
                &&& r matches Err(Error::Replication(t)) && t@ == "No ISR set found"@
                &&& final(self).trackers() == old(self).trackers()
            },
    {
        match isr_get(&self.isr_sets, partition) {
            None => {
                proof { reveal_strlit("No ISR set found"); }
                Err(Error::Replication(String::from_str("No ISR set found")))
            },
            Some(replicas) => {
                let tracker = AckTracker {
                    message_id: message.id.clone(),
                    acks_received: Vec::new(),
                    timestamp: now_unix_nanos(),
                };
                ack_put(&mut self.ack_trackers, message.id.clone(), tracker);
                Ok(replicas)
            },
        }
    }

    /// Records that `replica_id` acknowledged `message_id`. Returns whether
    /// the message now has a quorum of acknowledgements, so that the waiting
    /// sender can be signalled; an unknown message changes nothing.
    pub fn handle_replica_ack(&mut self, message_id: &String, replica_id: &String) -> (done: bool)
        ensures
            ack_outcome(*old(self), message_id@, *replica_id, done, *final(self)),
    {
        match ack_take(&mut self.ack_trackers, message_id) {
            None => {
                assert(self.trackers() =~= old(self).trackers());
                false
            },
            Some(t) => {
                let mut t = t;
                t.acks_received.push(replica_id.clone());
                let done = t.acks_received.len() >= self.replication_factor / 2 + 1;
                ack_put(&mut self.ack_trackers, message_id.clone(), t);
                proof {
                    assert(ack_table(self.ack_trackers).dom() =~= old(self).trackers().dom());
                }
                done
            },
        }
    }
}

} // verus!
