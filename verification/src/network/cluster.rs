//! The state of the cluster: its nodes, the assignment of partitions to
//! leaders and replicas, and what changes when nodes join and leave.
use vstd::prelude::*;
use crate::rafka_core::Error;
use crate::platform::now_unix_nanos;
use crate::network::leader::LeaderElection;

verus! {

/// What a node can hold.
#[derive(Clone, Copy, Debug, PartialEq, Eq, Structural)]
pub struct ResourceCapacity {
    pub max_partitions: u64,
    pub max_bytes: u64,
}

/// What a node holds now.
#[derive(Clone, Copy, Debug, PartialEq, Eq, Structural)]
pub struct ResourceUsage {
    pub partitions: u64,
    pub bytes: u64,
}

#[derive(Clone, Debug, PartialEq, Eq)]
pub struct NodeMetadata {
    pub capacity: ResourceCapacity,
    pub load: ResourceUsage,
    pub version: String,
}

#[derive(Clone, Copy, Debug, PartialEq, Eq, Structural)]
pub enum ClusterNodeStatus {
    Joining,
    Active,
    Leaving,
}

/// A member of the cluster; `last_heartbeat` is in nanoseconds since the
/// UNIX epoch.
#[derive(Debug)]
pub struct NodeState {
    pub node_id: String,
    pub status: ClusterNodeStatus,
    pub partitions: Vec<u32>,
    pub last_heartbeat: u128,
    pub metadata: NodeMetadata,
}

#[derive(Clone, Copy, Debug, PartialEq, Eq, Structural)]
pub enum PartitionStatus {
    Online,
    Offline,
    Transferring,
    Recovering,
}

/// Who leads a partition, who holds copies, and which of those are in
/// sync.
#[derive(Debug)]
pub struct PartitionAssignment {
    pub partition_id: u32,
    pub leader: String,
    pub replicas: Vec<String>,
    pub isr: Vec<String>,
    pub status: PartitionStatus,
}

/// A change to announce to the cluster.
#[derive(Clone, Debug, PartialEq, Eq)]
pub enum ClusterStateChange {
    NodeJoined(String),
    NodeLeft(String),
}

/// A partition that gets a new leader.
#[derive(Clone, Debug, PartialEq, Eq)]
pub struct LeaderChange {
    pub partition_id: u32,
    pub new_leader: String,
}

/// The members, by id.
pub uninterp spec fn member_table(m: dashmap::DashMap<String, NodeState>) -> Map<Seq<char>, NodeState>;

/// The assignments, by partition.
pub uninterp spec fn assignment_table(m: dashmap::DashMap<u32, PartitionAssignment>) -> Map<u32, PartitionAssignment>;

/// `DashMap::new` for the members.
#[verifier::external_body]
fn new_member_table() -> (m: dashmap::DashMap<String, NodeState>)
    ensures
        member_table(m).dom() == Set::<Seq<char>>::empty(),
{
    dashmap::DashMap::new()
}

/// `DashMap::insert` for the members.
#[verifier::external_body]
fn member_table_insert(m: &mut dashmap::DashMap<String, NodeState>, id: String, n: NodeState)
    ensures
        member_table(*final(m)) == member_table(*old(m)).insert(id@, n),
{
    m.insert(id, n);
}

/// `DashMap::remove` for the members.
#[verifier::external_body]
fn member_table_remove(m: &mut dashmap::DashMap<String, NodeState>, id: &String) -> (r: Option<NodeState>)
    ensures
        member_table(*final(m)) == member_table(*old(m)).remove(id@),
        match r {
            Some(n) => member_table(*old(m)).contains_key(id@) && n == member_table(*old(m))[id@],
            None => !member_table(*old(m)).contains_key(id@),
        },
{
    m.remove(id).map(|entry| entry.1)
}

/// `DashMap::new` for the assignments.
#[verifier::external_body]
fn new_assignment_table() -> (m: dashmap::DashMap<u32, PartitionAssignment>)
    ensures
        assignment_table(m).dom() == Set::<u32>::empty(),
{
    dashmap::DashMap::new()
}

/// `DashMap::insert` for the assignments.
#[verifier::external_body]
pub(crate) fn assignment_table_insert(m: &mut dashmap::DashMap<u32, PartitionAssignment>, p: u32, a: PartitionAssignment)
    ensures
        assignment_table(*final(m)) == assignment_table(*old(m)).insert(p, a),
{
    m.insert(p, a);
}

/// `DashMap::remove` for the assignments.
#[verifier::external_body]
fn assignment_table_remove(m: &mut dashmap::DashMap<u32, PartitionAssignment>, p: u32) -> (r: Option<PartitionAssignment>)
    ensures
        assignment_table(*final(m)) == assignment_table(*old(m)).remove(p),
        match r {
            Some(a) => assignment_table(*old(m)).contains_key(p) && a == assignment_table(*old(m))[p],
            None => !assignment_table(*old(m)).contains_key(p),
        },
{
    m.remove(&p).map(|entry| entry.1)
}

/// The assignments after the leaders of `parts` are lost: each assigned
/// partition with a replica is led by its first replica and recovers.
pub open spec fn reassigned(before: Map<u32, PartitionAssignment>, after: Map<u32, PartitionAssignment>, parts: Seq<u32>) -> bool {
    &&& after.dom() == before.dom()
    &&& forall|p: u32| #[trigger] before.contains_key(p) ==> {
        let a = before[p];
        let b = after[p];
        if parts.contains(p) && a.replicas@.len() > 0 {
            &&& b.leader == a.replicas@[0]
            &&& b.status == PartitionStatus::Recovering
            &&& b.replicas == a.replicas
            &&& b.isr == a.isr
            &&& b.partition_id == a.partition_id
        } else {
            b == a
        }
    }
}

/// The leader changes for `parts`, in order: one for each that is
/// assigned and has a replica, to its first replica.
pub open spec fn leader_changes(assigned: Map<u32, PartitionAssignment>, parts: Seq<u32>) -> Seq<LeaderChange>
    decreases parts.len(),
{
    if parts.len() == 0 {
        Seq::empty()
    } else {
        let r = leader_changes(assigned, parts.drop_last());
        let p = parts.last();
        if assigned.contains_key(p) && assigned[p].replicas@.len() > 0 {
            r.push(LeaderChange { partition_id: p, new_leader: assigned[p].replicas@[0] })
        } else {
            r
        }
    }
}

pub struct ClusterStateManager {
    pub node_id: String,
    pub cluster_nodes: dashmap::DashMap<String, NodeState>,
    pub partition_assignments: dashmap::DashMap<u32, PartitionAssignment>,
    pub leader_election: LeaderElection,
}

impl ClusterStateManager {
    pub open spec fn members(&self) -> Map<Seq<char>, NodeState> {
        member_table(self.cluster_nodes)
    }

    pub open spec fn assignments(&self) -> Map<u32, PartitionAssignment> {
        assignment_table(self.partition_assignments)
    }

    pub fn new(node_id: String) -> (m: ClusterStateManager)
        ensures
            m.node_id == node_id,
            m.members().dom() == Set::<Seq<char>>::empty(),
            m.assignments().dom() == Set::<u32>::empty(),
    {
        let election = LeaderElection::new(node_id.clone());
        ClusterStateManager {
            node_id,
            cluster_nodes: new_member_table(),
            partition_assignments: new_assignment_table(),
            leader_election: election,
        }
    }

    /// Whether the partitions should be moved after a change of members;
    /// no rule asks for it yet.
    pub fn check_rebalancing_needed(&self) -> (r: Result<(), Error>)
        ensures
            r is Ok,
    {
        Ok(())
    }

    /// Adds a node that is joining, with no partitions, and returns the
    /// change to announce.
    pub fn handle_node_join(&mut self, node_id: String, metadata: NodeMetadata) -> (r: Result<ClusterStateChange, Error>)
        ensures
            final(self).members().dom() == old(self).members().dom().insert(node_id@),
            final(self).members()[node_id@].node_id == node_id,
            final(self).members()[node_id@].status == ClusterNodeStatus::Joining,
            final(self).members()[node_id@].partitions@.len() == 0,
            final(self).members()[node_id@].metadata == metadata,
            forall|k: Seq<char>| k != node_id@ && #[trigger] old(self).members().contains_key(k) ==> final(self).members()[k] == old(self).members()[k],
            final(self).assignments() == old(self).assignments(),
            r == Ok::<ClusterStateChange, Error>(ClusterStateChange::NodeJoined(node_id)),
    {
        let state = NodeState {
            node_id: node_id.clone(),
            status: ClusterNodeStatus::Joining,
            partitions: Vec::new(),
            last_heartbeat: now_unix_nanos(),
            metadata,
        };
        member_table_insert(&mut self.cluster_nodes, node_id.clone(), state);
        self.check_rebalancing_needed()?;
        Ok(ClusterStateChange::NodeJoined(node_id))
    }

    /// Moves the lead of each of `partitions` that is assigned and has a
    /// replica to its first replica, marking it recovering; the leader
    /// changes to carry out come back.
    pub fn handle_partition_reassignment(&mut self, partitions: &Vec<u32>) -> (r: Result<Vec<LeaderChange>, Error>)
        ensures
            reassigned(old(self).assignments(), final(self).assignments(), partitions@),
            final(self).members() == old(self).members(),
            r matches Ok(changes) && forall|i: int| 0 <= i < changes@.len() ==> {
                let c = #[trigger] changes@[i];
                &&& partitions@.contains(c.partition_id)
                &&& old(self).assignments().contains_key(c.partition_id)
                &&& old(self).assignments()[c.partition_id].replicas@.len() > 0
                &&& c.new_leader == old(self).assignments()[c.partition_id].replicas@[0]
            },
            r matches Ok(changes) && changes@ == leader_changes(old(self).assignments(), partitions@),
    {
        let mut changes: Vec<LeaderChange> = Vec::new();
        let mut i: usize = 0;
        while i < partitions.len()
            invariant
                i <= partitions@.len(),
                self.members() == old(self).members(),
                reassigned(old(self).assignments(), self.assignments(), partitions@.take(i as int)),
                forall|j: int| 0 <= j < changes@.len() ==> {
                    let c = #[trigger] changes@[j];
                    &&& partitions@.contains(c.partition_id)
                    &&& old(self).assignments().contains_key(c.partition_id)
                    &&& old(self).assignments()[c.partition_id].replicas@.len() > 0
                    &&& c.new_leader == old(self).assignments()[c.partition_id].replicas@[0]
                },
                changes@ == leader_changes(old(self).assignments(), partitions@.take(i as int)),
            decreases partitions@.len() - i,
        {
            let p = partitions[i];
            let ghost before = self.assignments();
            let ghost done = partitions@.take(i as int);
            let ghost next = partitions@.take(i + 1);
            assert(next =~= done.push(p));
            assert(next.drop_last() =~= done);
            assert(partitions@.contains(p)) by { assert(partitions@[i as int] == p); }
            proof {
                if old(self).assignments().contains_key(p) {
                    assert(before.contains_key(p));
                    assert(before[p].replicas == old(self).assignments()[p].replicas);
                }
            }
            match assignment_table_remove(&mut self.partition_assignments, p) {
                Some(mut a) => {
                    if a.replicas.len() > 0 {
                        let new_leader = a.replicas[0].clone();
                        let ghost was_done = done.contains(p);
                        a.leader = new_leader.clone();
                        a.status = PartitionStatus::Recovering;
                        assignment_table_insert(&mut self.partition_assignments, p, a);
                        proof {
                            if was_done {
                                assert(before[p].replicas == old(self).assignments()[p].replicas);
                            }
                        }
                        changes.push(LeaderChange { partition_id: p, new_leader });
                    } else {
                        assignment_table_insert(&mut self.partition_assignments, p, a);
                    }
                    proof {
                        assert(self.assignments().dom() =~= before.dom());
                        assert forall|q: u32| #[trigger] old(self).assignments().contains_key(q) implies {
                            let a0 = old(self).assignments()[q];
                            let b = self.assignments()[q];
                            if next.contains(q) && a0.replicas@.len() > 0 {
                                &&& b.leader == a0.replicas@[0]
                                &&& b.status == PartitionStatus::Recovering
                                &&& b.replicas == a0.replicas
                                &&& b.isr == a0.isr
                                &&& b.partition_id == a0.partition_id
                            } else {
                                b == a0
                            }
                        } by {
                            if q != p {
                                assert(next.contains(q) == done.contains(q));
                            } else {
                                assert(next.contains(q)) by { assert(next[next.len() - 1] == p); }
                                let a0 = old(self).assignments()[q];
                                assert(before.contains_key(q));
                                if done.contains(q) {
                                    if a0.replicas@.len() > 0 {
                                        assert(before[q].replicas == a0.replicas);
                                    } else {
                                        assert(before[q] == a0);
                                    }
                                } else {
                                    assert(before[q] == a0);
                                }
                            }
                        }
                    }
                },
                None => {
                    assert(self.assignments() =~= before);
                    assert forall|q: u32| #[trigger] old(self).assignments().contains_key(q) implies (next.contains(q) == done.contains(q)) by {
                        if q == p { assert(!old(self).assignments().contains_key(q) || before.contains_key(q)); }
                    }
                },
            }
            i = i + 1;
        }
        assert(partitions@.take(partitions@.len() as int) =~= partitions@);
        Ok(changes)
    }

    /// Removes a member; if it was one, its partitions get new leaders and
    /// the change to announce comes back with the leader changes.
    pub fn handle_node_leave(&mut self, node_id: &String) -> (r: Result<Option<(ClusterStateChange, Vec<LeaderChange>)>, Error>)
        ensures
            final(self).members() == old(self).members().remove(node_id@),
            !old(self).members().contains_key(node_id@) ==> (r matches Ok(None) && final(self).assignments() == old(self).assignments()),
            old(self).members().contains_key(node_id@) ==> {
                &&& reassigned(old(self).assignments(), final(self).assignments(), old(self).members()[node_id@].partitions@)
                &&& r matches Ok(Some((change, changes))) && change == ClusterStateChange::NodeLeft(*node_id)
                    && changes@ == leader_changes(old(self).assignments(), old(self).members()[node_id@].partitions@)
            },
    {
        match member_table_remove(&mut self.cluster_nodes, node_id) {
            Some(node) => {
                let changes = self.handle_partition_reassignment(&node.partitions)?;
                Ok(Some((ClusterStateChange::NodeLeft(node_id.clone()), changes)))
            },
            None => Ok(None),
        }
    }
}

} // verus!
