//! The nodes of the peer-to-peer ring.
use vstd::prelude::*;
use crate::platform::{new_dash_map, new_uuid_string, is_v4_uuid_text};

verus! {

/// A node of the ring: its id in the id space, its address (`ip:port`),
/// and whether it is up.
#[derive(Clone, Debug, PartialEq, Eq)]
pub struct NodeInfo {
    pub id: String,
    pub addr: String,
    pub is_alive: bool,
}

impl NodeInfo {
    pub fn copy(&self) -> (r: NodeInfo)
        ensures
            r == *self,
    {
        NodeInfo { id: self.id.clone(), addr: self.addr.clone(), is_alive: self.is_alive }
    }
}

impl Default for NodeInfo {
    /// No id, no address, not up.
    fn default() -> (n: Self)
        ensures
            n.id@ == Seq::<char>::empty(),
            n.addr@ == Seq::<char>::empty(),
            !n.is_alive,
    {
        NodeInfo { id: String::new(), addr: String::new(), is_alive: false }
    }
}

/// Copies of a list of nodes.
pub fn copy_nodes(v: &Vec<NodeInfo>) -> (r: Vec<NodeInfo>)
    ensures
        r@ == v@,
{
    let mut r: Vec<NodeInfo> = Vec::new();
    let mut i: usize = 0;
    while i < v.len()
        invariant
            i <= v@.len(),
            r@ == v@.take(i as int),
        decreases v@.len() - i,
    {
        r.push(v[i].copy());
        assert(v@.take(i + 1) =~= v@.take(i as int).push(v@[i as int]));
        i = i + 1;
    }
    assert(v@.take(v@.len() as int) =~= v@);
    r
}

/// Where a message goes once the owner of its partition is known.
#[derive(Debug)]
pub enum RouteDecision {
    /// To the owner, another node.
    Forward(NodeInfo),
    /// This node owns the partition and handles the message.
    Local,
}

/// A node of the ring with its routing state: prefix routes, the leaf set
/// and neighbourhood, the partitions of each topic and the owners of each
/// partition.
pub struct P2PNetwork {
    pub node_id: String,
    pub port: u16,
    pub routing_table: dashmap::DashMap<String, Vec<NodeInfo>>,
    pub leaf_set: dashmap::DashMap<String, NodeInfo>,
    pub neighborhood_set: dashmap::DashMap<String, NodeInfo>,
    pub topic_partitions: dashmap::DashMap<String, Vec<u32>>,
    pub partition_owners: dashmap::DashMap<u32, Vec<NodeInfo>>,
}

impl P2PNetwork {
    /// A node with a fresh random id that listens on `port`, with empty
    /// routing state.
    pub fn new(port: u16) -> (n: P2PNetwork)
        ensures
            is_v4_uuid_text(n.node_id@),
            n.port == port,
    {
        P2PNetwork {
            node_id: new_uuid_string(),
            port,
            routing_table: new_dash_map(),
            leaf_set: new_dash_map(),
            neighborhood_set: new_dash_map(),
            topic_partitions: new_dash_map(),
            partition_owners: new_dash_map(),
        }
    }

    /// A message whose partition `owner` owns is forwarded to it, unless
    /// the owner is this node.
    pub fn route_decision(&self, owner: NodeInfo) -> (r: RouteDecision)
        ensures
            owner.id@ != self.node_id@ ==> r == RouteDecision::Forward(owner),
            owner.id@ == self.node_id@ ==> r == RouteDecision::Local,
    {
        if owner.id != self.node_id {
            RouteDecision::Forward(owner)
        } else {
            RouteDecision::Local
        }
    }
}

} // verus!
