//! Watching the other nodes: how long since each was last heard from, and
//! the status that follows.
use vstd::prelude::*;
use vstd::string::*;
use crate::rafka_core::Error;
use crate::text::views;

verus! {

#[derive(Clone, Copy, Debug, PartialEq, Eq, Structural)]
pub enum NodeStatus {
    Alive,
    Suspected,
    Failed,
}

/// A node as the heartbeat manager sees it; `last_heartbeat` is in
/// nanoseconds since the UNIX epoch.
#[derive(Debug)]
pub struct NodeState {
    pub node_id: String,
    pub last_heartbeat: u128,
    pub status: NodeStatus,
}

impl NodeState {
    pub fn copy(&self) -> (r: NodeState)
        ensures
            r == *self,
    {
        NodeState { node_id: self.node_id.clone(), last_heartbeat: self.last_heartbeat, status: self.status }
    }
}

/// A change of a node's status, to announce; `timestamp` is in
/// nanoseconds since the UNIX epoch.
#[derive(Clone, Debug, PartialEq, Eq)]
pub struct NodeStateChange {
    pub node_id: String,
    pub old_status: NodeStatus,
    pub new_status: NodeStatus,
    pub timestamp: u128,
}

pub const SUSPECT_AFTER_NANOS: u128 = 5_000_000_000;
pub const FAIL_AFTER_NANOS: u128 = 10_000_000_000;

/// The status of a node not heard from for `silence` nanoseconds: failed
/// after more than 10 s, suspected after more than 5 s, alive otherwise.
pub open spec fn status_for_spec(silence: u128) -> NodeStatus {
    if silence > FAIL_AFTER_NANOS {
        NodeStatus::Failed
    } else if silence > SUSPECT_AFTER_NANOS {
        NodeStatus::Suspected
    } else {
        NodeStatus::Alive
    }
}

pub fn status_for(silence: u128) -> (s: NodeStatus)
    ensures
        s == status_for_spec(silence),
{
    if silence > FAIL_AFTER_NANOS {
        NodeStatus::Failed
    } else if silence > SUSPECT_AFTER_NANOS {
        NodeStatus::Suspected
    } else {
        NodeStatus::Alive
    }
}

/// A longer silence never gives a healthier status.
pub proof fn lemma_status_monotone(a: u128, b: u128)
    requires
        a <= b,
    ensures
        status_for_spec(a) == NodeStatus::Failed ==> status_for_spec(b) == NodeStatus::Failed,
        status_for_spec(b) == NodeStatus::Alive ==> status_for_spec(a) == NodeStatus::Alive,
{
}

/// The nodes, by id.
pub uninterp spec fn node_table(m: dashmap::DashMap<String, NodeState>) -> Map<Seq<char>, NodeState>;

/// `DashMap::new` for the nodes.
#[verifier::external_body]
fn new_node_table() -> (m: dashmap::DashMap<String, NodeState>)
    ensures
        node_table(m).dom() == Set::<Seq<char>>::empty(),
{
    dashmap::DashMap::new()
}

/// `DashMap::get`, copying the node out.
#[verifier::external_body]
fn node_table_get(m: &dashmap::DashMap<String, NodeState>, id: &String) -> (r: Option<NodeState>)
    ensures
        match r {
            Some(n) => node_table(*m).contains_key(id@) && n == node_table(*m)[id@],
            None => !node_table(*m).contains_key(id@),
        },
{
    m.get(id).map(|entry| entry.value().copy())
}

/// `DashMap::insert` for the nodes.
#[verifier::external_body]
fn node_table_set(m: &mut dashmap::DashMap<String, NodeState>, id: String, n: NodeState)
    ensures
        node_table(*final(m)) == node_table(*old(m)).insert(id@, n),
{
    m.insert(id, n);
}

/// The ids of the nodes, as `DashMap::iter` walks them: each once, in an
/// order that the map does not promise.
#[verifier::external_body]
fn node_ids(m: &dashmap::DashMap<String, NodeState>) -> (r: Vec<String>)
    ensures
        views(r@).no_duplicates(),
        views(r@).to_set() == node_table(*m).dom(),
{
    m.iter().map(|entry| entry.key().clone()).collect()
}

/// A node as a health check at `now` leaves it: in the status that its
/// silence gives.
pub open spec fn swept(n: NodeState, now: u128) -> NodeState {
    NodeState { node_id: n.node_id, last_heartbeat: n.last_heartbeat, status: status_for_spec((now - n.last_heartbeat) as u128) }
}

/// Whether `c` is the change that a health check at `now` announces for
/// node `n`.
pub open spec fn announces(c: NodeStateChange, n: NodeState, now: u128) -> bool {
    &&& c.node_id@ == n.node_id@
    &&& c.old_status == n.status
    &&& c.new_status == status_for_spec((now - n.last_heartbeat) as u128)
    &&& c.timestamp == now
}

pub struct HeartbeatManager {
    pub node_id: String,
    pub node_states: dashmap::DashMap<String, NodeState>,
}

impl HeartbeatManager {
    /// The nodes watched, by id.
    pub closed spec fn nodes(&self) -> Map<Seq<char>, NodeState> {
        node_table(self.node_states)
    }

    /// Each node is filed under its own id.
    pub open spec fn wf(&self) -> bool {
        forall|k: Seq<char>| #[trigger] self.nodes().contains_key(k) ==> self.nodes()[k].node_id@ == k
    }

    pub fn new(node_id: String) -> (m: HeartbeatManager)
        ensures
            m.node_id == node_id,
            m.nodes().dom() == Set::<Seq<char>>::empty(),
            m.wf(),
    {
        HeartbeatManager { node_id, node_states: new_node_table() }
    }

    /// Notes that `node_id` was heard from at `now`: it is alive.
    pub fn record_heartbeat(&mut self, node_id: String, now: u128)
        ensures
            final(self).nodes() == old(self).nodes().insert(node_id@, NodeState { node_id, last_heartbeat: now, status: NodeStatus::Alive }),
            final(self).node_id == old(self).node_id,
            old(self).wf() ==> final(self).wf(),
    {
        let state = NodeState { node_id: node_id.clone(), last_heartbeat: now, status: NodeStatus::Alive };
        node_table_set(&mut self.node_states, node_id, state);
    }

    /// The ids of the nodes watched.
    pub fn watched_nodes(&self) -> (r: Vec<String>)
        ensures
            views(r@).no_duplicates(),
            views(r@).to_set() == self.nodes().dom(),
    {
        node_ids(&self.node_states)
    }

    /// The alive nodes, to which heartbeats go.
    pub fn alive_nodes(&self) -> (r: Vec<String>)
        ensures
            forall|i: int| 0 <= i < r@.len() ==> self.nodes().contains_key(#[trigger] r@[i]@)
                && self.nodes()[r@[i]@].status == NodeStatus::Alive,
            forall|k: Seq<char>| #[trigger] self.nodes().contains_key(k) && self.nodes()[k].status == NodeStatus::Alive
                ==> views(r@).contains(k),
    {
        let ids = node_ids(&self.node_states);
        let mut r: Vec<String> = Vec::new();
        let mut i: usize = 0;
        while i < ids.len()
            invariant
                i <= ids@.len(),
                views(ids@).to_set() == self.nodes().dom(),
                forall|j: int| 0 <= j < r@.len() ==> self.nodes().contains_key(#[trigger] r@[j]@)
                    && self.nodes()[r@[j]@].status == NodeStatus::Alive,
                forall|j: int| 0 <= j < i && #[trigger] self.nodes()[ids@[j]@].status == NodeStatus::Alive
                    ==> views(r@).contains(ids@[j]@),
            decreases ids@.len() - i,
        {
            assert(views(ids@)[i as int] == ids@[i as int]@);
            assert(self.nodes().contains_key(ids@[i as int]@));
            match node_table_get(&self.node_states, &ids[i]) {
                Some(n) => {
                    if n.status == NodeStatus::Alive {
                        let ghost before = r@;
                        r.push(ids[i].clone());
                        proof {
                            assert(views(r@) =~= views(before).push(ids@[i as int]@));
                            assert forall|j: int| 0 <= j < i && #[trigger] self.nodes()[ids@[j]@].status == NodeStatus::Alive
                                implies views(r@).contains(ids@[j]@) by {
                                let k = choose|k: int| 0 <= k < before.len() && views(before)[k] == ids@[j]@;
                                assert(views(r@)[k] == ids@[j]@);
                            }
                            assert(views(r@)[before.len() as int] == ids@[i as int]@);
                        }
                    }
                },
                None => {},
            }
            i = i + 1;
        }
        proof {
            assert forall|k: Seq<char>| #[trigger] self.nodes().contains_key(k) && self.nodes()[k].status == NodeStatus::Alive
                implies views(r@).contains(k) by {
                assert(views(ids@).to_set().contains(k));
                let j = choose|j: int| 0 <= j < ids@.len() && views(ids@)[j] == k;
                assert(ids@[j]@ == k);
            }
        }
        r
    }

    /// What the health check finds for `node_id` at `now`: the change of
    /// status to announce, if its silence puts it in another status. A
    /// heartbeat later than `now` means the clock went back, an error.
    pub fn evaluate_node(&self, node_id: &String, now: u128) -> (r: Result<Option<NodeStateChange>, Error>)
        ensures
            !self.nodes().contains_key(node_id@) ==> r matches Ok(None),
            self.nodes().contains_key(node_id@) ==> {
                let n = self.nodes()[node_id@];
                if now < n.last_heartbeat {
                    r matches Err(Error::Internal(t)) && t@ == "Time went backwards"@
                } else {
                    let s = status_for_spec((now - n.last_heartbeat) as u128);
                    if s == n.status {
                        r matches Ok(None)
                    } else {
                        r matches Ok(Some(c)) && c.node_id@ == n.node_id@ && c.old_status == n.status
                            && c.new_status == s && c.timestamp == now
                    }
                }
            },
    {
        proof { reveal_strlit("Time went backwards"); }
        match node_table_get(&self.node_states, node_id) {
            None => Ok(None),
            Some(n) => {
                if now < n.last_heartbeat {
                    return Err(Error::Internal(String::from_str("Time went backwards")));
                }
                let s = status_for(now - n.last_heartbeat);
                if s == n.status {
                    Ok(None)
                } else {
                    Ok(Some(NodeStateChange { node_id: n.node_id, old_status: n.status, new_status: s, timestamp: now }))
                }
            },
        }
    }

    /// One health check of every watched node at `now`, as the monitor runs
    /// it every five seconds: each node is put in the status its silence
    /// gives (`swept`), and the changes of status come back to announce. A
    /// node heard from after `now` means the clock went back: the check stops
    /// there with `Internal("Time went backwards")`, and the nodes checked
    /// before it keep their new status. The order of the nodes is that of
    /// the map, which is left open.
    pub fn check_node_health(&mut self, now: u128) -> (r: (Vec<NodeStateChange>, Result<(), Error>))
        requires
            old(self).wf(),
        ensures
            final(self).wf(),
            final(self).node_id == old(self).node_id,
            final(self).nodes().dom() == old(self).nodes().dom(),
            forall|k: Seq<char>| #[trigger] old(self).nodes().contains_key(k) ==>
                final(self).nodes()[k] == old(self).nodes()[k]
                || (now >= old(self).nodes()[k].last_heartbeat && final(self).nodes()[k] == swept(old(self).nodes()[k], now)),
            forall|i: int| 0 <= i < r.0@.len() ==> {
                let k = (#[trigger] r.0@[i]).node_id@;
                &&& old(self).nodes().contains_key(k)
                &&& now >= old(self).nodes()[k].last_heartbeat
                &&& final(self).nodes()[k] == swept(old(self).nodes()[k], now)
                &&& final(self).nodes()[k] != old(self).nodes()[k]
                &&& announces(r.0@[i], old(self).nodes()[k], now)
            },
            forall|k: Seq<char>| #[trigger] old(self).nodes().contains_key(k) && final(self).nodes()[k] != old(self).nodes()[k]
                ==> exists|i: int| 0 <= i < r.0@.len() && (#[trigger] r.0@[i]).node_id@ == k,
            (r.1 is Ok) == (forall|k: Seq<char>| #[trigger] old(self).nodes().contains_key(k) ==> now >= old(self).nodes()[k].last_heartbeat),
            r.1 is Ok ==> forall|k: Seq<char>| #[trigger] old(self).nodes().contains_key(k)
                ==> final(self).nodes()[k] == swept(old(self).nodes()[k], now),
            r.1 is Err ==> (r.1 matches Err(Error::Internal(t)) && t@ == "Time went backwards"@),
    {
        proof { reveal_strlit("Time went backwards"); }
        let ghost start = self.nodes();
        let ids = node_ids(&self.node_states);
        let mut changes: Vec<NodeStateChange> = Vec::new();
        let mut i: usize = 0;
        while i < ids.len()
            invariant
                self.wf(),
                self.node_id == old(self).node_id,
                start == old(self).nodes(),
                forall|k: Seq<char>| #[trigger] start.contains_key(k) ==> start[k].node_id@ == k,
                i <= ids@.len(),
                views(ids@).no_duplicates(),
                views(ids@).to_set() == start.dom(),
                self.nodes().dom() == start.dom(),
                forall|j: int| 0 <= j < i ==> now >= start[#[trigger] ids@[j]@].last_heartbeat
                    && self.nodes()[ids@[j]@] == swept(start[ids@[j]@], now),
                forall|j: int| i <= j < ids@.len() ==> self.nodes()[#[trigger] ids@[j]@] == start[ids@[j]@],
                forall|k: Seq<char>| #[trigger] start.contains_key(k) ==>
                    self.nodes()[k] == start[k]
                    || (now >= start[k].last_heartbeat && self.nodes()[k] == swept(start[k], now)),
                forall|c: int| 0 <= c < changes@.len() ==> {
                    let k = (#[trigger] changes@[c]).node_id@;
                    &&& start.contains_key(k)
                    &&& now >= start[k].last_heartbeat
                    &&& self.nodes()[k] == swept(start[k], now)
                    &&& self.nodes()[k] != start[k]
                    &&& announces(changes@[c], start[k], now)
                },
                forall|k: Seq<char>| #[trigger] start.contains_key(k) && self.nodes()[k] != start[k]
                    ==> exists|c: int| 0 <= c < changes@.len() && (#[trigger] changes@[c]).node_id@ == k,
            decreases ids@.len() - i,
        {
            let ghost key = ids@[i as int]@;
            assert(views(ids@)[i as int] == key);
            assert(start.contains_key(key));
            let ghost before = self.nodes();
            match node_table_get(&self.node_states, &ids[i]) {
                None => {
                    proof { assert(false); }
                },
                Some(n) => {
                    if now < n.last_heartbeat {
                        proof {
                            assert(!(now >= start[key].last_heartbeat));
                        }
                        return (changes, Err(Error::Internal(String::from_str("Time went backwards"))));
                    }
                    let s = status_for(now - n.last_heartbeat);
                    if s != n.status {
                        let change = NodeStateChange { node_id: n.node_id.clone(), old_status: n.status, new_status: s, timestamp: now };
                        let updated = NodeState { node_id: n.node_id, last_heartbeat: n.last_heartbeat, status: s };
                        node_table_set(&mut self.node_states, ids[i].clone(), updated);
                        let ghost old_changes = changes@;
                        changes.push(change);
                        proof {
                            assert(self.nodes().dom() =~= start.dom());
                            assert(changes@[old_changes.len() as int].node_id@ == key);
                            assert forall|j: int| i < j < ids@.len() implies self.nodes()[#[trigger] ids@[j]@] == start[ids@[j]@] by {
                                assert(views(ids@)[j] == ids@[j]@);
                                assert(ids@[j]@ != key);
                            }
                            assert forall|j: int| 0 <= j < i implies now >= start[#[trigger] ids@[j]@].last_heartbeat
                                && self.nodes()[ids@[j]@] == swept(start[ids@[j]@], now) by {
                                assert(views(ids@)[j] == ids@[j]@);
                                assert(ids@[j]@ != key);
                            }
                            assert forall|c: int| 0 <= c < changes@.len() implies {
                                let k = (#[trigger] changes@[c]).node_id@;
                                &&& start.contains_key(k)
                                &&& now >= start[k].last_heartbeat
                                &&& self.nodes()[k] == swept(start[k], now)
                                &&& self.nodes()[k] != start[k]
                                &&& announces(changes@[c], start[k], now)
                            } by {
                                if c < old_changes.len() {
                                    assert(changes@[c] == old_changes[c]);
                                    let k = old_changes[c].node_id@;
                                    if k == key {
                                        assert(before[key] == start[key]);
                                    }
                                }
                            }
                            assert forall|k: Seq<char>| #[trigger] start.contains_key(k) && self.nodes()[k] != start[k]
                                implies exists|c: int| 0 <= c < changes@.len() && (#[trigger] changes@[c]).node_id@ == k by {
                                if k == key {
                                    assert(changes@[old_changes.len() as int].node_id@ == k);
                                } else {
                                    assert(before[k] == self.nodes()[k]);
                                    let c = choose|c: int| 0 <= c < old_changes.len() && (#[trigger] old_changes[c]).node_id@ == k;
                                    assert(changes@[c] == old_changes[c]);
                                }
                            }
                        }
                    } else {
                        proof {
                            assert(swept(start[key], now) == start[key]);
                        }
                    }
                },
            }
            i = i + 1;
        }
        proof {
            assert forall|k: Seq<char>| #[trigger] start.contains_key(k) implies now >= start[k].last_heartbeat
                && self.nodes()[k] == swept(start[k], now) by {
                assert(views(ids@).to_set().contains(k));
                let j = choose|j: int| 0 <= j < ids@.len() && views(ids@)[j] == k;
                assert(ids@[j]@ == k);
            }
        }
        (changes, Ok(()))
    }

    /// Puts a node in the status that a change announced.
    pub fn apply_change(&mut self, change: &NodeStateChange)
        ensures
            old(self).nodes().contains_key(change.node_id@) ==> final(self).nodes() == old(self).nodes().insert(
                change.node_id@,
                NodeState {
                    node_id: old(self).nodes()[change.node_id@].node_id,
                    last_heartbeat: old(self).nodes()[change.node_id@].last_heartbeat,
                    status: change.new_status,
                },
            ),
            !old(self).nodes().contains_key(change.node_id@) ==> final(self).nodes() == old(self).nodes(),
            final(self).node_id == old(self).node_id,
            old(self).wf() ==> final(self).wf(),
    {
        match node_table_get(&self.node_states, &change.node_id) {
            Some(n) => {
                let updated = NodeState { node_id: n.node_id, last_heartbeat: n.last_heartbeat, status: change.new_status };
                node_table_set(&mut self.node_states, change.node_id.clone(), updated);
            },
            None => {},
        }
    }
}

/// The intervals between heartbeats that a failure detector keeps: at most
/// `window_size`, the most recent.
pub struct HeartbeatWindow {
    pub window_size: usize,
    pub heartbeat_intervals: Vec<u128>,
}

impl HeartbeatWindow {
    pub fn new() -> (w: HeartbeatWindow)
        ensures
            w.window_size == 1000,
            w.heartbeat_intervals@.len() == 0,
    {
        HeartbeatWindow { window_size: 1000, heartbeat_intervals: Vec::new() }
    }

    /// Adds an interval, dropping the oldest when there are more than the
    /// window holds.
    pub fn record_heartbeat(&mut self, interval: u128)
        ensures
            final(self).window_size == old(self).window_size,
            old(self).heartbeat_intervals@.len() + 1 > old(self).window_size ==>
                final(self).heartbeat_intervals@ == old(self).heartbeat_intervals@.push(interval).drop_first(),
            old(self).heartbeat_intervals@.len() + 1 <= old(self).window_size ==>
                final(self).heartbeat_intervals@ == old(self).heartbeat_intervals@.push(interval),
    {
        self.heartbeat_intervals.push(interval);
        if self.heartbeat_intervals.len() > self.window_size {
            let _ = self.heartbeat_intervals.remove(0);
            assert(self.heartbeat_intervals@ =~= old(self).heartbeat_intervals@.push(interval).drop_first());
        }
    }
}

/// A window that holds no more than its size keeps doing so, and the
/// interval just recorded is always its last.
pub proof fn lemma_window_bounded(before: Seq<u128>, after: Seq<u128>, window_size: usize, interval: u128)
    requires
        before.len() <= window_size,
        before.len() + 1 > window_size ==> after == before.push(interval).drop_first(),
        before.len() + 1 <= window_size ==> after == before.push(interval),
        window_size > 0,
    ensures
        after.len() <= window_size,
        after.last() == interval,
{
}

} // verus!
