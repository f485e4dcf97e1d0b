//! Agreement on a replicated log, Raft style: the leader appends commands,
//! sends them to its peers, and commits the index that a majority holds.
use vstd::prelude::*;
use vstd::string::*;
use crate::rafka_core::Error;
use crate::text::views;
use crate::sorting::{sort_u64, sorted};

verus! {

#[derive(Clone, Copy, Debug, PartialEq, Eq, Structural)]
pub enum MembershipChangeType {
    AddNode,
    RemoveNode,
}

/// What the cluster agrees on.
#[derive(Clone, Debug, PartialEq, Eq)]
pub enum ConsensusCommand {
    PartitionAssignment { partition: u32, node: String },
    TopicCreation { topic: String, partitions: u32 },
    MembershipChange { node: String, change_type: MembershipChangeType },
}

#[derive(Clone, Debug, PartialEq, Eq)]
pub struct LogEntry {
    pub term: u64,
    pub index: u64,
    pub command: ConsensusCommand,
}

/// The entries, the index of the last one, and the term it was written in.
pub struct RaftLog {
    pub entries: Vec<LogEntry>,
    pub last_index: u64,
    pub last_term: u64,
}

impl RaftLog {
    /// Entry `i` has index `i + 1`, and the last index and term are those
    /// of the last entry.
    pub open spec fn wf(&self) -> bool {
        &&& self.entries@.len() == self.last_index
        &&& forall|i: int| 0 <= i < self.entries@.len() ==> (#[trigger] self.entries@[i]).index == i + 1
        &&& self.entries@.len() > 0 ==> self.last_term == self.entries@.last().term
    }
}

// ------------------------------------------------------------ peer tables

/// What a map from node ids to log indexes holds.
pub uninterp spec fn index_table(m: dashmap::DashMap<String, u64>) -> Map<Seq<char>, u64>;

/// `DashMap::get(..).map(|v| *v)` on an index table.
#[verifier::external_body]
fn index_table_get(m: &dashmap::DashMap<String, u64>, k: &String) -> (r: Option<u64>)
    ensures
        match r {
            Some(v) => index_table(*m).contains_key(k@) && v == index_table(*m)[k@],
            None => !index_table(*m).contains_key(k@),
        },
{
    m.get(k).map(|v| *v)
}

/// A peer of the consensus group.
#[derive(Clone, Debug, PartialEq, Eq)]
pub struct RaftPeer {
    pub address: String,
}

/// The peers, by node id.
pub uninterp spec fn peer_table(m: dashmap::DashMap<String, RaftPeer>) -> Map<Seq<char>, RaftPeer>;

/// `DashMap::new` for the peers.
#[verifier::external_body]
pub(crate) fn new_peer_table() -> (m: dashmap::DashMap<String, RaftPeer>)
    ensures
        peer_table(m).dom() == Set::<Seq<char>>::empty(),
{
    dashmap::DashMap::new()
}

/// The ids of the peers, as `DashMap::iter` walks them: each once, in an
/// order that the map does not promise.
#[verifier::external_body]
fn peer_ids(m: &dashmap::DashMap<String, RaftPeer>) -> (r: Vec<String>)
    ensures
        views(r@).no_duplicates(),
        views(r@).to_set() == peer_table(*m).dom(),
{
    m.iter().map(|entry| entry.key().clone()).collect()
}

/// The role of a node; a leader keeps, for each peer, the next index to
/// send it and the highest index it is known to hold.
pub enum RaftState {
    Follower,
    Candidate,
    Leader {
        next_index: dashmap::DashMap<String, u64>,
        match_index: dashmap::DashMap<String, u64>,
    },
}

/// An append request to send: the peer, and the index to send from.
#[derive(Clone, Debug, PartialEq, Eq)]
pub struct AppendTarget {
    pub peer_id: String,
    pub next_index: u64,
}

pub struct RaftConsensus {
    pub node_id: String,
    pub current_term: u64,
    pub voted_for: Option<String>,
    pub log: RaftLog,
    pub commit_index: u64,
    pub last_applied: u64,
    pub state: RaftState,
    pub peers: dashmap::DashMap<String, RaftPeer>,
}

/// The indexes that the peers reported holding, in the order given;
/// failed reports are left out.
pub open spec fn reported_indexes(results: Seq<Result<u64, Error>>) -> Seq<u64>
    decreases results.len(),
{
    if results.len() == 0 {
        Seq::empty()
    } else {
        let rest = reported_indexes(results.drop_last());
        match results.last() {
            Ok(i) => rest.push(i),
            Err(_) => rest,
        }
    }
}

/// The index held by a majority of the reports: the middle one in
/// increasing order (the upper middle for an even count).
pub open spec fn majority_index(results: Seq<Result<u64, Error>>) -> Option<u64> {
    let idx = reported_indexes(results);
    if idx.len() == 0 {
        None
    } else {
        Some(sorted(idx)[idx.len() as int / 2])
    }
}

/// The commit index after the reports: the majority index, when the log
/// holds the entry with that index (indexes start at 1, so at position
/// index - 1) and it was written in the current term; otherwise unchanged.
pub open spec fn commit_after(log: Seq<LogEntry>, term: u64, commit: u64, results: Seq<Result<u64, Error>>) -> u64 {
    match majority_index(results) {
        Some(m) => if 1 <= m <= log.len() && log[m - 1].term == term { m } else { commit },
        None => commit,
    }
}

impl RaftConsensus {
    /// A follower in term 0 with an empty log, no vote, no peers.
    pub fn new(node_id: String) -> (c: RaftConsensus)
        ensures
            c.node_id == node_id,
            c.current_term == 0,
            c.voted_for is None,
            c.log.entries@.len() == 0,
            c.log.last_index == 0,
            c.log.last_term == 0,
            c.log.wf(),
            c.commit_index == 0,
            c.last_applied == 0,
            c.state is Follower,
            peer_table(c.peers).dom() == Set::<Seq<char>>::empty(),
    {
        RaftConsensus {
            node_id,
            current_term: 0,
            voted_for: None,
            log: RaftLog { entries: Vec::new(), last_index: 0, last_term: 0 },
            commit_index: 0,
            last_applied: 0,
            state: RaftState::Follower,
            peers: new_peer_table(),
        }
    }

    /// Appends `command` in the current term with the next index.
    pub fn append_entry(&mut self, command: ConsensusCommand) -> (r: Result<(), Error>)
        requires
            old(self).log.last_index < u64::MAX,
        ensures
            r is Ok,
            final(self).log.entries@ == old(self).log.entries@.push(LogEntry {
                term: old(self).current_term,
                index: (old(self).log.last_index + 1) as u64,
                command,
            }),
            final(self).log.last_index == old(self).log.last_index + 1,
            final(self).log.last_term == old(self).current_term,
            final(self).current_term == old(self).current_term,
            final(self).commit_index == old(self).commit_index,
            final(self).last_applied == old(self).last_applied,
            final(self).voted_for == old(self).voted_for,
            final(self).node_id == old(self).node_id,
            final(self).state == old(self).state,
            final(self).peers == old(self).peers,
    {
        let term = self.current_term;
        let entry = LogEntry { term, index: self.log.last_index + 1, command };
        self.log.entries.push(entry);
        self.log.last_index = self.log.last_index + 1;
        self.log.last_term = term;
        Ok(())
    }

    /// Where the leader sends its log: each peer with the next index it is
    /// due (0 when none is known). A node that does not lead refuses.
    pub fn replication_targets(&self) -> (r: Result<Vec<AppendTarget>, Error>)
        ensures
            match r {
                Ok(targets) => self.state matches RaftState::Leader { next_index, match_index } && {
                    &&& targets@.len() == peer_table(self.peers).dom().len()
                    &&& targets@.map_values(|t: AppendTarget| t.peer_id@).to_set() == peer_table(self.peers).dom()
                    &&& targets@.map_values(|t: AppendTarget| t.peer_id@).no_duplicates()
                    &&& forall|i: int| 0 <= i < targets@.len() ==> (#[trigger] targets@[i]).next_index == (
                        if index_table(next_index).contains_key(targets@[i].peer_id@) { index_table(next_index)[targets@[i].peer_id@] } else { 0 })
                },
                Err(e) => !(self.state is Leader) && (e matches Error::NotLeader(t) && t@ == "Not the leader"@),
            },
    {
        match &self.state {
            RaftState::Leader { next_index, match_index } => {
                let ids = peer_ids(&self.peers);
                let mut targets: Vec<AppendTarget> = Vec::new();
                let mut i: usize = 0;
                while i < ids.len()
                    invariant
                        i <= ids@.len(),
                        targets@.len() == i,
                        forall|j: int| 0 <= j < i ==> (#[trigger] targets@[j]).peer_id@ == ids@[j]@,
                        forall|j: int| 0 <= j < i ==> (#[trigger] targets@[j]).next_index == (
                            if index_table(*next_index).contains_key(targets@[j].peer_id@) { index_table(*next_index)[targets@[j].peer_id@] } else { 0 }),
                    decreases ids@.len() - i,
                {
                    let next = match index_table_get(next_index, &ids[i]) {
                        Some(v) => v,
                        None => 0,
                    };
                    targets.push(AppendTarget { peer_id: ids[i].clone(), next_index: next });
                    i = i + 1;
                }
                proof {
                    assert(targets@.map_values(|t: AppendTarget| t.peer_id@) =~= views(ids@));
                    views(ids@).unique_seq_to_set();
                }
                Ok(targets)
            },
            _ => {
                proof { reveal_strlit("Not the leader"); }
                Err(Error::NotLeader(String::from_str("Not the leader")))
            },
        }
    }

    /// A leader appends `command` to its log and returns where to send it;
    /// a node that does not lead refuses with `NotLeader`.
    pub fn propose(&mut self, command: ConsensusCommand) -> (r: Result<Vec<AppendTarget>, Error>)
        requires
            old(self).log.last_index < u64::MAX,
        ensures
            old(self).state is Leader ==> r is Ok && final(self).log.entries@ == old(self).log.entries@.push(LogEntry {
                term: old(self).current_term,
                index: (old(self).log.last_index + 1) as u64,
                command,
            }) && final(self).log.last_index == old(self).log.last_index + 1
                && final(self).log.last_term == old(self).current_term,
            !(old(self).state is Leader) ==> (r matches Err(Error::NotLeader(t)) && t@ == "Not the leader"@
                && final(self).log == old(self).log),
            final(self).current_term == old(self).current_term,
            final(self).commit_index == old(self).commit_index,
    {
        match self.state {
            RaftState::Leader { .. } => {
                self.append_entry(command)?;
                self.replication_targets()
            },
            _ => {
                proof { reveal_strlit("Not the leader"); }
                Err(Error::NotLeader(String::from_str("Not the leader")))
            },
        }
    }

    /// Takes the peers' reports of the index they hold: the middle one in
    /// increasing order becomes the commit index if the log holds the entry
    /// with that index and it is from the current term.
    pub fn update_commit_index(&mut self, results: Vec<Result<u64, Error>>) -> (r: Result<(), Error>)
        ensures
            r is Ok,
            final(self).commit_index == commit_after(old(self).log.entries@, old(self).current_term, old(self).commit_index, results@),
            final(self).log == old(self).log,
            final(self).current_term == old(self).current_term,
            final(self).last_applied == old(self).last_applied,
    {
        let mut indices: Vec<u64> = Vec::new();
        let mut i: usize = 0;
        while i < results.len()
            invariant
                i <= results@.len(),
                indices@ == reported_indexes(results@.take(i as int)),
            decreases results@.len() - i,
        {
            assert(results@.take(i + 1).drop_last() =~= results@.take(i as int));
            match &results[i] {
                Ok(v) => indices.push(*v),
                Err(_) => {},
            }
            i = i + 1;
        }
        assert(results@.take(results@.len() as int) =~= results@);
        let sorted_indices = sort_u64(&indices);
        proof { crate::sorting::lemma_sorted(indices@); }
        if sorted_indices.len() > 0 {
            let majority = sorted_indices[sorted_indices.len() / 2];
            if 1 <= majority && majority <= self.log.entries.len() as u64 {
                let entry_term = self.log.entries[(majority - 1) as usize].term;
                if entry_term == self.current_term {
                    self.commit_index = majority;
                }
            }
        }
        Ok(())
    }

    /// Carries out the command of an entry; the effects on partitions,
    /// topics and membership are made elsewhere.
    pub fn apply_command(&self, command: &ConsensusCommand) -> (r: Result<(), Error>)
        ensures
            r is Ok,
    {
        Ok(())
    }

    /// Applies the entries up to the commit index: `last_applied` climbs to
    /// it one entry at a time, applying the entry with each index that the
    /// log holds.
    pub fn apply_committed_entries(&mut self) -> (r: Result<(), Error>)
        ensures
            r is Ok,
            final(self).last_applied == (if old(self).last_applied < old(self).commit_index { old(self).commit_index } else { old(self).last_applied }),
            final(self).commit_index == old(self).commit_index,
            final(self).log == old(self).log,
            final(self).current_term == old(self).current_term,
    {
        let commit_index = self.commit_index;
        while self.last_applied < commit_index
            invariant
                self.commit_index == commit_index,
                self.log == old(self).log,
                self.current_term == old(self).current_term,
                old(self).last_applied < commit_index ==> self.last_applied <= commit_index,
                old(self).last_applied >= commit_index ==> self.last_applied == old(self).last_applied,
            decreases commit_index - self.last_applied,
        {
            self.last_applied = self.last_applied + 1;
            let pos = (self.last_applied - 1) as usize;
            if pos < self.log.entries.len() {
                self.apply_command(&self.log.entries[pos].command)?;
            }
        }
        Ok(())
    }
}

/// Appending keeps the log well formed: each entry's index is its position
/// plus one, and the last index and term describe the last entry.
pub proof fn lemma_append_keeps_log_wf(before: RaftLog, after: RaftLog, term: u64, command: ConsensusCommand)
    requires
        before.wf(),
        before.last_index < u64::MAX,
        after.entries@ == before.entries@.push(LogEntry { term, index: (before.last_index + 1) as u64, command }),
        after.last_index == before.last_index + 1,
        after.last_term == term,
    ensures
        after.wf(),
{
    assert forall|i: int| 0 <= i < after.entries@.len() implies (#[trigger] after.entries@[i]).index == i + 1 by {
        if i < before.entries@.len() {
            assert(after.entries@[i] == before.entries@[i]);
        }
    }
}

/// The commit index moves only to the index of an entry of the current
/// term that the log holds, and to the index that a majority of the
/// reports reach.
pub proof fn lemma_commit_only_current_term(log: RaftLog, term: u64, commit: u64, results: Seq<Result<u64, Error>>)
    requires
        log.wf(),
    ensures
        commit_after(log.entries@, term, commit, results) != commit ==> {
            let c = commit_after(log.entries@, term, commit, results);
            &&& exists|i: int| 0 <= i < log.entries@.len() && #[trigger] log.entries@[i].index == c && log.entries@[i].term == term
            &&& majority_index(results) == Some(c)
        },
{
    let c = commit_after(log.entries@, term, commit, results);
    if c != commit {
        assert(log.entries@[c - 1].index == c);
    }
}

/// The majority index is one that a report gave, and every report from
/// the middle of the increasing order on reaches it: with an odd number of
/// reports that is more than half of them (with an even number, half).
pub proof fn lemma_majority_index_reached(results: Seq<Result<u64, Error>>)
    ensures
        majority_index(results) matches Some(m) ==> {
            let idx = reported_indexes(results);
            let s = sorted(idx);
            &&& idx.contains(m)
            &&& s.to_multiset() == idx.to_multiset()
            &&& forall|j: int| idx.len() / 2 <= j < idx.len() ==> s[j] >= m
            &&& (idx.len() % 2 == 1 ==> idx.len() - idx.len() / 2 > idx.len() / 2)
        },
{
    let idx = reported_indexes(results);
    crate::sorting::lemma_sorted(idx);
    if idx.len() > 0 {
        let s = sorted(idx);
        let m = s[idx.len() as int / 2];
        assert(s.contains(m));
        vstd::seq_lib::to_multiset_contains(s, m);
        vstd::seq_lib::to_multiset_contains(idx, m);
    }
}

/// The commit index follows the majority: when the index that the middle
/// report reaches (`majority_index`) names an entry of a well-formed log
/// written in the current term, wherever that entry stands in the log, the
/// commit index becomes that index; when it names no such entry, or no
/// report came, the commit index stays.
pub proof fn lemma_commit_follows_majority(log: RaftLog, term: u64, commit: u64, results: Seq<Result<u64, Error>>)
    requires
        log.wf(),
    ensures
        match majority_index(results) {
            Some(m) => {
                &&& (exists|i: int| 0 <= i < log.entries@.len() && #[trigger] log.entries@[i].index == m && log.entries@[i].term == term)
                    ==> commit_after(log.entries@, term, commit, results) == m
                &&& !(exists|i: int| 0 <= i < log.entries@.len() && #[trigger] log.entries@[i].index == m && log.entries@[i].term == term)
                    ==> commit_after(log.entries@, term, commit, results) == commit
            },
            None => commit_after(log.entries@, term, commit, results) == commit,
        },
{
    if let Some(m) = majority_index(results) {
        if exists|i: int| 0 <= i < log.entries@.len() && #[trigger] log.entries@[i].index == m && log.entries@[i].term == term {
            let i = choose|i: int| 0 <= i < log.entries@.len() && #[trigger] log.entries@[i].index == m && log.entries@[i].term == term;
            assert(log.entries@[i].index == i + 1);
        } else {
            if 1 <= m <= log.entries@.len() && log.entries@[m - 1].term == term {
                assert(log.entries@[m - 1].index == m);
            }
        }
    }
}

} // verus!
