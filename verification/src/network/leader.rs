//! Electing a leader: terms, votes, and the change of role that follows.
use vstd::prelude::*;
use crate::rafka_core::Error;
use crate::platform::random_u64;

verus! {

#[derive(Clone, Copy, Debug, PartialEq, Eq, Structural)]
pub enum ElectionState {
    Follower,
    Candidate,
    Leader,
}

#[derive(Clone, Debug, PartialEq, Eq)]
pub struct VoteRequest {
    pub candidate_id: String,
    pub term: u64,
    pub last_log_index: u64,
    pub last_log_term: u64,
}

#[derive(Clone, Debug, PartialEq, Eq)]
pub struct VoteResponse {
    pub voter_id: String,
    pub term: u64,
    pub granted: bool,
}

/// The vote this node has cast, and what its own log ends with.
pub struct VoteManager {
    pub voted: Option<(u64, String)>,
    pub last_log_index: u64,
    pub last_log_term: u64,
}

/// Whether a node may vote for the candidate: it has not voted for another
/// candidate in that term, and the candidate's log is at least as recent as
/// its own. This is this library's own rule, the usual one of Raft: the
/// vote manager that would decide it is not part of the node's code.
pub open spec fn may_vote(voted: Option<(u64, Seq<char>)>, last_index: u64, last_term: u64, req: VoteRequest) -> bool {
    &&& match voted {
        Some((t, c)) => t != req.term || c == req.candidate_id@,
        None => true,
    }
    &&& (req.last_log_term > last_term || (req.last_log_term == last_term && req.last_log_index >= last_index))
}

impl VoteManager {
    pub open spec fn voted_view(&self) -> Option<(u64, Seq<char>)> {
        match self.voted {
            Some((t, c)) => Some((t, c@)),
            None => None,
        }
    }

    pub fn new() -> (m: VoteManager)
        ensures
            m.voted is None,
            m.last_log_index == 0,
            m.last_log_term == 0,
    {
        VoteManager { voted: None, last_log_index: 0, last_log_term: 0 }
    }

    pub fn can_vote_for(&self, req: &VoteRequest) -> (b: bool)
        ensures
            b == may_vote(self.voted_view(), self.last_log_index, self.last_log_term, *req),
    {
        let free = match &self.voted {
            Some((t, c)) => *t != req.term || *c == req.candidate_id,
            None => true,
        };
        free && (req.last_log_term > self.last_log_term
            || (req.last_log_term == self.last_log_term && req.last_log_index >= self.last_log_index))
    }

    pub fn record_vote(&mut self, term: u64, candidate_id: String) -> (r: Result<(), Error>)
        ensures
            r is Ok,
            final(self).voted_view() == Some((term, candidate_id@)),
            final(self).last_log_index == old(self).last_log_index,
            final(self).last_log_term == old(self).last_log_term,
    {
        self.voted = Some((term, candidate_id));
        Ok(())
    }

    pub fn get_last_log_index(&self) -> (i: u64)
        ensures
            i == self.last_log_index,
    {
        self.last_log_index
    }

    pub fn get_last_log_term(&self) -> (t: u64)
        ensures
            t == self.last_log_term,
    {
        self.last_log_term
    }
}

/// A change of leader to announce to the cluster.
#[derive(Clone, Debug, PartialEq, Eq)]
pub struct LeaderStateChange {
    pub term: u64,
    pub leader_id: Option<String>,
}

pub struct LeaderElection {
    pub node_id: String,
    pub term: u64,
    pub leader_id: Option<String>,
    pub vote_manager: VoteManager,
    pub state: ElectionState,
}

/// A wait before a follower stands for election: 150 to 299 milliseconds.
pub fn election_timeout_ms() -> (t: u64)
    ensures
        150 <= t < 300,
{
    random_u64() % 150 + 150
}

impl LeaderElection {
    pub fn new(node_id: String) -> (e: LeaderElection)
        ensures
            e.node_id == node_id,
            e.term == 0,
            e.leader_id is None,
            e.state == ElectionState::Follower,
            e.vote_manager.voted is None,
    {
        LeaderElection {
            node_id,
            term: 0,
            leader_id: None,
            vote_manager: VoteManager::new(),
            state: ElectionState::Follower,
        }
    }

    /// Answers a request for a vote. An older term is refused. A newer term
    /// is taken on, and a leader steps down. Then the vote is granted, and
    /// recorded, when the node may vote for the candidate.
    pub fn handle_vote_request(&mut self, request: VoteRequest) -> (r: Result<VoteResponse, Error>)
        ensures
            r matches Ok(resp) && {
                &&& resp.voter_id == old(self).node_id
                &&& request.term < old(self).term ==> {
                    &&& !resp.granted
                    &&& resp.term == old(self).term
                    &&& final(self).term == old(self).term
                    &&& final(self).state == old(self).state
                    &&& final(self).leader_id == old(self).leader_id
                    &&& final(self).vote_manager.voted_view() == old(self).vote_manager.voted_view()
                }
                &&& request.term >= old(self).term ==> {
                    &&& final(self).term == request.term
                    &&& resp.term == request.term
                    &&& final(self).state == (if request.term > old(self).term && old(self).state == ElectionState::Leader {
                            ElectionState::Follower
                        } else {
                            old(self).state
                        })
                    &&& (request.term > old(self).term && old(self).state == ElectionState::Leader ==> final(self).leader_id is None)
                    &&& (!(request.term > old(self).term && old(self).state == ElectionState::Leader) ==> final(self).leader_id == old(self).leader_id)
                    &&& resp.granted == may_vote(old(self).vote_manager.voted_view(), old(self).vote_manager.last_log_index,
                            old(self).vote_manager.last_log_term, request)
                    &&& final(self).vote_manager.voted_view() == (if resp.granted {
                            Some((request.term, request.candidate_id@))
                        } else {
                            old(self).vote_manager.voted_view()
                        })
                }
            },
            final(self).node_id == old(self).node_id,
            final(self).vote_manager.last_log_index == old(self).vote_manager.last_log_index,
            final(self).vote_manager.last_log_term == old(self).vote_manager.last_log_term,
    {
        if request.term < self.term {
            return Ok(VoteResponse { voter_id: self.node_id.clone(), term: self.term, granted: false });
        }
        if request.term > self.term {
            self.term = request.term;
            if self.state == ElectionState::Leader {
                self.step_down()?;
            }
        }
        if self.vote_manager.can_vote_for(&request) {
            self.vote_manager.record_vote(request.term, request.candidate_id.clone())?;
            Ok(VoteResponse { voter_id: self.node_id.clone(), term: self.term, granted: true })
        } else {
            Ok(VoteResponse { voter_id: self.node_id.clone(), term: self.term, granted: false })
        }
    }

    /// Stands for election: the node becomes a candidate in the next term
    /// and asks for votes with the end of its log.
    pub fn start_election(&mut self) -> (r: Result<VoteRequest, Error>)
        requires
            old(self).term < u64::MAX,
        ensures
            final(self).state == ElectionState::Candidate,
            final(self).term == old(self).term + 1,
            final(self).node_id == old(self).node_id,
            final(self).leader_id == old(self).leader_id,
            r matches Ok(req) && req.candidate_id == old(self).node_id && req.term == final(self).term
                && req.last_log_index == old(self).vote_manager.last_log_index
                && req.last_log_term == old(self).vote_manager.last_log_term,
    {
        self.state = ElectionState::Candidate;
        self.term = self.term + 1;
        Ok(VoteRequest {
            candidate_id: self.node_id.clone(),
            term: self.term,
            last_log_index: self.vote_manager.get_last_log_index(),
            last_log_term: self.vote_manager.get_last_log_term(),
        })
    }

    /// Whether the votes granted in the current term are more than half of
    /// a cluster of `cluster_size` nodes.
    pub fn has_majority(&self, votes: &Vec<VoteResponse>, cluster_size: usize) -> (b: bool)
        ensures
            b == (granted_in_term(votes@, self.term) * 2 > cluster_size),
    {
        let mut granted: usize = 0;
        let mut i: usize = 0;
        while i < votes.len()
            invariant
                i <= votes@.len(),
                granted == granted_in_term(votes@.take(i as int), self.term),
                granted <= i,
            decreases votes@.len() - i,
        {
            assert(votes@.take(i + 1).drop_last() =~= votes@.take(i as int));
            if votes[i].granted && votes[i].term == self.term {
                granted = granted + 1;
            }
            i = i + 1;
        }
        assert(votes@.take(votes@.len() as int) =~= votes@);
        (granted as u128) * 2 > cluster_size as u128
    }

    /// Takes the lead: the node becomes leader, names itself, and the
    /// change to announce comes back.
    pub fn become_leader(&mut self) -> (r: Result<LeaderStateChange, Error>)
        ensures
            final(self).state == ElectionState::Leader,
            final(self).leader_id == Some(old(self).node_id),
            final(self).term == old(self).term,
            final(self).node_id == old(self).node_id,
            r matches Ok(change) && change.term == old(self).term && change.leader_id == Some(old(self).node_id),
    {
        self.state = ElectionState::Leader;
        self.leader_id = Some(self.node_id.clone());
        Ok(LeaderStateChange { term: self.term, leader_id: Some(self.node_id.clone()) })
    }

    /// Gives up the lead: the node becomes a follower with no known leader.
    pub fn step_down(&mut self) -> (r: Result<(), Error>)
        ensures
            r is Ok,
            final(self).state == ElectionState::Follower,
            final(self).leader_id is None,
            final(self).term == old(self).term,
            final(self).node_id == old(self).node_id,
            final(self).vote_manager == old(self).vote_manager,
    {
        self.state = ElectionState::Follower;
        self.leader_id = None;
        Ok(())
    }

    /// Takes the votes that an election gathered: with a majority of the
    /// cluster granted in the current term the node becomes leader and the
    /// change to announce comes back; otherwise nothing changes.
    pub fn on_votes(&mut self, votes: &Vec<VoteResponse>, cluster_size: usize) -> (r: Result<Option<LeaderStateChange>, Error>)
        ensures
            final(self).term == old(self).term,
            final(self).node_id == old(self).node_id,
            granted_in_term(votes@, old(self).term) * 2 > cluster_size ==> {
                &&& final(self).state == ElectionState::Leader
                &&& final(self).leader_id == Some(old(self).node_id)
                &&& (r matches Ok(Some(change)) && change.term == old(self).term && change.leader_id == Some(old(self).node_id))
            },
            !(granted_in_term(votes@, old(self).term) * 2 > cluster_size) ==> {
                &&& final(self).state == old(self).state
                &&& final(self).leader_id == old(self).leader_id
                &&& r matches Ok(None)
            },
    {
        if self.has_majority(votes, cluster_size) {
            let change = self.become_leader()?;
            Ok(Some(change))
        } else {
            Ok(None)
        }
    }

    /// When the election timeout passes, a follower stands for election;
    /// other roles wait.
    pub fn on_election_timeout(&mut self) -> (r: Result<Option<VoteRequest>, Error>)
        requires
            old(self).term < u64::MAX,
        ensures
            old(self).state == ElectionState::Follower ==> (final(self).state == ElectionState::Candidate
                && final(self).term == old(self).term + 1 && (r matches Ok(Some(req)) && req.term == final(self).term)),
            old(self).state != ElectionState::Follower ==> (final(self).state == old(self).state
                && final(self).term == old(self).term && r matches Ok(None)),
    {
        if self.state == ElectionState::Follower {
            let req = self.start_election()?;
            Ok(Some(req))
        } else {
            Ok(None)
        }
    }
}

/// The number of votes granted in `term`.
pub open spec fn granted_in_term(votes: Seq<VoteResponse>, term: u64) -> nat
    decreases votes.len(),
{
    if votes.len() == 0 {
        0
    } else {
        granted_in_term(votes.drop_last(), term) + if votes.last().granted && votes.last().term == term { 1nat } else { 0nat }
    }
}

/// A node grants at most one candidate per term: once it has voted for one
/// candidate in a term, a request from another candidate in that term is
/// refused.
pub proof fn lemma_one_vote_per_term(voted_term: u64, voted_for: Seq<char>, last_index: u64, last_term: u64, req: VoteRequest)
    requires
        req.term == voted_term,
        req.candidate_id@ != voted_for,
    ensures
        !may_vote(Some((voted_term, voted_for)), last_index, last_term, req),
{
}

} // verus!
