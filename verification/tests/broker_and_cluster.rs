use rafka::rafka_core::{Config, Environment, Error, FromEnv, Message};
use rafka::rafka_core::message::MessageHeaders;
use rafka::broker::storage::{partition_key, Storage};
use rafka::broker::partition::PartitionManager;
use rafka::broker::memory_store::{estimate_message_size, InMemoryStore, StoreResponse, CapacityManager};
use rafka::broker::stateless::{classify_connection, ConnectionKind, StatelessBroker};
use rafka::broker::server::{ack_bytes, loopback_address_of, Broker, ConnectionAction, ReadOutcome};
use rafka::broker::load_balancer::{least_loaded_node, LoadBalancer, LoadBalancingStrategy, NodeLoadInfo, NodeStats};
use rafka::network::consensus::{ConsensusCommand, RaftConsensus, RaftState};
use rafka::network::leader::{election_timeout_ms, ElectionState, LeaderElection, VoteRequest, VoteResponse};
use rafka::network::heartbeat::{status_for, HeartbeatManager, HeartbeatWindow, NodeStatus};
use rafka::network::delivery::{DeliveryConfig, DeliveryGuaranteeManager, MessageStatus, TimeoutAction};
use rafka::network::cluster::{ClusterStateChange, ClusterStateManager, NodeMetadata, ResourceCapacity, ResourceUsage};
use std::hash::{Hash, Hasher};
use rafka::broker::eviction::select_eviction_candidates;

fn message(topic: &str, hint: Option<u32>, payload: &[u8]) -> Message {
    let mut m = Message::new(topic.to_string(), None, payload.to_vec());
    m.headers = MessageHeaders { partition_hint: hint, replication_factor: None, compression: None };
    m
}

#[test]
fn storage_reads_back_what_was_stored_in_order() {
    let mut s = Storage::new();
    assert_eq!(partition_key(12), "12");
    assert_eq!(s.get_messages(3).unwrap(), vec![]);
    let a = message("t", None, b"a");
    let b = message("t", None, b"b");
    s.store_message(3, a.clone()).unwrap();
    s.store_message(3, b.clone()).unwrap();
    s.store_message(4, a.clone()).unwrap();
    assert_eq!(s.get_messages(3).unwrap(), vec![a.clone(), b]);
    assert_eq!(s.get_messages(4).unwrap(), vec![a]);
}

#[test]
fn partition_of_a_message_is_its_hint() {
    let pm = PartitionManager::new(8);
    assert_eq!(pm.get_partition_for_message(&message("t", Some(5), b"")), Ok(5));
    assert_eq!(pm.get_partition_for_message(&message("t", None, b"")), Ok(0));
    assert_eq!(pm.get_replica_nodes(5), Ok(vec![]));
}

#[test]
fn memory_store_keeps_messages_and_counts_their_size() {
    let mut store = InMemoryStore::new(1 << 30);
    assert!(matches!(store.get_or_route("p0"), Ok(StoreResponse::NeedsRouting)));
    let m = message("t", None, b"abc");
    let size = estimate_message_size(&m);
    assert_eq!(size, (std::mem::size_of::<Message>() + 3) as u64);
    store.store_message("p0", m.clone()).unwrap();
    match store.get_or_route("p0") {
        Ok(StoreResponse::InMemory(v)) => assert_eq!(v, vec![m]),
        _ => panic!("the partition should be held"),
    }
    let mut cap = CapacityManager::new(100);
    assert_eq!(cap.reserve_space(40), Ok(()));
    assert_eq!(cap.used_bytes, 40);
}

#[test]
fn connections_are_told_apart_by_their_first_byte() {
    assert_eq!(classify_connection(1), Ok(ConnectionKind::Producer));
    assert_eq!(classify_connection(2), Ok(ConnectionKind::Consumer));
    assert_eq!(classify_connection(7), Err(Error::InvalidInput("Unknown connection type".to_string())));
}

#[test]
fn stateless_broker_routes_to_the_hinted_partition() {
    let config = Config::from_env(&Environment::new()).unwrap();
    let mut b = StatelessBroker::new(config);
    assert_eq!(b.listen_address(), "0.0.0.0:8080");
    let m = message("t", Some(2), b"x");
    assert_eq!(b.route_message(m.clone()), Ok(2));
    assert_eq!(b.storage.get_messages(2).unwrap(), vec![m]);
}

#[test]
fn plain_broker_acknowledges_text_and_closes_on_the_rest() {
    let b = Broker::new(Config::from_env(&Environment::new()).unwrap());
    assert_eq!(b.listen_address(), "127.0.0.1:8080");
    assert_eq!(loopback_address_of(9), "127.0.0.1:9");
    assert_eq!(ack_bytes(), b"ACK".to_vec());
    assert_eq!(b.on_read(&ReadOutcome::Data(b"hello".to_vec())), ConnectionAction::Acknowledge);
    assert_eq!(b.on_read(&ReadOutcome::Data(vec![0xff, 0xfe])), ConnectionAction::Close);
    assert_eq!(b.on_read(&ReadOutcome::Closed), ConnectionAction::Close);
    assert_eq!(b.on_read(&ReadOutcome::Failed), ConnectionAction::Close);
}

fn ring_position(id: &str) -> u64 {
    let mut h = std::collections::hash_map::DefaultHasher::new();
    id.as_bytes().hash(&mut h);
    h.finish()
}

#[test]
fn load_balancer_strategies() {
    let nodes = vec![
        NodeLoadInfo { node_id: "a".into(), current_load: 5, healthy: true },
        NodeLoadInfo { node_id: "b".into(), current_load: 2, healthy: false },
        NodeLoadInfo { node_id: "c".into(), current_load: 3, healthy: true },
    ];
    assert_eq!(least_loaded_node(&nodes), Ok("c".to_string()));
    assert_eq!(least_loaded_node(&vec![]), Err(Error::NoAvailableNodes));

    let mut lb = LoadBalancer::new(LoadBalancingStrategy::LeastLoaded);
    assert_eq!(lb.select_node(None), Err(Error::NoAvailableNodes));
    lb.update_node("a".into(), NodeStats { current_load: 5, healthy: true });
    lb.update_node("b".into(), NodeStats { current_load: 2, healthy: false });
    lb.update_node("c".into(), NodeStats { current_load: 3, healthy: true });
    assert_eq!(lb.select_node(None), Ok("c".to_string()));

    let key: &[u8] = b"order-17";
    let mut kh = std::collections::hash_map::DefaultHasher::new();
    key.hash(&mut kh);
    let point = kh.finish();
    let expected = ["a", "b", "c"].iter().min_by_key(|id| ring_position(id).wrapping_sub(point)).unwrap().to_string();
    lb.strategy = LoadBalancingStrategy::ConsistentHashing;
    assert_eq!(lb.select_node(Some(key)), Ok(expected));

    lb.strategy = LoadBalancingStrategy::RoundRobin;
    let mut seen: Vec<String> = (0..3).map(|_| lb.select_node(None).unwrap()).collect();
    seen.sort();
    assert_eq!(seen, vec!["a".to_string(), "b".to_string(), "c".to_string()]);
}

#[test]
fn only_a_leader_proposes_and_commits_need_a_majority_in_its_term() {
    let mut c = RaftConsensus::new("n1".to_string());
    let refused = c.propose(ConsensusCommand::TopicCreation { topic: "t".into(), partitions: 1 });
    assert_eq!(refused, Err(Error::NotLeader("Not the leader".to_string())));
    c.state = RaftState::Leader { next_index: dashmap::DashMap::new(), match_index: dashmap::DashMap::new() };
    assert_eq!(c.propose(ConsensusCommand::TopicCreation { topic: "t".into(), partitions: 1 }), Ok(vec![]));
    assert_eq!(c.log.entries.len(), 1);
    c.update_commit_index(vec![Ok(0), Ok(0), Err(Error::Internal("down".into()))]).unwrap();
    assert_eq!(c.commit_index, 0);
    c.update_commit_index(vec![Ok(5), Ok(7)]).unwrap();
    assert_eq!(c.commit_index, 0);
    assert_eq!(c.apply_committed_entries(), Ok(()));
}

#[test]
fn one_vote_per_term() {
    let mut e = LeaderElection::new("n1".to_string());
    let t = election_timeout_ms();
    assert!((150..300).contains(&t));
    let ask = |c: &str, term: u64| VoteRequest { candidate_id: c.into(), term, last_log_index: 0, last_log_term: 0 };
    assert!(e.handle_vote_request(ask("a", 1)).unwrap().granted);
    assert!(e.handle_vote_request(ask("a", 1)).unwrap().granted);
    assert!(!e.handle_vote_request(ask("b", 1)).unwrap().granted);
    let old = e.handle_vote_request(ask("b", 0)).unwrap();
    assert!(!old.granted);
    assert_eq!(old.term, 1);
    assert!(e.handle_vote_request(ask("b", 2)).unwrap().granted);
}

#[test]
fn elections_need_more_than_half_the_votes() {
    let mut e = LeaderElection::new("n1".to_string());
    let req = e.start_election().unwrap();
    assert_eq!(req.term, 1);
    assert_eq!(e.state, ElectionState::Candidate);
    let yes = |v: &str| VoteResponse { voter_id: v.into(), term: 1, granted: true };
    assert!(!e.has_majority(&vec![yes("n1"), yes("n2")], 4));
    assert!(e.has_majority(&vec![yes("n1"), yes("n2"), yes("n3")], 4));
    let change = e.become_leader().unwrap();
    assert_eq!(change.leader_id, Some("n1".to_string()));
    assert_eq!(e.state, ElectionState::Leader);
    e.step_down().unwrap();
    assert_eq!(e.state, ElectionState::Follower);
}

#[test]
fn heartbeat_status_by_silence() {
    assert_eq!(status_for(0), NodeStatus::Alive);
    assert_eq!(status_for(5_000_000_000), NodeStatus::Alive);
    assert_eq!(status_for(5_000_000_001), NodeStatus::Suspected);
    assert_eq!(status_for(10_000_000_001), NodeStatus::Failed);
    let mut m = HeartbeatManager::new("me".to_string());
    m.record_heartbeat("n2".to_string(), 1_000);
    assert_eq!(m.alive_nodes(), vec!["n2".to_string()]);
    let change = m.evaluate_node(&"n2".to_string(), 1_000 + 11_000_000_000).unwrap().unwrap();
    assert_eq!(change.new_status, NodeStatus::Failed);
    m.apply_change(&change);
    assert!(m.alive_nodes().is_empty());
    assert_eq!(m.watched_nodes(), vec!["n2".to_string()]);
    let mut w = HeartbeatWindow::new();
    for i in 0..1005u128 {
        w.record_heartbeat(i);
    }
    assert_eq!(w.heartbeat_intervals.len(), 1000);
    assert_eq!(w.heartbeat_intervals[0], 5);
}

#[test]
fn delivery_commits_at_min_isr_and_retries_are_bounded() {
    let config = DeliveryConfig { ack_timeout: 1, retry_count: 2, min_isr: 2, sync_interval: 1 };
    let mut d = DeliveryGuaranteeManager::new("n".to_string(), config);
    let m = message("t", Some(1), b"x");
    d.track_message(&m);
    assert_eq!(d.handle_ack(&m.id, &"r1".to_string()), Ok(None));
    let done = d.handle_ack(&m.id, &"r2".to_string()).unwrap().unwrap();
    assert_eq!(done.status, MessageStatus::Committed);
    assert_eq!(d.on_timeout_tick(&m.id), TimeoutAction::Stop);

    let n = message("t", None, b"y");
    d.track_message(&n);
    assert_eq!(d.on_timeout_tick(&n.id), TimeoutAction::Retry);
    assert_eq!(d.on_timeout_tick(&n.id), TimeoutAction::Retry);
    assert_eq!(d.on_timeout_tick(&n.id), TimeoutAction::Stop);
    {
        let t = d.message_trackers.get(&n.id).unwrap();
        assert_eq!(t.retries, 2);
        assert_eq!(t.status, MessageStatus::Failed("Max retries exceeded".to_string()));
    }
    assert_eq!(d.on_timeout_tick(&"unknown".to_string()), TimeoutAction::Stop);
}

fn metadata() -> NodeMetadata {
    NodeMetadata {
        capacity: ResourceCapacity { max_partitions: 10, max_bytes: 100 },
        load: ResourceUsage { partitions: 0, bytes: 0 },
        version: "1".to_string(),
    }
}

#[test]
fn cluster_nodes_join_and_leave() {
    let mut m = ClusterStateManager::new("me".to_string());
    assert_eq!(m.handle_node_join("n2".to_string(), metadata()), Ok(ClusterStateChange::NodeJoined("n2".to_string())));
    assert!(m.cluster_nodes.contains_key("n2"));
    let left = m.handle_node_leave(&"n2".to_string()).unwrap().unwrap();
    assert_eq!(left.0, ClusterStateChange::NodeLeft("n2".to_string()));
    assert!(left.1.is_empty());
    assert!(m.handle_node_leave(&"n2".to_string()).unwrap().is_none());
    assert_eq!(m.check_rebalancing_needed(), Ok(()));
}

#[test]
fn eviction_takes_candidates_until_enough_is_freed() {
    let ordered = vec![("p1".to_string(), 30u64), ("p2".to_string(), 50), ("p3".to_string(), 40)];
    assert_eq!(select_eviction_candidates(&ordered, 60), vec!["p1".to_string(), "p2".to_string()]);
    assert_eq!(select_eviction_candidates(&ordered, 0), Vec::<String>::new());
    assert_eq!(select_eviction_candidates(&ordered, 500), vec!["p1".to_string(), "p2".to_string(), "p3".to_string()]);
    assert!(select_eviction_candidates(&vec![], 10).is_empty());
}

#[test]
fn memory_pressure_evicts_other_partitions_to_stay_within_the_budget() {
    let m = message("t", None, b"abcd");
    let size = estimate_message_size(&m);
    let mut store = InMemoryStore::new(2 * size);
    store.store_message("p1", m.clone()).unwrap();
    store.store_message("p2", m.clone()).unwrap();
    assert_eq!(store.memory_used(), 2 * size);
    store.store_message("p3", m.clone()).unwrap();
    assert_eq!(store.memory_used(), 2 * size);
    assert!(store.memory_used() <= store.get_capacity_limit());
    assert!(matches!(store.get_or_route("p3"), Ok(StoreResponse::InMemory(v)) if v == vec![m.clone()]));
    let held = ["p1", "p2"].iter().filter(|p| matches!(store.get_or_route(p), Ok(StoreResponse::InMemory(_)))).count();
    assert_eq!(held, 1);
}

#[test]
fn a_message_that_cannot_fit_is_refused() {
    let m = message("t", None, b"abcd");
    let size = estimate_message_size(&m);
    let mut store = InMemoryStore::new(size - 1);
    assert_eq!(store.store_message("p", m), Err(Error::Storage("Insufficient memory".to_string())));
    assert_eq!(store.memory_used(), 0);
    assert!(matches!(store.get_or_route("p"), Ok(StoreResponse::InMemory(v)) if v.is_empty()));
    let mut cap = CapacityManager::new(100);
    assert_eq!(cap.reserve_space(60), Ok(()));
    assert_eq!(cap.reserve_space(50), Err(Error::Storage("Insufficient memory".to_string())));
    assert_eq!(cap.used_bytes, 60);
}

#[test]
fn the_entry_with_the_majority_index_decides_the_commit() {
    let mut c = RaftConsensus::new("n1".to_string());
    c.state = RaftState::Leader { next_index: dashmap::DashMap::new(), match_index: dashmap::DashMap::new() };
    c.propose(ConsensusCommand::TopicCreation { topic: "t".into(), partitions: 1 }).unwrap();
    assert_eq!(c.log.entries[0].index, 1);
    c.update_commit_index(vec![Ok(1), Ok(0), Ok(1)]).unwrap();
    assert_eq!(c.commit_index, 1);
    assert_eq!(c.apply_committed_entries(), Ok(()));
    assert_eq!(c.last_applied, 1);
    c.update_commit_index(vec![Ok(2), Ok(2)]).unwrap();
    assert_eq!(c.commit_index, 1);
}

#[test]
fn a_health_check_sweeps_every_node_and_reports_the_changes() {
    let mut m = HeartbeatManager::new("me".to_string());
    m.record_heartbeat("a".to_string(), 1_000);
    m.record_heartbeat("b".to_string(), 7_000_000_000);
    let (changes, outcome) = m.check_node_health(1_000 + 11_000_000_000);
    assert_eq!(outcome, Ok(()));
    assert_eq!(changes.len(), 1);
    assert_eq!(changes[0].node_id, "a");
    assert_eq!(changes[0].old_status, NodeStatus::Alive);
    assert_eq!(changes[0].new_status, NodeStatus::Failed);
    assert_eq!(changes[0].timestamp, 1_000 + 11_000_000_000);
    assert_eq!(m.alive_nodes(), vec!["b".to_string()]);
    let (again, outcome) = m.check_node_health(1_000 + 11_000_000_000);
    assert_eq!(outcome, Ok(()));
    assert!(again.is_empty());
    let (_, outcome) = m.check_node_health(500);
    assert_eq!(outcome, Err(Error::Internal("Time went backwards".to_string())));
}

#[test]
fn votes_that_make_a_majority_take_the_lead() {
    let mut e = LeaderElection::new("n1".to_string());
    e.start_election().unwrap();
    let yes = |v: &str| VoteResponse { voter_id: v.into(), term: 1, granted: true };
    assert_eq!(e.on_votes(&vec![yes("n1")], 3), Ok(None));
    assert_eq!(e.state, ElectionState::Candidate);
    let change = e.on_votes(&vec![yes("n1"), yes("n2")], 3).unwrap().unwrap();
    assert_eq!(change.term, 1);
    assert_eq!(change.leader_id, Some("n1".to_string()));
    assert_eq!(e.state, ElectionState::Leader);
}

#[test]
fn a_stored_partition_is_the_most_recently_used() {
    let m = message("t", None, b"abcd");
    let size = estimate_message_size(&m);
    let mut store = InMemoryStore::new(3 * size);
    store.store_message_at("p1", m.clone(), 10).unwrap();
    store.store_message_at("p2", m.clone(), 20).unwrap();
    store.store_message_at("p1", m.clone(), 30).unwrap();
    store.store_message_at("p3", m.clone(), 40).unwrap();
    assert!(matches!(store.get_or_route("p2"), Ok(StoreResponse::NeedsRouting)));
    assert!(matches!(store.get_or_route("p1"), Ok(StoreResponse::InMemory(v)) if v.len() == 2));
    assert!(matches!(store.get_or_route("p3"), Ok(StoreResponse::InMemory(_))));
    assert_eq!(store.memory_used(), 3 * size);
}
