use rafka::rafka_core::ThreadPool;
use rafka::rafka_core::Message;
use rafka::broker::memory_store::{InMemoryStore, StoreResponse};
use rafka::network::consensus::{AppendTarget, RaftConsensus, RaftPeer, RaftState};
use rafka::network::cluster::{ClusterStateManager, LeaderChange, PartitionAssignment, PartitionStatus};
use rafka::rpc::clients;
use rafka::rpc::proto::{AcknowledgeRequest, ConsumeResponse, RegisterRequest, ClientType};
use rafka::rpc::broker::Broker;

#[test]
fn thread_pool_queues_until_full() {
    let mut pool = ThreadPool::new(4);
    assert!(pool.has_room());
    pool.spawn(async {});
    assert!(pool.has_room());
}

#[test]
fn leader_sends_each_peer_from_its_next_index() {
    let mut c = RaftConsensus::new("n1".to_string());
    c.peers.insert("n2".to_string(), RaftPeer { address: "a:1".to_string() });
    c.peers.insert("n3".to_string(), RaftPeer { address: "a:2".to_string() });
    let next = dashmap::DashMap::new();
    next.insert("n2".to_string(), 7u64);
    c.state = RaftState::Leader { next_index: next, match_index: dashmap::DashMap::new() };
    let mut targets = c.replication_targets().unwrap();
    targets.sort_by(|a, b| a.peer_id.cmp(&b.peer_id));
    assert_eq!(targets, vec![
        AppendTarget { peer_id: "n2".to_string(), next_index: 7 },
        AppendTarget { peer_id: "n3".to_string(), next_index: 0 },
    ]);
}

#[test]
fn lost_leaders_are_replaced_by_their_first_replica() {
    let mut m = ClusterStateManager::new("me".to_string());
    m.partition_assignments.insert(1, PartitionAssignment {
        partition_id: 1,
        leader: "x".to_string(),
        replicas: vec!["r1".to_string(), "r2".to_string()],
        isr: vec![],
        status: PartitionStatus::Online,
    });
    m.partition_assignments.insert(2, PartitionAssignment {
        partition_id: 2,
        leader: "x".to_string(),
        replicas: vec![],
        isr: vec![],
        status: PartitionStatus::Online,
    });
    let changes = m.handle_partition_reassignment(&vec![1, 2, 3]).unwrap();
    assert_eq!(changes, vec![LeaderChange { partition_id: 1, new_leader: "r1".to_string() }]);
    let a = m.partition_assignments.get(&1).unwrap();
    assert_eq!(a.leader, "r1");
    assert_eq!(a.status, PartitionStatus::Recovering);
    assert_eq!(m.partition_assignments.get(&2).unwrap().leader, "x");
}

#[test]
fn followers_are_added_to_a_held_partition() {
    let mut store = InMemoryStore::new(1 << 30);
    let m = Message::new("t".to_string(), Some(b"k".to_vec()), b"v".to_vec());
    store.store_message("p", m.clone()).unwrap();
    assert_eq!(store.forward_to_follower("p", "f1".to_string()), Ok(()));
    assert_eq!(store.forward_to_follower("absent", "f1".to_string()), Ok(()));
    assert!(matches!(store.get_or_route("p"), Ok(StoreResponse::InMemory(v)) if v == vec![m]));
}

#[test]
fn rpc_consumer_acknowledges_and_records_its_offset() {
    let (c, _) = clients::Consumer::new();
    let req = c.consume("t".to_string());
    assert_eq!(req.id, c.consumer_id);
    let msg = ConsumeResponse { message_id: "m1".into(), topic: "t".into(), payload: "hello".into(), sent_at: 0, offset: 4 };
    let step = c.on_message(&"t".to_string(), msg);
    assert_eq!(step.payload, "hello");
    assert_eq!(step.ack, AcknowledgeRequest { consumer_id: c.consumer_id.clone(), topic: "t".into(), message_id: "m1".into() });
    assert_eq!(step.offset_update.offset, 4);
    let b = Broker::new(0, 1);
    assert_eq!(b.acknowledge(step.ack).unwrap().message, "Message acknowledged");
    let reg = b.register(RegisterRequest { client_id: "x".into(), client_type: ClientType::Consumer }).unwrap();
    assert_eq!(reg.message, "Registered successfully");
    assert_eq!(b.get_partition_id(), 0);
    assert_eq!(b.get_total_partitions(), 1);
    assert_eq!(b.get_broadcast_capacity(), 16384);
}

#[test]
fn a_pool_takes_tasks_up_to_its_capacity() {
    let mut pool = ThreadPool::new(1);
    for _ in 0..10_000 {
        assert!(pool.has_room());
        pool.spawn(async {});
    }
    assert!(!pool.has_room());
}
