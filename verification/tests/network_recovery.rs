use rafka::rafka_core::{Environment, Error, Message};
use rafka::network::recovery::{FailureRecoveryManager, PartitionState, RecoveryAction, RecoveryState, RecoveryStatus};
use rafka::network::replication::{replication_outcome, completion_outcome, ReplicationManager};
use rafka::network::dht::DHT;
use rafka::network::p2p::{NodeInfo, P2PNetwork, RouteDecision};
use rafka::network::routing::{calculate_distance, calculate_shared_prefix, RoutingTable};
use rafka::network::transfer::{PartitionLog, PartitionTransferManager, TransferStatus};
use rafka::network::kubernetes::{KubernetesManager, PodSummary};
use rafka::network::rebalance::{NodeLoad, PartitionMove, RebalanceAction, RebalanceManager};

fn s(x: &str) -> String {
    x.to_string()
}

fn part(id: u32, leader: &str, replicas: &[&str]) -> PartitionState {
    PartitionState { partition_id: id, leader: s(leader), replicas: replicas.iter().map(|r| s(r)).collect() }
}

fn node(id: &str) -> NodeInfo {
    NodeInfo { id: s(id), addr: format!("{}:1", id), is_alive: true }
}

fn state(failed: &str, affected: Vec<u32>) -> RecoveryState {
    RecoveryState { failed_node: s(failed), affected_partitions: affected, recovery_start: 0, status: RecoveryStatus::Planning }
}

#[test]
fn recovery_plans_a_new_leader_and_new_replicas() {
    let parts = vec![part(0, "a", &["a", "b"]), part(1, "c", &["c", "d"]), part(2, "b", &["b", "a"])];
    let m = FailureRecoveryManager::new(s("me"), parts, vec![s("b"), s("c"), s("d"), s("e")], 2);
    assert_eq!(m.identify_affected_partitions(&s("a")), vec![0, 2]);
    let plan = m.plan_recovery(&state("a", vec![0, 2])).unwrap();
    assert_eq!(plan.len(), 3);
    assert!(matches!(&plan[0], RecoveryAction::ReassignPartition { partition: 0, new_leader } if new_leader == "b"));
    assert!(matches!(&plan[1], RecoveryAction::RestoreReplicas { partition: 0, replicas } if *replicas == vec![s("c")]));
    assert!(matches!(&plan[2], RecoveryAction::RestoreReplicas { partition: 2, replicas } if *replicas == vec![s("c")]));
}

#[test]
fn recovery_succeeds_when_every_affected_partition_is_whole_again() {
    let parts = vec![part(0, "a", &["a", "b"]), part(1, "c", &["c", "d"])];
    let mut m = FailureRecoveryManager::new(s("me"), parts, vec![s("b"), s("c"), s("d")], 2);
    assert_eq!(m.handle_node_failure(s("a")), Ok(()));
    assert_eq!(m.partitions[0].leader, "b");
    assert_eq!(m.partitions[0].replicas, vec![s("b"), s("c")]);
    assert_eq!(m.partitions[1].leader, "c");
    assert_eq!(m.state_store.len(), 1);
    assert_eq!(m.state_store[0].status, RecoveryStatus::Completed);
}

#[test]
fn recovery_without_a_candidate_is_refused() {
    let parts = vec![part(0, "a", &["a"])];
    let mut m = FailureRecoveryManager::new(s("me"), parts, vec![], 1);
    assert_eq!(m.handle_node_failure(s("a")), Err(Error::NoAvailableNodes));
    assert_eq!(m.partitions[0].leader, "a");
    assert!(m.state_store.is_empty());
}

#[test]
fn recovery_that_does_not_verify_fails() {
    let parts = vec![part(0, "x", &["a", "b"])];
    let mut m = FailureRecoveryManager::new(s("me"), parts, vec![s("b")], 1);
    assert_eq!(m.handle_node_failure(s("a")), Err(Error::Recovery(s("Recovery verification failed"))));
    assert_eq!(m.state_store[0].status, RecoveryStatus::Failed(s("Verification failed")));
    assert!(m.verify_recovery(&state("a", vec![1])));
}

#[test]
fn replication_needs_a_majority_of_the_factor() {
    let mut r = ReplicationManager::new(s("me"), 3);
    let msg = Message::new(s("t"), None, vec![1]);
    assert_eq!(r.replicate_message(7, &msg), Err(Error::Replication(s("No ISR set found"))));
    r.set_isr(7, vec![node("a"), node("b")]);
    assert_eq!(r.replicate_message(7, &msg), Ok(vec![node("a"), node("b")]));
    assert!(!r.handle_replica_ack(&msg.id, &s("a")));
    assert!(r.handle_replica_ack(&msg.id, &s("b")));
    assert!(!r.handle_replica_ack(&s("unknown"), &s("a")));
    assert_eq!(replication_outcome(true), Ok(()));
    assert_eq!(replication_outcome(false), Err(Error::Replication(s("Replication timeout"))));
    assert_eq!(completion_outcome(false), Err(Error::Replication(s("Failed to signal completion"))));
}

#[test]
fn routing_by_xor_distance_and_prefix() {
    assert_eq!(calculate_distance("0f", "f0"), 0xff);
    assert_eq!(calculate_distance("zz", "10"), 0x10);
    assert_eq!(calculate_shared_prefix("ab12xyz"), 4);
    let rt = RoutingTable::new("me", 4);
    assert_eq!(rt.rows.len(), 4);
    assert!(rt.route("00").is_none());
    rt.leaf_set.insert(s("10"), node("10"));
    rt.leaf_set.insert(s("f0"), node("f0"));
    assert_eq!(rt.route("11").unwrap().id, "10");
    assert_eq!(rt.next_closest("11", &vec![s("10")]).unwrap().id, "f0");
    assert!(rt.next_closest("11", &vec![s("10"), s("f0")]).is_none());
}

#[test]
fn dht_reads_back_a_value_stored_here() {
    let mut d = DHT::new(s("me"), 3);
    d.routing_table.leaf_set.insert(s("me"), node("me"));
    d.routing_table.leaf_set.insert(s("a1"), node("a1"));
    let targets = d.find_target_nodes("key", 3);
    assert_eq!(targets.len(), 2);
    let plan = d.put(s("key"), b"v".to_vec());
    assert!(plan.stored_locally);
    assert_eq!(plan.remote, vec![node("a1")]);
    assert_eq!(d.get_local("key"), Some(b"v".to_vec()));
    assert_eq!(d.get_local("other"), None);
    assert_eq!(d.query_targets("key"), vec![node("a1")]);
    assert_eq!(d.put_outcome(1), Ok(()));
    assert_eq!(d.put_outcome(0), Err(Error::Replication(s("Failed to replicate to majority"))));
}

#[test]
fn p2p_forwards_unless_it_owns_the_partition() {
    let n = P2PNetwork::new(7000);
    assert_eq!(n.port, 7000);
    assert_eq!(n.node_id.len(), 36);
    assert!(matches!(n.route_decision(node("other")), RouteDecision::Forward(o) if o.id == "other"));
    let me = NodeInfo { id: n.node_id.clone(), addr: s(""), is_alive: true };
    assert!(matches!(n.route_decision(me), RouteDecision::Local));
}

#[test]
fn transfer_runs_through_its_states() {
    let mut t = PartitionTransferManager::new(s("src"));
    assert_eq!(t.initiate_transfer(1, node("dst")), Err(Error::Transfer(s("Partition log not found"))));
    assert_eq!(t.prepare_transfer(1), Err(Error::Transfer(s("Transfer not found"))));
    t.add_partition_log(1, PartitionLog { start_offset: 0, current_offset: 2500 });
    assert_eq!(t.get_partition_offset(1), Ok(2500));
    assert_eq!(t.initiate_transfer(1, node("dst")), Ok(()));
    assert_eq!(t.active_transfers.get(&1).unwrap().status, TransferStatus::Preparing);
    assert_eq!(t.active_transfers.get(&1).unwrap().source_node.id, "src");
    assert_eq!(t.prepare_transfer(1), Ok(()));
    assert_eq!(t.active_transfers.get(&1).unwrap().status, TransferStatus::Transferring);
    assert_eq!(t.stream_batches(1), Ok(vec![(0, 1000), (1000, 1000), (2000, 500)]));
    t.record_progress(1, 2000);
    assert_eq!(t.active_transfers.get(&1).unwrap().current_offset, 2000);
    assert_eq!(t.verify_transfer(1, 9, 9), Ok(()));
    assert_eq!(t.complete_transfer(1), Ok(()));
    assert_eq!(t.active_transfers.get(&1).unwrap().status, TransferStatus::Completed);
    assert_eq!(t.verify_transfer(1, 1, 2), Err(Error::Transfer(s("Transfer verification failed"))));
    assert_eq!(t.active_transfers.get(&1).unwrap().status, TransferStatus::Failed(s("Hash mismatch")));
    assert_eq!(t.stream_batches(9), Err(Error::Transfer(s("Partition log not found"))));
}

#[test]
fn kubernetes_peers_and_ordinals() {
    let mut env = Environment::new();
    env.set(s("STATEFULSET_NAME"), s("kafka"));
    let k = KubernetesManager::new(&env);
    assert_eq!(k.namespace, "default");
    assert_eq!(k.label_selector(), "app=kafka");
    let pods = vec![
        PodSummary { name: s("kafka-0"), phase: Some(s("Running")) },
        PodSummary { name: s("kafka-1"), phase: Some(s("Pending")) },
        PodSummary { name: s("kafka-2"), phase: None },
        PodSummary { name: s("kafka-3"), phase: Some(s("Running")) },
    ];
    assert_eq!(k.discover_peers(&pods), vec![s("kafka-0.kafka"), s("kafka-3.kafka")]);
    assert_eq!(k.update_readiness(true), Ok(()));
    assert_eq!(k.get_pod_ordinal(Some(s("rafka-12"))), Ok(12));
    assert_eq!(k.get_pod_ordinal(Some(s("7"))), Ok(7));
    assert_eq!(k.get_pod_ordinal(Some(s("rafka-x"))), Err(Error::Kubernetes(s("Invalid pod name format"))));
    assert_eq!(k.get_pod_ordinal(None), Err(Error::Kubernetes(s("Unable to get hostname"))));
}

fn load(id: &str, parts: &[u32]) -> NodeLoad {
    NodeLoad { node_id: s(id), partitions: parts.to_vec() }
}

#[test]
fn rebalance_moves_half_the_difference_from_overloaded_nodes() {
    let m = RebalanceManager::new(s("me"));
    let balanced = vec![load("a", &[1, 2]), load("b", &[3, 4])];
    assert!(!m.calculate_imbalance(&balanced));
    assert!(matches!(m.check_balance(&balanced), RebalanceAction::NoAction));
    let skewed = vec![load("a", &[1, 2, 3, 4, 5, 6]), load("b", &[7, 8]), load("c", &[])];
    assert!(m.calculate_imbalance(&skewed));
    match m.check_balance(&skewed) {
        RebalanceAction::MovePartitions(moves) => assert_eq!(moves, vec![
            PartitionMove { partition_id: 1, source: s("a"), target: s("b") },
            PartitionMove { partition_id: 2, source: s("a"), target: s("b") },
            PartitionMove { partition_id: 3, source: s("a"), target: s("c") },
            PartitionMove { partition_id: 4, source: s("a"), target: s("c") },
            PartitionMove { partition_id: 5, source: s("a"), target: s("c") },
        ]),
        RebalanceAction::NoAction => panic!("the cluster is out of balance"),
    }
    assert!(matches!(m.check_balance(&vec![]), RebalanceAction::NoAction));
}

#[test]
fn recovery_walks_only_the_listed_partitions_in_their_order() {
    let parts = vec![part(0, "a", &["a", "b"]), part(1, "c", &["c"]), part(2, "b", &["b", "a"])];
    let m = FailureRecoveryManager::new(s("me"), parts, vec![s("b"), s("c"), s("d")], 2);
    assert_eq!(m.plan_recovery(&state("a", vec![])).unwrap().len(), 0);
    let plan = m.plan_recovery(&state("a", vec![2, 1])).unwrap();
    assert_eq!(plan.len(), 2);
    assert!(matches!(&plan[0], RecoveryAction::RestoreReplicas { partition: 2, replicas } if *replicas == vec![s("c")]));
    assert!(matches!(&plan[1], RecoveryAction::RestoreReplicas { partition: 1, replicas } if *replicas == vec![s("b")]));
    assert_eq!(m.plan_recovery(&state("a", vec![9])).unwrap_err(), Error::Recovery(s("Partition not found")));
}
