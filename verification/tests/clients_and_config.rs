use rafka::rafka_core::{Config, Environment, Error, FromEnv, Message, MessageType, PROTOCOL_VERSION};
use rafka::env_config::{ConfigBuilder, RafkaConfig};
use rafka::producer::{hash_fn, identify_request, identify_reply, is_error_header, wait_for_ack, produce_frame,
    AckReply, Producer, TopicMetadata};
use rafka::consumer::client::{Consumer, PartitionConsumer};
use rafka::consumer::group::{assign_range, sorted_partitions, ConsumerGroup, ConsumerMember};
use rafka::collections::StringMap;
use std::collections::HashSet;
use rafka::rpc::broker::{hash_key, Broker};
use rafka::rpc::proto::{PublishRequest, UpdateOffsetRequest, SubscribeRequest, StatusCode};
use rafka::rpc::clients;
use std::collections::HashMap;
use std::hash::{Hash, Hasher};

fn env(pairs: &[(&str, &str)]) -> Environment {
    let mut e = Environment::new();
    for (k, v) in pairs {
        e.set(k.to_string(), v.to_string());
    }
    e
}

fn is_uuid_v4(s: &str) -> bool {
    s.len() == 36 && s.as_bytes()[14] == b'4' && s.chars().filter(|c| *c == '-').count() == 4
}

#[test]
fn config_defaults() {
    let c = Config::from_env(&Environment::new()).unwrap();
    assert_eq!(c.nodes, vec!["127.0.0.1".to_string()]);
    assert_eq!(c.keyspace, "rafka");
    assert_eq!((c.broker_port, c.producer_port, c.consumer_port), (8080, 8081, 8082));
    assert_eq!(c.cache_ttl, 3600);
    assert_eq!(c.partition_count, 32);
    assert_eq!(c.replication_factor, 3);
    assert_eq!(c.node_id, "node_1");
}

#[test]
fn config_reads_the_environment() {
    let c = Config::from_env(&env(&[("RAFKA_NODES", "a,b"), ("RAFKA_BROKER_PORT", "9092"), ("RAFKA_NODE_ID", "n7")])).unwrap();
    assert_eq!(c.nodes, vec!["a".to_string(), "b".to_string()]);
    assert_eq!(c.broker_port, 9092);
    assert_eq!(c.node_id, "n7");
}

#[test]
fn config_refuses_a_port_that_does_not_fit() {
    let e = Config::from_env(&env(&[("RAFKA_BROKER_PORT", "70000")])).unwrap_err();
    assert_eq!(e, Error::Config("number too large to fit in target type".to_string()));
}

#[test]
fn builder_defaults_and_errors() {
    let c = ConfigBuilder::from_env(&Environment::new()).unwrap();
    assert_eq!(c.cache_ttl, 60);
    assert_eq!(c.keyspace, "default_keyspace");
    assert_eq!(c.nodes, vec!["localhost:9092".to_string()]);
    assert_eq!(c.partition_count, 32);
    let e = ConfigBuilder::from_env(&env(&[("CACHE_TTL", "soon")])).unwrap_err();
    assert_eq!(e, Error::Config("Failed to parse CACHE_TTL: invalid digit found in string".to_string()));
    let r = RafkaConfig::from_env(&env(&[("BROKER_PORT", "9000")])).unwrap().into_inner();
    assert_eq!(r.broker_port, 9000);
}

#[test]
fn message_new_and_into_bytes() {
    let m = Message::new("t".to_string(), None, vec![1, 2, 3]);
    assert!(is_uuid_v4(&m.id));
    assert_eq!(m.topic, "t");
    assert_eq!(m.payload, vec![1, 2, 3]);
    assert_eq!(&m.into_bytes()[..], &[1, 2, 3]);
}

#[test]
fn hash_fn_is_the_low_bits_of_the_default_hash() {
    let data: &[u8] = b"payload";
    let mut h = std::collections::hash_map::DefaultHasher::new();
    data.hash(&mut h);
    assert_eq!(hash_fn(data), h.finish() as u32);
}

#[test]
fn producer_identifies_with_name_and_version() {
    let mut expected = b"producer".to_vec();
    expected.extend_from_slice(&PROTOCOL_VERSION.to_be_bytes());
    assert_eq!(identify_request(), expected);
    assert_eq!(identify_reply(b"ACK"), Ok(()));
    assert_eq!(identify_reply(b"NAK"), Err(Error::InvalidInput("Failed to identify with broker".to_string())));
}

#[test]
fn producer_reads_acknowledgements() {
    assert_eq!(wait_for_ack(&AckReply::Reply { header: b"ACK".to_vec(), error_text: vec![] }), Ok(()));
    assert!(is_error_header(b"ERR"));
    assert!(!is_error_header(b"ACK"));
    assert_eq!(
        wait_for_ack(&AckReply::Reply { header: b"ERR".to_vec(), error_text: b"disk full".to_vec() }),
        Err(Error::InvalidInput("Broker error: disk full".to_string()))
    );
    assert_eq!(
        wait_for_ack(&AckReply::Reply { header: b"ERR".to_vec(), error_text: vec![0xff, b'x'] }),
        Err(Error::InvalidInput("Broker error: \u{fffd}x".to_string()))
    );
    assert_eq!(
        wait_for_ack(&AckReply::Reply { header: b"BAD".to_vec(), error_text: vec![] }),
        Err(Error::InvalidInput("Invalid acknowledgment from broker".to_string()))
    );
    assert_eq!(
        wait_for_ack(&AckReply::TimedOut),
        Err(Error::InvalidInput("Timeout waiting for broker acknowledgment".to_string()))
    );
}

#[test]
fn produce_frame_puts_the_marker_and_length_first() {
    assert_eq!(produce_frame(b"ab"), vec![1, 0, 0, 0, 2, b'a', b'b']);
}

#[test]
fn producer_sends_to_the_owner_of_the_partition() {
    let config = Config::from_env(&env(&[("RAFKA_NODE_ID", "p1")])).unwrap();
    let mut p = Producer::new(&config);
    assert_eq!(Producer::broker_address(&config), "127.0.0.1:8080");
    let dummy = p.read_metadata_response();
    assert_eq!(dummy.partition_count, 4);
    assert!(dummy.partition_owners.is_empty());
    let m = Message::new("orders".to_string(), None, b"x".to_vec());
    let part = p.calculate_partition(&m, &dummy);
    assert_eq!(part, hash_fn(b"x") % 4);
    let mut owners = HashMap::new();
    owners.insert(part, "broker-9".to_string());
    let meta = TopicMetadata { partition_count: 4, partition_owners: owners };
    p.store_topic_metadata("orders".to_string(), meta);
    let cached = p.get_topic_metadata(&"orders".to_string()).unwrap();
    assert!(!p.is_metadata_stale(&cached));
    let sent = p.prepare_send(m.clone(), &cached).unwrap();
    assert_eq!(sent.msg_type, MessageType::Produce);
    assert_eq!(sent.source_node, "p1");
    assert_eq!(sent.target_node, Some("broker-9".to_string()));
    assert_eq!(sent.payload, m);
    let e = p.prepare_send(m, &dummy).unwrap_err();
    assert_eq!(e, Error::InvalidInput("No broker found for partition".to_string()));
    let req = p.metadata_request(&"orders".to_string());
    assert_eq!(req.msg_type, MessageType::MetadataRequest);
    assert_eq!(req.payload.topic, "orders");
    assert!(req.target_node.is_none());
    assert!(p.get_topic_metadata(&"other".to_string()).is_none());
}

#[test]
fn consumer_joins_a_group_and_moves_its_offsets() {
    let mut c = Consumer::new();
    assert!(is_uuid_v4(&c.node_id));
    let join = c.join_group("g1".to_string());
    assert_eq!(c.group_id, Some("g1".to_string()));
    assert_eq!(join.msg_type, MessageType::JoinGroup);
    assert_eq!(join.payload.topic, "system");
    assert_eq!(join.payload.payload, b"g1".to_vec());
    c.handle_partition_assignment(&vec![(0, 10), (3, 7), (0, 12)]);
    assert_eq!(c.offset(0), Some(12));
    assert_eq!(c.offset(3), Some(7));
    assert_eq!(c.offset(1), None);
    c.advance_offset(3);
    c.advance_offset(1);
    assert_eq!(c.offset(3), Some(8));
    assert_eq!(c.assigned_partitions.get(&3), Some(&PartitionConsumer { partition: 3, current_offset: 8 }));
}

fn member(id: &str) -> ConsumerMember {
    ConsumerMember { consumer_id: id.to_string(), heartbeat: 0, assigned_partitions: HashSet::new() }
}

#[test]
fn range_assignment_covers_every_partition_in_order() {
    let mut members: StringMap<ConsumerMember> = StringMap::new();
    let parts: HashSet<u32> = [4u32, 1, 3, 2, 0].into_iter().collect();
    assert_eq!(assign_range(&members, &parts), Ok(vec![]));
    members.insert("a".to_string(), member("a"));
    members.insert("b".to_string(), member("b"));
    assert_eq!(assign_range(&members, &parts), Ok(vec![0, 1, 2, 3, 4]));
    assert_eq!(sorted_partitions(&parts), vec![0, 1, 2, 3, 4]);
}

#[test]
fn group_members_join_and_leave() {
    let mut g = ConsumerGroup::new("g".to_string());
    assert_eq!(g.join("a".to_string()), Ok(vec![]));
    assert_eq!(g.leave(&"a".to_string()), Ok(()));
}

#[test]
fn rpc_broker_publishes_keys_of_its_partition() {
    assert_eq!(hash_key("ab"), (b'a' as u32) + (b'b' as u32));
    let mut b = Broker::new(hash_key("k") % 4, 4);
    assert!(b.owns_partition("k"));
    let req = PublishRequest { producer_id: "p".into(), topic: "t".into(), key: "k".into(), payload: "hi".into() };
    let (reply, out) = b.publish(req.clone()).unwrap();
    assert!(reply.success);
    assert_eq!(reply.offset, 0);
    assert_eq!(reply.message, format!("Published successfully to partition {} with offset 0", hash_key("k") % 4));
    assert_eq!(out.payload, "hi");
    let (reply2, _) = b.publish(req).unwrap();
    assert_eq!(reply2.offset, 1);
    let other = (hash_key("k") % 4 + 1) % 4;
    let mut b2 = Broker::new(other, 4);
    let err = b2.publish(PublishRequest { producer_id: "p".into(), topic: "t".into(), key: "k".into(), payload: "x".into() }).unwrap_err();
    assert_eq!(err.code, StatusCode::FailedPrecondition);
    assert_eq!(err.message, format!("Message belongs to partition {} not {}", hash_key("k") % 4, other));
}

#[test]
fn rpc_broker_offsets_read_back_what_was_written() {
    let mut b = Broker::new(0, 1);
    assert_eq!(b.get_consumer_offset(&"c".to_string(), &"t".to_string()), -1);
    let e = b.update_offset(UpdateOffsetRequest { consumer_id: "c".into(), topic: "t".into(), offset: 5 }).unwrap_err();
    assert_eq!(e.code, StatusCode::NotFound);
    assert_eq!(e.message, "Topic t not found");
    b.subscribe(SubscribeRequest { consumer_id: "c".into(), topic: "t".into() }).unwrap();
    let neg = b.update_offset(UpdateOffsetRequest { consumer_id: "c".into(), topic: "t".into(), offset: -1 }).unwrap_err();
    assert_eq!(neg.code, StatusCode::InvalidArgument);
    let ok = b.update_offset(UpdateOffsetRequest { consumer_id: "c".into(), topic: "t".into(), offset: 5 }).unwrap();
    assert_eq!(ok.message, "Offset updated to 5");
    assert_eq!(b.get_consumer_offset(&"c".to_string(), &"t".to_string()), 5);
}

#[test]
fn rpc_clients_build_their_requests() {
    let (c, reg) = clients::Consumer::new();
    assert!(is_uuid_v4(&c.consumer_id));
    assert_eq!(reg.client_id, c.consumer_id);
    let s = c.subscribe("t".to_string());
    assert_eq!(s.topic, "t");
    let p = clients::Producer::new();
    let r = p.publish("t".to_string(), "m".to_string(), "k".to_string());
    assert_eq!(r.payload, "m");
    assert_eq!(r.key, "k");
}

#[test]
fn polling_moves_each_partition_on_by_its_messages() {
    let mut c = Consumer::new();
    c.handle_partition_assignment(&vec![(1, 5), (2, 0)]);
    let a = Message::new("t".to_string(), None, b"a".to_vec());
    let b = Message::new("t".to_string(), None, b"b".to_vec());
    let d = Message::new("t".to_string(), None, b"d".to_vec());
    let got = c.poll_messages(vec![(2, vec![a.clone(), b.clone()]), (1, vec![d.clone()]), (9, vec![])]);
    assert_eq!(got, vec![a, b, d]);
    assert_eq!(c.offset(1), Some(6));
    assert_eq!(c.offset(2), Some(2));
    assert_eq!(c.offset(9), None);
}

#[test]
fn offsets_run_without_gaps_across_refusals() {
    // Two partitions: a key's byte sum decides; "a" (97) goes to 1, "b" (98) to 0.
    let mut b = rafka::rpc::broker::Broker::new(0, 2);
    let ask = |key: &str| PublishRequest { producer_id: "p".into(), topic: "t".into(), key: key.into(), payload: "x".into() };
    let mut offsets = Vec::new();
    for key in ["b", "a", "b", "a", "a", "b"] {
        match b.publish(ask(key)) {
            Ok((reply, _)) => offsets.push(reply.offset),
            Err(_) => {}
        }
    }
    assert_eq!(offsets, vec![0, 1, 2]);
}
