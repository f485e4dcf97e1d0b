//! The producer: it identifies itself to the broker, finds the partition of
//! a message by hashing its payload, sends it to the broker that owns the
//! partition, and reads the broker's acknowledgement.
use vstd::prelude::*;
use vstd::string::*;
use std::collections::HashMap;
use crate::rafka_core::{Config, Error, Message, MessageType, NetworkMessage, PROTOCOL_VERSION};
use crate::platform::{default_hash_bytes, default_hash_of_bytes, utf8_lossy, lossy_text, is_v4_uuid_text};
use crate::collections::StringMap;
use crate::wire::{be32, framed, frame, u32_to_be};
use crate::broker::server::{ack_spec, loopback_address, loopback_address_of};

verus! {

broadcast use vstd::std_specs::hash::group_hash_axioms;

/// The low 32 bits of the `DefaultHasher` hash of `data`.
pub fn hash_fn(data: &[u8]) -> (h: u32)
    ensures
        h == default_hash_of_bytes(data@) as u32,
{
    let full = default_hash_bytes(data);
    full as u32
}

/// How many partitions a topic has and which broker owns each.
pub struct TopicMetadata {
    pub partition_count: u32,
    pub partition_owners: HashMap<u32, String>,
}

impl TopicMetadata {
    pub fn copy(&self) -> (r: TopicMetadata)
        ensures
            r.partition_count == self.partition_count,
            r.partition_owners@ == self.partition_owners@,
    {
        TopicMetadata { partition_count: self.partition_count, partition_owners: self.partition_owners.clone() }
    }
}

impl Default for TopicMetadata {
    /// No partitions and no owners.
    fn default() -> (m: Self)
        ensures
            m.partition_count == 0,
            m.partition_owners@ == Map::<u32, String>::empty(),
    {
        TopicMetadata { partition_count: 0, partition_owners: HashMap::new() }
    }
}

/// The bytes of `producer` followed by the protocol version, big-endian.
pub open spec fn identify_spec() -> Seq<u8> {
    seq![112u8, 114u8, 111u8, 100u8, 117u8, 99u8, 101u8, 114u8] + be32(PROTOCOL_VERSION as int)
}

/// What a producer writes to introduce itself.
pub fn identify_request() -> (r: Vec<u8>)
    ensures
        r@ == identify_spec(),
{
    let mut r: Vec<u8> = vec![112u8, 114u8, 111u8, 100u8, 117u8, 99u8, 101u8, 114u8];
    let mut v = u32_to_be(PROTOCOL_VERSION);
    let ghost head = r@;
    let ghost tail = v@;
    r.append(&mut v);
    assert(r@ =~= head + tail);
    assert(head =~= seq![112u8, 114u8, 111u8, 100u8, 117u8, 99u8, 101u8, 114u8]);
    r
}

/// The broker's answer to the introduction: `ACK` accepts it, anything else
/// is `InvalidInput("Failed to identify with broker")`.
pub fn identify_reply(reply: &[u8]) -> (r: Result<(), Error>)
    ensures
        reply@ == ack_spec() ==> r == Ok::<(), Error>(()),
        reply@ != ack_spec() ==> (r matches Err(Error::InvalidInput(t)) && t@ == "Failed to identify with broker"@),
{
    if is_header(reply, 65u8, 67u8, 75u8) {
        Ok(())
    } else {
        proof { reveal_strlit("Failed to identify with broker"); }
        Err(Error::InvalidInput(String::from_str("Failed to identify with broker")))
    }
}

/// Whether `b` is exactly the three bytes `x`, `y`, `z`.
fn is_header(b: &[u8], x: u8, y: u8, z: u8) -> (r: bool)
    ensures
        r == (b@ == seq![x, y, z]),
{
    if b.len() == 3 && b[0] == x && b[1] == y && b[2] == z {
        assert(b@ =~= seq![x, y, z]);
        true
    } else {
        proof {
            if b@ == seq![x, y, z] {
                assert(b@[0] == x && b@[1] == y && b@[2] == z);
            }
        }
        false
    }
}

/// The three bytes `ERR` with which a broker refuses a message.
pub open spec fn err_spec() -> Seq<u8> {
    seq![69u8, 82u8, 82u8]
}

/// Whether a header announces an error, which is followed by its length
/// and its text.
pub fn is_error_header(header: &[u8]) -> (r: bool)
    ensures
        r == (header@ == err_spec()),
{
    is_header(header, 69u8, 82u8, 82u8)
}

/// What the broker answered to a message, as the producer read it.
#[derive(Debug)]
pub enum AckReply {
    /// No answer came in time.
    TimedOut,
    /// The three header bytes, and the error text that followed when the
    /// header is `ERR` (empty otherwise).
    Reply { header: Vec<u8>, error_text: Vec<u8> },
}

/// The text of the error for a broker's refusal.
pub open spec fn broker_error_text(error_text: Seq<u8>) -> Seq<char> {
    "Broker error: "@ + lossy_text(error_text)
}

/// The outcome of waiting for the broker: `ACK` succeeds; `ERR` is
/// `InvalidInput("Broker error: ...")` with the broker's text; any other
/// header is `InvalidInput("Invalid acknowledgment from broker")`; no answer
/// in time is `InvalidInput("Timeout waiting for broker acknowledgment")`.
pub fn wait_for_ack(reply: &AckReply) -> (r: Result<(), Error>)
    ensures
        match reply {
            AckReply::TimedOut => r matches Err(Error::InvalidInput(t)) && t@ == "Timeout waiting for broker acknowledgment"@,
            AckReply::Reply { header, error_text } => {
                if header@ == ack_spec() {
                    r == Ok::<(), Error>(())
                } else if header@ == err_spec() {
                    r matches Err(Error::InvalidInput(t)) && t@ == broker_error_text(error_text@)
                } else {
                    r matches Err(Error::InvalidInput(t)) && t@ == "Invalid acknowledgment from broker"@
                }
            },
        },
{
    match reply {
        AckReply::TimedOut => {
            proof { reveal_strlit("Timeout waiting for broker acknowledgment"); }
            Err(Error::InvalidInput(String::from_str("Timeout waiting for broker acknowledgment")))
        },
        AckReply::Reply { header, error_text } => {
            if is_header(header.as_slice(), 65u8, 67u8, 75u8) {
                Ok(())
            } else if is_error_header(header.as_slice()) {
                let mut text = String::from_str("Broker error: ");
                let detail = utf8_lossy(error_text.as_slice());
                text.append(detail.as_str());
                proof { reveal_strlit("Broker error: "); }
                assert(text@ =~= broker_error_text(error_text@));
                Err(Error::InvalidInput(text))
            } else {
                proof { reveal_strlit("Invalid acknowledgment from broker"); }
                Err(Error::InvalidInput(String::from_str("Invalid acknowledgment from broker")))
            }
        },
    }
}

/// A serialized network message as the producer writes it: the byte 1,
/// then the length and the bytes.
pub fn produce_frame(bytes: &[u8]) -> (r: Vec<u8>)
    ensures
        r@ == seq![1u8] + framed(bytes@),
{
    let mut r: Vec<u8> = vec![1u8];
    let mut rest = frame(bytes);
    let ghost tail = rest@;
    r.append(&mut rest);
    assert(r@ =~= seq![1u8] + tail);
    r
}

/// The partition of a payload: its hash modulo the partition count.
pub open spec fn partition_of(payload: Seq<u8>, partition_count: u32) -> u32 {
    ((default_hash_of_bytes(payload) as u32) % partition_count) as u32
}

pub struct Producer {
    pub node_id: String,
    pub topic_metadata: StringMap<TopicMetadata>,
}

impl Producer {
    pub open spec fn wf(&self) -> bool {
        self.topic_metadata.wf()
    }

    /// A producer with the node id of the configuration and no metadata.
    pub fn new(config: &Config) -> (p: Producer)
        ensures
            p.wf(),
            p.node_id == config.node_id,
            p.topic_metadata@.dom() == Set::<Seq<char>>::empty(),
    {
        Producer { node_id: config.node_id.clone(), topic_metadata: StringMap::new() }
    }

    /// Where the producer connects: the broker port on the loopback
    /// address.
    pub fn broker_address(config: &Config) -> (r: String)
        ensures
            r@ == loopback_address(config.broker_port),
    {
        loopback_address_of(config.broker_port)
    }

    /// The partition of `message`: the hash of its payload modulo the
    /// partition count of the topic.
    pub fn calculate_partition(&self, message: &Message, metadata: &TopicMetadata) -> (p: u32)
        requires
            metadata.partition_count > 0,
        ensures
            p == partition_of(message.payload@, metadata.partition_count),
            p < metadata.partition_count,
    {
        let hash = hash_fn(message.payload.as_slice());
        hash % metadata.partition_count
    }

    /// Cached metadata never goes stale.
    pub fn is_metadata_stale(&self, metadata: &TopicMetadata) -> (r: bool)
        ensures
            !r,
    {
        false
    }

    /// The cached metadata of `topic`, when there is some that is not stale.
    pub fn get_topic_metadata(&self, topic: &String) -> (r: Option<TopicMetadata>)
        requires
            self.wf(),
        ensures
            match r {
                Some(m) => self.topic_metadata@.contains_key(topic@)
                    && m.partition_count == self.topic_metadata@[topic@].partition_count
                    && m.partition_owners@ == self.topic_metadata@[topic@].partition_owners@,
                None => !self.topic_metadata@.contains_key(topic@),
            },
    {
        match self.topic_metadata.get(topic) {
            Some(m) => {
                if !self.is_metadata_stale(m) {
                    Some(m.copy())
                } else {
                    None
                }
            },
            None => None,
        }
    }

    /// The request for the metadata of `topic`: a metadata request from
    /// this node, for the broker to route, carrying an empty message of the
    /// topic.
    pub fn metadata_request(&self, topic: &String) -> (r: NetworkMessage)
        ensures
            r.msg_type == MessageType::MetadataRequest,
            r.source_node == self.node_id,
            r.target_node is None,
            r.payload.topic == *topic,
            r.payload.payload@ == Seq::<u8>::empty(),
            r.payload.key is None,
            r.payload.partition is None,
            is_v4_uuid_text(r.payload.id@),
    {
        let mut payload = Message::default();
        payload.topic = topic.clone();
        NetworkMessage {
            msg_type: MessageType::MetadataRequest,
            source_node: self.node_id.clone(),
            target_node: None,
            payload,
        }
    }

    /// The metadata that the broker's answer gives: four partitions and no
    /// known owners.
    pub fn read_metadata_response(&self) -> (m: TopicMetadata)
        ensures
            m.partition_count == 4,
            m.partition_owners@ == Map::<u32, String>::empty(),
    {
        TopicMetadata { partition_count: 4, partition_owners: HashMap::new(), }
    }

    /// Caches the metadata of `topic`.
    pub fn store_topic_metadata(&mut self, topic: String, metadata: TopicMetadata)
        requires
            old(self).wf(),
        ensures
            final(self).wf(),
            final(self).node_id == old(self).node_id,
            final(self).topic_metadata@ == old(self).topic_metadata@.insert(topic@, metadata),
    {
        self.topic_metadata.insert(topic, metadata);
    }

    /// The network message that carries `message` to the owner of its
    /// partition; a partition without an owner is
    /// `InvalidInput("No broker found for partition")`.
    pub fn prepare_send(&self, message: Message, metadata: &TopicMetadata) -> (r: Result<NetworkMessage, Error>)
        requires
            metadata.partition_count > 0,
        ensures
            ({
                let p = partition_of(message.payload@, metadata.partition_count);
                if metadata.partition_owners@.contains_key(p) {
                    r matches Ok(n) && n.msg_type == MessageType::Produce && n.source_node == self.node_id
                        && n.target_node == Some(metadata.partition_owners@[p]) && n.payload == message
                } else {
                    r matches Err(Error::InvalidInput(t)) && t@ == "No broker found for partition"@
                }
            }),
    {
        let partition = self.calculate_partition(&message, metadata);
        match metadata.partition_owners.get(&partition) {
            Some(owner) => Ok(NetworkMessage {
                msg_type: MessageType::Produce,
                source_node: self.node_id.clone(),
                target_node: Some(owner.clone()),
                payload: message,
            }),
            None => {
                proof { reveal_strlit("No broker found for partition"); }
                Err(Error::InvalidInput(String::from_str("No broker found for partition")))
            },
        }
    }
}

} // verus!
