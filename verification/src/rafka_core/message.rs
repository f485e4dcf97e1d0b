//! The messages that producers publish, brokers store and forward, and
//! consumers read, and the envelope in which nodes exchange them.
use vstd::prelude::*;
use crate::platform::{new_uuid_string, now_unix_nanos, is_v4_uuid_text, bytes_from_vec, bytes_content};

verus! {

/// What a message between nodes asks for.
#[derive(Clone, Copy, Debug, PartialEq, Eq, Structural)]
pub enum MessageType {
    Produce,
    Fetch,
    JoinNetwork,
    LeaveNetwork,
    PartitionTransfer,
    Heartbeat,
    JoinGroup,
    MetadataRequest,
}

#[derive(Clone, Copy, Debug, PartialEq, Eq, Structural)]
/// How a payload is compressed; `NoCompression` leaves it as it is (the
/// name `None` belongs to the verifier's prelude).
pub enum CompressionType {
    NoCompression,
    LZ4,
    Snappy,
}

/// Hints that travel with a message.
#[derive(Clone, Copy, Debug, PartialEq, Eq, Structural)]
pub struct MessageHeaders {
    pub partition_hint: Option<u32>,
    pub replication_factor: Option<u8>,
    pub compression: Option<CompressionType>,
}

impl Default for MessageHeaders {
    /// No hints.
    fn default() -> (h: Self)
        ensures
            h.partition_hint is None,
            h.replication_factor is None,
            h.compression is None,
    {
        MessageHeaders { partition_hint: None, replication_factor: None, compression: None }
    }
}

/// A message of a topic. `timestamp` is the time of creation in
/// nanoseconds since the UNIX epoch.
#[derive(Clone, Debug, PartialEq, Eq)]
pub struct Message {
    pub id: String,
    pub topic: String,
    pub partition: Option<u32>,
    pub key: Option<Vec<u8>>,
    pub payload: Vec<u8>,
    pub timestamp: u128,
    pub headers: MessageHeaders,
}

/// A copy of a byte vector.
pub fn copy_bytes(v: &Vec<u8>) -> (r: Vec<u8>)
    ensures
        r@ == v@,
{
    vstd::slice::slice_to_vec(v.as_slice())
}

pub fn copy_opt_bytes(v: &Option<Vec<u8>>) -> (r: Option<Vec<u8>>)
    ensures
        opt_bytes_view(r) == opt_bytes_view(*v),
{
    match v {
        Some(b) => Some(copy_bytes(b)),
        None => None,
    }
}

/// A message as the logic sees it: its fields, byte vectors and strings by
/// their contents.
pub struct MessageView {
    pub id: Seq<char>,
    pub topic: Seq<char>,
    pub partition: Option<u32>,
    pub key: Option<Seq<u8>>,
    pub payload: Seq<u8>,
    pub timestamp: u128,
    pub headers: MessageHeaders,
}

pub open spec fn opt_bytes_view(v: Option<Vec<u8>>) -> Option<Seq<u8>> {
    match v {
        Some(b) => Some(b@),
        None => None,
    }
}

impl View for Message {
    type V = MessageView;

    open spec fn view(&self) -> MessageView {
        MessageView {
            id: self.id@,
            topic: self.topic@,
            partition: self.partition,
            key: opt_bytes_view(self.key),
            payload: self.payload@,
            timestamp: self.timestamp,
            headers: self.headers,
        }
    }
}

/// The views of a list of messages.
pub open spec fn message_views(v: Seq<Message>) -> Seq<MessageView> {
    v.map_values(|m: Message| m@)
}

/// A copy of a list of messages.
pub fn copy_messages(v: &Vec<Message>) -> (r: Vec<Message>)
    ensures
        message_views(r@) == message_views(v@),
{
    let mut r: Vec<Message> = Vec::new();
    let mut i: usize = 0;
    while i < v.len()
        invariant
            i <= v@.len(),
            message_views(r@) == message_views(v@.take(i as int)),
        decreases v@.len() - i,
    {
        let m = v[i].copy();
        let ghost before = r@;
        r.push(m);
        assert(r@ == before.push(m));
        assert(v@.take(i + 1) =~= v@.take(i as int).push(v@[i as int]));
        assert(message_views(r@) =~= message_views(before).push(m@));
        assert(message_views(v@.take(i + 1)) =~= message_views(v@.take(i as int)).push(v@[i as int]@));
        i = i + 1;
    }
    assert(v@.take(v@.len() as int) =~= v@);
    r
}

impl Message {
    /// A copy of the message.
    pub fn copy(&self) -> (r: Message)
        ensures
            r@ == self@,
    {
        let key = copy_opt_bytes(&self.key);
        assert(opt_bytes_view(key) == opt_bytes_view(self.key));
        Message {
            id: self.id.clone(),
            topic: self.topic.clone(),
            partition: self.partition,
            key,
            payload: copy_bytes(&self.payload),
            timestamp: self.timestamp,
            headers: self.headers,
        }
    }

    /// A new message of `topic` with a fresh random id, no partition, the
    /// default headers and the current time.
    pub fn new(topic: String, key: Option<Vec<u8>>, payload: Vec<u8>) -> (m: Message)
        ensures
            is_v4_uuid_text(m.id@),
            m.topic == topic,
            m.partition is None,
            m.key == key,
            m.payload == payload,
            m.headers == (MessageHeaders { partition_hint: None, replication_factor: None, compression: None }),
    {
        Message {
            id: new_uuid_string(),
            topic,
            partition: None,
            key,
            payload,
            timestamp: now_unix_nanos(),
            headers: MessageHeaders::default(),
        }
    }

    /// The payload as a shared byte buffer.
    pub fn into_bytes(self) -> (b: bytes::Bytes)
        ensures
            bytes_content(b) == self.payload@,
    {
        bytes_from_vec(self.payload)
    }
}

impl Default for Message {
    /// An empty message of the empty topic with a fresh id and the current
    /// time.
    fn default() -> (m: Self)
        ensures
            is_v4_uuid_text(m.id@),
            m.topic@ == Seq::<char>::empty(),
            m.partition is None,
            m.key is None,
            m.payload@ == Seq::<u8>::empty(),
            m.headers == (MessageHeaders { partition_hint: None, replication_factor: None, compression: None }),
    {
        Message {
            id: new_uuid_string(),
            topic: String::new(),
            partition: None,
            key: None,
            payload: Vec::new(),
            timestamp: now_unix_nanos(),
            headers: MessageHeaders::default(),
        }
    }
}

/// A message between nodes: what it asks for, who sent it, whom it is for,
/// and the message it carries.
#[derive(Clone, Debug, PartialEq, Eq)]
pub struct NetworkMessage {
    pub msg_type: MessageType,
    pub source_node: String,
    pub target_node: Option<String>,
    pub payload: Message,
}

impl Default for NetworkMessage {
    /// A heartbeat from nobody to nobody that carries an empty message.
    fn default() -> (m: Self)
        ensures
            m.msg_type == MessageType::Heartbeat,
            m.source_node@ == Seq::<char>::empty(),
            m.target_node is None,
            m.payload.topic@ == Seq::<char>::empty(),
            m.payload.key is None,
            m.payload.payload@ == Seq::<u8>::empty(),
            m.payload.partition is None,
    {
        NetworkMessage {
            msg_type: MessageType::Heartbeat,
            source_node: String::new(),
            target_node: None,
            payload: Message::new(String::new(), None, Vec::new()),
        }
    }
}

/// A broker that clients can reach.
#[derive(Clone, Debug, PartialEq, Eq)]
pub struct BrokerNode {
    pub id: String,
    pub address: String,
    pub port: u16,
}

} // verus!
