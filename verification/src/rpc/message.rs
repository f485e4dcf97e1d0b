//! What the RPC clients pass around: a published message, its
//! acknowledgement, and the timing of a benchmark message.
use vstd::prelude::*;
use crate::platform::{new_uuid_string, is_v4_uuid_text, utc_now_millis};

verus! {

/// A message of a topic; `timestamp` is the UTC time of creation in
/// milliseconds since the UNIX epoch.
#[derive(Clone, Debug, PartialEq, Eq)]
pub struct Message {
    pub id: String,
    pub topic: String,
    pub payload: Vec<u8>,
    pub timestamp: i64,
}

impl Message {
    /// A message of `topic` with a fresh random id, stamped with the
    /// current time.
    pub fn new(topic: String, payload: Vec<u8>) -> (m: Message)
        ensures
            is_v4_uuid_text(m.id@),
            m.topic == topic,
            m.payload == payload,
    {
        Message { id: new_uuid_string(), topic, payload, timestamp: utc_now_millis() }
    }
}

#[derive(Clone, Debug, PartialEq, Eq)]
pub struct MessageAck {
    pub message_id: String,
    pub status: AckStatus,
}

#[derive(Clone, Debug, PartialEq, Eq)]
pub enum AckStatus {
    Success,
    Error(String),
}

/// When a benchmark message was sent and received (milliseconds since the
/// UNIX epoch, UTC), and the latency between.
#[derive(Clone, Debug, PartialEq, Eq)]
pub struct BenchmarkMetrics {
    pub message_id: String,
    pub sent_at: i64,
    pub received_at: i64,
    pub latency_ms: i64,
}

} // verus!
