//! The requests that the RPC producer and consumer send, and what the
//! consumer does with each message it receives.
use vstd::prelude::*;
use crate::platform::{new_uuid_string, is_v4_uuid_text};
use crate::rpc::proto::{
    ClientType, RegisterRequest, SubscribeRequest, ConsumeRequest, ConsumeResponse,
    AcknowledgeRequest, UpdateOffsetRequest, PublishRequest,
};

verus! {

/// A consumer known to the broker by a random id.
pub struct Consumer {
    pub consumer_id: String,
    pub current_offset: i64,
}

/// What a consumer does with a message: hand the payload on, acknowledge
/// the message, and record its offset.
pub struct ConsumeStep {
    pub payload: String,
    pub ack: AcknowledgeRequest,
    pub offset_update: UpdateOffsetRequest,
}

impl Consumer {
    /// A consumer with a fresh random id, and the registration it sends.
    pub fn new() -> (r: (Consumer, RegisterRequest))
        ensures
            is_v4_uuid_text(r.0.consumer_id@),
            r.0.current_offset == 0,
            r.1.client_id == r.0.consumer_id,
            r.1.client_type == ClientType::Consumer,
    {
        let consumer_id = new_uuid_string();
        let req = RegisterRequest { client_id: consumer_id.clone(), client_type: ClientType::Consumer };
        (Consumer { consumer_id, current_offset: 0 }, req)
    }

    pub fn subscribe(&self, topic: String) -> (r: SubscribeRequest)
        ensures
            r.consumer_id == self.consumer_id,
            r.topic == topic,
    {
        SubscribeRequest { consumer_id: self.consumer_id.clone(), topic }
    }

    pub fn consume(&self, topic: String) -> (r: ConsumeRequest)
        ensures
            r.id == self.consumer_id,
            r.topic == topic,
    {
        ConsumeRequest { id: self.consumer_id.clone(), topic }
    }

    /// The payload of `message` goes to the reader, and the broker hears
    /// that this consumer took the message and reached its offset in
    /// `topic`.
    pub fn on_message(&self, topic: &String, message: ConsumeResponse) -> (s: ConsumeStep)
        ensures
            s.payload == message.payload,
            s.ack.consumer_id == self.consumer_id,
            s.ack.topic == *topic,
            s.ack.message_id == message.message_id,
            s.offset_update.consumer_id == self.consumer_id,
            s.offset_update.topic == *topic,
            s.offset_update.offset == message.offset,
    {
        ConsumeStep {
            payload: message.payload,
            ack: AcknowledgeRequest {
                consumer_id: self.consumer_id.clone(),
                topic: topic.clone(),
                message_id: message.message_id,
            },
            offset_update: UpdateOffsetRequest {
                consumer_id: self.consumer_id.clone(),
                topic: topic.clone(),
                offset: message.offset,
            },
        }
    }
}

/// A producer known to the broker by a random id.
pub struct Producer {
    pub producer_id: String,
}

impl Producer {
    pub fn new() -> (p: Producer)
        ensures
            is_v4_uuid_text(p.producer_id@),
    {
        Producer { producer_id: new_uuid_string() }
    }

    /// The request that publishes `message` under `key` to `topic`.
    pub fn publish(&self, topic: String, message: String, key: String) -> (r: PublishRequest)
        ensures
            r.producer_id == self.producer_id,
            r.topic == topic,
            r.key == key,
            r.payload == message,
    {
        PublishRequest { producer_id: self.producer_id.clone(), topic, key, payload: message }
    }
}

} // verus!
