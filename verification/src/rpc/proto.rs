//! The requests and replies of the broker's RPC service.
use vstd::prelude::*;

verus! {

#[derive(Clone, Copy, Debug, PartialEq, Eq, Structural)]
pub enum ClientType {
    Producer,
    Consumer,
}

#[derive(Clone, Debug, PartialEq, Eq)]
pub struct RegisterRequest {
    pub client_id: String,
    pub client_type: ClientType,
}

#[derive(Clone, Debug, PartialEq, Eq)]
pub struct RegisterResponse {
    pub success: bool,
    pub message: String,
}

#[derive(Clone, Debug, PartialEq, Eq)]
pub struct SubscribeRequest {
    pub consumer_id: String,
    pub topic: String,
}

#[derive(Clone, Debug, PartialEq, Eq)]
pub struct SubscribeResponse {
    pub success: bool,
    pub message: String,
}

#[derive(Clone, Debug, PartialEq, Eq)]
pub struct PublishRequest {
    pub producer_id: String,
    pub topic: String,
    pub key: String,
    pub payload: String,
}

#[derive(Clone, Debug, PartialEq, Eq)]
pub struct PublishResponse {
    pub message_id: String,
    pub success: bool,
    pub message: String,
    pub partition: i32,
    pub offset: i64,
}

#[derive(Clone, Debug, PartialEq, Eq)]
pub struct ConsumeRequest {
    pub id: String,
    pub topic: String,
}

/// A message as the broker hands it to its consumers; `sent_at` is in
/// seconds since the UNIX epoch.
#[derive(Clone, Debug, PartialEq, Eq)]
pub struct ConsumeResponse {
    pub message_id: String,
    pub topic: String,
    pub payload: String,
    pub sent_at: i64,
    pub offset: i64,
}

#[derive(Clone, Debug, PartialEq, Eq)]
pub struct AcknowledgeRequest {
    pub consumer_id: String,
    pub topic: String,
    pub message_id: String,
}

#[derive(Clone, Debug, PartialEq, Eq)]
pub struct AcknowledgeResponse {
    pub success: bool,
    pub message: String,
}

#[derive(Clone, Debug, PartialEq, Eq)]
pub struct UpdateOffsetRequest {
    pub consumer_id: String,
    pub topic: String,
    pub offset: i64,
}

#[derive(Clone, Debug, PartialEq, Eq)]
pub struct UpdateOffsetResponse {
    pub success: bool,
    pub message: String,
}

/// The kinds of refusal that the service answers with.
#[derive(Clone, Copy, Debug, PartialEq, Eq, Structural)]
pub enum StatusCode {
    FailedPrecondition,
    InvalidArgument,
    NotFound,
    Internal,
}

/// A refused request: why, and the text that goes back to the client.
#[derive(Clone, Debug, PartialEq, Eq)]
pub struct Status {
    pub code: StatusCode,
    pub message: String,
}

} // verus!
