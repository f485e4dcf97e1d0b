//! The errors of the library.
use vstd::prelude::*;

verus! {

/// What went wrong. The variants that carry a `String` carry the detail
/// that the operation reported.
#[derive(Clone, Debug, PartialEq, Eq)]
pub enum Error {
    Storage(String),
    Cache(String),
    Config(String),
    Io(String),
    InvalidInput(String),
    InvalidConnectionType,
    Serialization(String),
    SendError(String),
    BrokerError(String),
    NotLeader(String),
    Delivery(String),
    Replication(String),
    Kubernetes(String),
    Transfer(String),
    Recovery(String),
    Internal(String),
    NoAvailableNodes,
    ConsistencyError,
    MessageTooLarge { size: usize, max: usize },
}

} // verus!
