//! Where a read is served from.
use vstd::prelude::*;

verus! {

/// The path chosen for a request: the in-memory store, one node, several
/// nodes, or the ordinary broker path.
#[derive(Clone, Debug, PartialEq, Eq)]
pub enum RoutingDecision {
    UseMemoryStore,
    DirectRoute(String),
    DistributedRoute(Vec<String>),
    StandardBrokerRoute,
}

} // verus!
