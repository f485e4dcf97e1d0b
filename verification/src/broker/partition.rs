//! Which partition a message goes to.
use vstd::prelude::*;
use crate::rafka_core::{Error, Message};

verus! {

pub struct PartitionManager {
    partition_count: u32,
}

impl PartitionManager {
    pub closed spec fn count(&self) -> u32 {
        self.partition_count
    }

    pub fn new(partition_count: u32) -> (m: PartitionManager)
        ensures
            m.count() == partition_count,
    {
        PartitionManager { partition_count }
    }

    /// The partition named by the message's partition hint, and partition 0
    /// when it has none.
    pub fn get_partition_for_message(&self, msg: &Message) -> (r: Result<u32, Error>)
        ensures
            r == Ok::<u32, Error>(match msg.headers.partition_hint {
                Some(p) => p,
                None => 0,
            }),
    {
        match msg.headers.partition_hint {
            Some(p) => Ok(p),
            None => Ok(0),
        }
    }

    /// The nodes that hold copies of `partition`: none are assigned yet.
    pub fn get_replica_nodes(&self, partition: u32) -> (r: Result<Vec<String>, Error>)
        ensures
            r matches Ok(v) && v@.len() == 0,
    {
        Ok(Vec::new())
    }
}

} // verus!
