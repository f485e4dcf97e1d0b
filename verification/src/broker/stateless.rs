//! A broker node that keeps no state beyond the messages of its partitions:
//! it places each message, stores it, and says where it must be copied.
use vstd::prelude::*;
use vstd::string::*;
use crate::rafka_core::{Config, Error, Message};
use crate::rafka_core::message::MessageView;
use crate::platform::{new_uuid_string, is_v4_uuid_text};
use crate::broker::storage::Storage;
use crate::broker::partition::PartitionManager;
use crate::text::{decimal, u64_to_string};

verus! {

/// What a new connection announces with its first byte.
#[derive(Clone, Copy, Debug, PartialEq, Eq, Structural)]
pub enum ConnectionKind {
    Producer,
    Consumer,
}

/// Byte 1 opens a producer connection, byte 2 a consumer connection; any
/// other is refused as an unknown connection type.
pub fn classify_connection(first_byte: u8) -> (r: Result<ConnectionKind, Error>)
    ensures
        first_byte == 1 ==> r == Ok::<ConnectionKind, Error>(ConnectionKind::Producer),
        first_byte == 2 ==> r == Ok::<ConnectionKind, Error>(ConnectionKind::Consumer),
        first_byte != 1 && first_byte != 2 ==> (r matches Err(Error::InvalidInput(t)) && t@ == "Unknown connection type"@),
{
    if first_byte == 1 {
        Ok(ConnectionKind::Producer)
    } else if first_byte == 2 {
        Ok(ConnectionKind::Consumer)
    } else {
        proof { reveal_strlit("Unknown connection type"); }
        Err(Error::InvalidInput(String::from_str("Unknown connection type")))
    }
}

pub struct StatelessBroker {
    pub node_id: String,
    pub config: Config,
    pub storage: Storage,
    pub partition_manager: PartitionManager,
}

impl StatelessBroker {
    /// A broker with a fresh random id, no stored messages, and as many
    /// partitions as the configuration says.
    pub fn new(config: Config) -> (b: StatelessBroker)
        ensures
            is_v4_uuid_text(b.node_id@),
            b.storage.contents().dom() == Set::<Seq<char>>::empty(),
            b.partition_manager.count() == config.partition_count,
            b.config == config,
    {
        let node_id = new_uuid_string();
        let partition_count = config.partition_count;
        StatelessBroker {
            node_id,
            config,
            storage: Storage::new(),
            partition_manager: PartitionManager::new(partition_count),
        }
    }

    /// Stores `message` in its partition (the one its hint names, else 0)
    /// and returns that partition, to whose consumers the message must then
    /// be copied.
    pub fn route_message(&mut self, message: Message) -> (r: Result<u32, Error>)
        ensures
            ({
                let p = match message.headers.partition_hint { Some(p) => p, None => 0 };
                &&& r == Ok::<u32, Error>(p)
                &&& final(self).storage.contents() == old(self).storage.contents().insert(
                    decimal(p as nat), old(self).storage.partition(p).push(message@))
                &&& final(self).node_id == old(self).node_id
                &&& final(self).config == old(self).config
                &&& final(self).partition_manager == old(self).partition_manager
            }),
    {
        let partition = self.partition_manager.get_partition_for_message(&message)?;
        self.storage.store_message(partition, message)?;
        Ok(partition)
    }

    /// Where the broker listens: every interface, at the broker port.
    pub fn listen_address(&self) -> (r: String)
        ensures
            r@ == "0.0.0.0:"@ + decimal(self.config.broker_port as nat),
    {
        let mut s = String::from_str("0.0.0.0:");
        let digits = u64_to_string(self.config.broker_port as u64);
        s.append(digits.as_str());
        proof { reveal_strlit("0.0.0.0:"); }
        s
    }
}

} // verus!
