//! The messages a broker holds, by partition.
use vstd::prelude::*;
use crate::rafka_core::{Error, Message};
use crate::rafka_core::message::{MessageView, message_views, copy_messages};
use crate::text::{decimal, u64_to_string};

verus! {

/// The messages that a map of partitions holds, by partition key.
pub uninterp spec fn partition_contents(m: dashmap::DashMap<String, Vec<Message>>) -> Map<Seq<char>, Seq<MessageView>>;

/// `DashMap::new`: no partition holds anything.
#[verifier::external_body]
fn new_partition_map() -> (m: dashmap::DashMap<String, Vec<Message>>)
    ensures
        partition_contents(m).dom() == Set::<Seq<char>>::empty(),
{
    dashmap::DashMap::new()
}

/// `DashMap::get`, copying the messages out.
#[verifier::external_body]
fn get_partition(m: &dashmap::DashMap<String, Vec<Message>>, key: &String) -> (r: Option<Vec<Message>>)
    ensures
        match r {
            Some(v) => partition_contents(*m).contains_key(key@) && message_views(v@) == partition_contents(*m)[key@],
            None => !partition_contents(*m).contains_key(key@),
        },
{
    m.get(key).map(|entry| copy_messages(entry.value()))
}

/// `DashMap::insert`: the messages under `key` become `v`.
#[verifier::external_body]
fn set_partition(m: &mut dashmap::DashMap<String, Vec<Message>>, key: String, v: Vec<Message>)
    ensures
        partition_contents(*final(m)) == partition_contents(*old(m)).insert(key@, message_views(v@)),
{
    m.insert(key, v);
}

/// The key under which a partition's messages are held: its number in
/// decimal.
pub fn partition_key(partition: u32) -> (k: String)
    ensures
        k@ == decimal(partition as nat),
{
    u64_to_string(partition as u64)
}

pub struct Storage {
    messages: dashmap::DashMap<String, Vec<Message>>,
}

impl Storage {
    /// The messages of each partition, by partition key.
    pub closed spec fn contents(&self) -> Map<Seq<char>, Seq<MessageView>> {
        partition_contents(self.messages)
    }

    /// The messages of partition `p`, oldest first.
    pub open spec fn partition(&self, p: u32) -> Seq<MessageView> {
        if self.contents().contains_key(decimal(p as nat)) {
            self.contents()[decimal(p as nat)]
        } else {
            Seq::empty()
        }
    }

    pub fn new() -> (s: Storage)
        ensures
            s.contents() == Map::<Seq<char>, Seq<MessageView>>::empty(),
    {
        let s = Storage { messages: new_partition_map() };
        assert(s.contents() =~= Map::<Seq<char>, Seq<MessageView>>::empty());
        s
    }

    /// Appends `message` to `partition`.
    pub fn store_message(&mut self, partition: u32, message: Message) -> (r: Result<(), Error>)
        ensures
            r is Ok,
            final(self).contents() == old(self).contents().insert(
                decimal(partition as nat),
                old(self).partition(partition).push(message@),
            ),
    {
        let key = partition_key(partition);
        let mut msgs = match get_partition(&self.messages, &key) {
            Some(v) => v,
            None => {
                let v: Vec<Message> = Vec::new();
                assert(message_views(v@) =~= Seq::<MessageView>::empty());
                v
            },
        };
        let ghost before = msgs@;
        let ghost mv = message@;
        msgs.push(message);
        assert(message_views(msgs@) =~= message_views(before).push(mv));
        set_partition(&mut self.messages, key, msgs);
        Ok(())
    }

    /// The messages of `partition`, oldest first; none if nothing was
    /// stored there.
    pub fn get_messages(&self, partition: u32) -> (r: Result<Vec<Message>, Error>)
        ensures
            r matches Ok(v) && message_views(v@) == self.partition(partition),
    {
        let key = partition_key(partition);
        match get_partition(&self.messages, &key) {
            Some(v) => Ok(v),
            None => {
                let v: Vec<Message> = Vec::new();
                assert(message_views(v@) =~= Seq::<MessageView>::empty());
                Ok(v)
            },
        }
    }
}

/// Two partitions never share a key.
pub proof fn lemma_partition_keys_distinct(p: u32, q: u32)
    requires
        p != q,
    ensures
        decimal(p as nat) != decimal(q as nat),
{
    crate::text::lemma_parse_of_decimal(p as nat, u64::MAX as int);
    crate::text::lemma_parse_of_decimal(q as nat, u64::MAX as int);
}

/// What `get_messages` returns for a partition after `store_message` put a
/// message there: the messages that were there, then the new one. Other
/// partitions keep what they had.
pub proof fn lemma_store_then_get(before: Storage, after: Storage, p: u32, m: MessageView, q: u32)
    requires
        after.contents() == before.contents().insert(decimal(p as nat), before.partition(p).push(m)),
    ensures
        after.partition(p) == before.partition(p).push(m),
        q != p ==> after.partition(q) == before.partition(q),
{
    if q != p {
        lemma_partition_keys_distinct(p, q);
    }
}

} // verus!
