//! A consumer that joins a group: it announces itself, takes the partitions
//! and starting offsets that the broker assigns, and moves each partition's
//! offset on by one for every message it takes from that partition.
use vstd::prelude::*;
use vstd::string::*;
use std::collections::HashMap;
use crate::rafka_core::{Message, MessageType, NetworkMessage, MessageView};
use crate::rafka_core::message::message_views;
use crate::platform::{new_uuid_string, is_v4_uuid_text};

verus! {

broadcast use vstd::std_specs::hash::group_hash_axioms;

/// Where the consumer stands in one partition.
#[derive(Clone, Copy, Debug, PartialEq, Eq, Structural)]
pub struct PartitionConsumer {
    pub partition: u32,
    pub current_offset: u64,
}

/// The assignments after taking the pairs of `assignment` in order; a
/// partition named twice keeps its last offset.
pub open spec fn assigned_after(before: Map<u32, PartitionConsumer>, assignment: Seq<(u32, u64)>) -> Map<u32, PartitionConsumer>
    decreases assignment.len(),
{
    if assignment.len() == 0 {
        before
    } else {
        let (p, o) = assignment.last();
        assigned_after(before, assignment.drop_last()).insert(p, PartitionConsumer { partition: p, current_offset: o })
    }
}

/// The messages of the drained partitions, one partition after another.
pub open spec fn drained_messages(drained: Seq<(u32, Seq<MessageView>)>) -> Seq<MessageView>
    decreases drained.len(),
{
    if drained.len() == 0 {
        Seq::empty()
    } else {
        drained_messages(drained.drop_last()) + drained.last().1
    }
}

/// The assignments after each drained partition that is assigned moved its
/// offset on by the number of messages taken from it.
pub open spec fn advanced(before: Map<u32, PartitionConsumer>, drained: Seq<(u32, Seq<MessageView>)>) -> Map<u32, PartitionConsumer>
    decreases drained.len(),
{
    if drained.len() == 0 {
        before
    } else {
        let m = advanced(before, drained.drop_last());
        let (p, msgs) = drained.last();
        if m.contains_key(p) {
            m.insert(p, PartitionConsumer { partition: m[p].partition, current_offset: (m[p].current_offset + msgs.len()) as u64 })
        } else {
            m
        }
    }
}

pub open spec fn drained_views(v: Seq<(u32, Vec<Message>)>) -> Seq<(u32, Seq<MessageView>)> {
    v.map_values(|e: (u32, Vec<Message>)| (e.0, message_views(e.1@)))
}

/// A partition that no drained entry names keeps its assignment.
proof fn lemma_advanced_untouched(before: Map<u32, PartitionConsumer>, drained: Seq<(u32, Seq<MessageView>)>, p: u32)
    requires
        !drained.map_values(|e: (u32, Seq<MessageView>)| e.0).contains(p),
    ensures
        advanced(before, drained).contains_key(p) == before.contains_key(p),
        before.contains_key(p) ==> advanced(before, drained)[p] == before[p],
    decreases drained.len(),
{
    if drained.len() > 0 {
        let ids = drained.map_values(|e: (u32, Seq<MessageView>)| e.0);
        assert(drained.drop_last().map_values(|e: (u32, Seq<MessageView>)| e.0) =~= ids.drop_last());
        if ids.drop_last().contains(p) {
            let k = choose|k: int| 0 <= k < ids.drop_last().len() && ids.drop_last()[k] == p;
            assert(ids[k] == p);
        }
        assert(ids[ids.len() - 1] == drained.last().0);
        lemma_advanced_untouched(before, drained.drop_last(), p);
    }
}

pub struct Consumer {
    pub node_id: String,
    pub assigned_partitions: HashMap<u32, PartitionConsumer>,
    pub group_id: Option<String>,
}

impl Consumer {
    /// A consumer with a fresh random id, no partitions and no group.
    pub fn new() -> (c: Consumer)
        ensures
            is_v4_uuid_text(c.node_id@),
            c.assigned_partitions@ == Map::<u32, PartitionConsumer>::empty(),
            c.group_id is None,
    {
        Consumer { node_id: new_uuid_string(), assigned_partitions: HashMap::new(), group_id: None }
    }

    /// Joins `group_id`: records the group and returns the request to send,
    /// a join-group message from this consumer whose payload is a message
    /// of the topic `system` with the group id's bytes.
    pub fn join_group(&mut self, group_id: String) -> (r: NetworkMessage)
        ensures
            final(self).group_id == Some(group_id),
            final(self).node_id == old(self).node_id,
            final(self).assigned_partitions@ == old(self).assigned_partitions@,
            r.msg_type == MessageType::JoinGroup,
            r.source_node == old(self).node_id,
            r.target_node is None,
            r.payload.topic@ == "system"@,
            r.payload.key is None,
            r.payload.payload@ == vstd::utf8::encode_utf8(group_id@),
            is_v4_uuid_text(r.payload.id@),
    {
        let bytes = group_id.as_str().as_bytes_vec();
        self.group_id = Some(group_id);
        proof { reveal_strlit("system"); }
        let payload = Message::new(String::from_str("system"), None, bytes);
        NetworkMessage {
            msg_type: MessageType::JoinGroup,
            source_node: self.node_id.clone(),
            target_node: None,
            payload,
        }
    }

    /// Takes the partitions that the broker assigned, each with the offset
    /// to start from.
    pub fn handle_partition_assignment(&mut self, assignment: &Vec<(u32, u64)>)
        ensures
            final(self).assigned_partitions@ == assigned_after(old(self).assigned_partitions@, assignment@),
            final(self).node_id == old(self).node_id,
            final(self).group_id == old(self).group_id,
    {
        let mut i: usize = 0;
        while i < assignment.len()
            invariant
                i <= assignment@.len(),
                self.assigned_partitions@ == assigned_after(old(self).assigned_partitions@, assignment@.take(i as int)),
                self.node_id == old(self).node_id,
                self.group_id == old(self).group_id,
            decreases assignment@.len() - i,
        {
            let (partition, offset) = assignment[i];
            assert(assignment@.take(i as int + 1).drop_last() =~= assignment@.take(i as int));
            self.assigned_partitions.insert(partition, PartitionConsumer { partition, current_offset: offset });
            i = i + 1;
        }
        assert(assignment@.take(assignment@.len() as int) =~= assignment@);
    }

    /// Moves the offset of `partition` on by one, for a message taken from
    /// it; a partition that is not assigned is left alone.
    pub fn advance_offset(&mut self, partition: u32)
        requires
            old(self).assigned_partitions@.contains_key(partition) ==> old(self).assigned_partitions@[partition].current_offset < u64::MAX,
        ensures
            final(self).node_id == old(self).node_id,
            final(self).group_id == old(self).group_id,
            old(self).assigned_partitions@.contains_key(partition) ==> final(self).assigned_partitions@ == old(self).assigned_partitions@.insert(partition, PartitionConsumer {
                partition: old(self).assigned_partitions@[partition].partition,
                current_offset: (old(self).assigned_partitions@[partition].current_offset + 1) as u64,
            }),
            !old(self).assigned_partitions@.contains_key(partition) ==> final(self).assigned_partitions@ == old(self).assigned_partitions@,
    {
        match self.assigned_partitions.get(&partition) {
            Some(pc) => {
                let updated = PartitionConsumer { partition: pc.partition, current_offset: pc.current_offset + 1 };
                self.assigned_partitions.insert(partition, updated);
            },
            None => {},
        }
    }

    /// Takes the messages drained from the assigned partitions' channels,
    /// each partition once: they come back one partition after another,
    /// and each assigned partition's offset moves on by one per message.
    pub fn poll_messages(&mut self, drained: Vec<(u32, Vec<Message>)>) -> (r: Vec<Message>)
        requires
            drained_views(drained@).map_values(|e: (u32, Seq<MessageView>)| e.0).no_duplicates(),
            forall|i: int| 0 <= i < drained@.len() && old(self).assigned_partitions@.contains_key(#[trigger] drained@[i].0) ==>
                old(self).assigned_partitions@[drained@[i].0].current_offset + drained@[i].1@.len() <= u64::MAX,
        ensures
            message_views(r@) == drained_messages(drained_views(drained@)),
            final(self).assigned_partitions@ == advanced(old(self).assigned_partitions@, drained_views(drained@)),
            final(self).node_id == old(self).node_id,
            final(self).group_id == old(self).group_id,
    {
        let ghost d = drained_views(drained@);
        let ghost ids = d.map_values(|e: (u32, Seq<MessageView>)| e.0);
        let ghost start = self.assigned_partitions@;
        let mut out: Vec<Message> = Vec::new();
        let mut i: usize = 0;
        while i < drained.len()
            invariant
                d == drained_views(drained@),
                ids == d.map_values(|e: (u32, Seq<MessageView>)| e.0),
                ids.no_duplicates(),
                start == old(self).assigned_partitions@,
                forall|k: int| 0 <= k < drained@.len() && start.contains_key(#[trigger] drained@[k].0) ==>
                    start[drained@[k].0].current_offset + drained@[k].1@.len() <= u64::MAX,
                i <= drained@.len(),
                message_views(out@) == drained_messages(d.take(i as int)),
                self.assigned_partitions@ == advanced(start, d.take(i as int)),
                forall|k: int| i <= k < drained@.len() ==> !d.take(i as int).map_values(|e: (u32, Seq<MessageView>)| e.0).contains(#[trigger] d[k].0),
                self.node_id == old(self).node_id,
                self.group_id == old(self).group_id,
            decreases drained@.len() - i,
        {
            let p = drained[i].0;
            let ghost pre = d.take(i as int);
            assert(d.take(i as int + 1).drop_last() =~= pre);
            assert(d.take(i as int + 1).last() == d[i as int]);
            assert(d[i as int].0 == p);
            proof {
                lemma_advanced_untouched(start, pre, p);
            }
            let mut j: usize = 0;
            let ghost before_out = message_views(out@);
            let ghost before_map = self.assigned_partitions@;
            while j < drained[i].1.len()
                invariant
                    d == drained_views(drained@),
                    i < drained@.len(),
                    p == drained@[i as int].0,
                    j <= drained@[i as int].1@.len(),
                    message_views(out@) == before_out + d[i as int].1.take(j as int),
                    before_map.contains_key(p) ==> before_map[p] == start[p],
                    before_map.contains_key(p) ==> start[p].current_offset + drained@[i as int].1@.len() <= u64::MAX,
                    before_map.contains_key(p) ==> self.assigned_partitions@ == before_map.insert(p, PartitionConsumer {
                        partition: before_map[p].partition,
                        current_offset: (before_map[p].current_offset + j) as u64,
                    }),
                    !before_map.contains_key(p) ==> self.assigned_partitions@ == before_map,
                    self.node_id == old(self).node_id,
                    self.group_id == old(self).group_id,
                decreases drained@[i as int].1@.len() - j,
            {
                let m = drained[i].1[j].copy();
                assert(m@ == d[i as int].1[j as int]);
                let ghost prev = message_views(out@);
                out.push(m);
                assert(message_views(out@) =~= prev.push(m@));
                assert(d[i as int].1.take(j as int + 1) =~= d[i as int].1.take(j as int).push(m@));
                assert(message_views(out@) =~= before_out + d[i as int].1.take(j as int + 1));
                self.advance_offset(p);
                proof {
                    if before_map.contains_key(p) {
                        assert(self.assigned_partitions@ =~= before_map.insert(p, PartitionConsumer {
                            partition: before_map[p].partition,
                            current_offset: (before_map[p].current_offset + j + 1) as u64,
                        }));
                    }
                }
                j = j + 1;
            }
            assert(d[i as int].1.take(j as int) =~= d[i as int].1);
            assert(message_views(out@) =~= drained_messages(d.take(i as int + 1)));
            proof {
                assert forall|k: int| i + 1 <= k < drained@.len() implies !d.take(i as int + 1).map_values(|e: (u32, Seq<MessageView>)| e.0).contains(#[trigger] d[k].0) by {
                    let q = d.take(i as int + 1).map_values(|e: (u32, Seq<MessageView>)| e.0);
                    if q.contains(d[k].0) {
                        let m = choose|m: int| 0 <= m < q.len() && q[m] == d[k].0;
                        assert(ids[m] == ids[k]);
                    }
                }
            }
            i = i + 1;
        }
        assert(d.take(drained@.len() as int) =~= d);
        out
    }

    /// The offset of `partition`, if it is assigned.
    pub fn offset(&self, partition: u32) -> (r: Option<u64>)
        ensures
            match r {
                Some(o) => self.assigned_partitions@.contains_key(partition) && o == self.assigned_partitions@[partition].current_offset,
                None => !self.assigned_partitions@.contains_key(partition),
            },
    {
        match self.assigned_partitions.get(&partition) {
            Some(pc) => Some(pc.current_offset),
            None => None,
        }
    }
}

} // verus!
