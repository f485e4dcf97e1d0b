//! A broker that owns one partition out of a fixed number: it refuses keys
//! of other partitions, numbers the messages it accepts, and keeps the
//! subscribers of each topic and the offset each consumer has reached.
use vstd::prelude::*;
use vstd::string::*;
use crate::collections::StringMap;
use crate::platform::{new_uuid_string, is_v4_uuid_text, now_unix_secs};
use crate::text::{decimal, signed_decimal, u64_to_string, i64_to_string};
use crate::rpc::proto::{PublishRequest, PublishResponse, ConsumeResponse, Status, StatusCode, SubscribeRequest, SubscribeResponse, UpdateOffsetRequest, UpdateOffsetResponse, RegisterRequest, RegisterResponse, AcknowledgeRequest, AcknowledgeResponse};

verus! {

/// The sum of the bytes of `b`.
pub open spec fn byte_sum(b: Seq<u8>) -> int
    decreases b.len(),
{
    if b.len() == 0 { 0 } else { byte_sum(b.drop_last()) + b.last() as int }
}

/// The hash of a message key: the sum of its UTF-8 bytes, modulo 2^32.
pub open spec fn key_hash(key: Seq<char>) -> int {
    byte_sum(vstd::utf8::encode_utf8(key)) % 0x1_0000_0000
}

/// The partition that a key belongs to among `total` partitions.
pub open spec fn key_partition(key: Seq<char>, total: int) -> int {
    key_hash(key) % total
}

/// `key.bytes().fold(0u32, |acc, b| acc.wrapping_add(b as u32))`.
pub fn hash_key(key: &str) -> (h: u32)
    ensures
        h as int == key_hash(key@),
{
    let bytes = key.as_bytes();
    let mut acc: u32 = 0;
    let mut i: usize = 0;
    while i < bytes.len()
        invariant
            i <= bytes@.len(),
            bytes@ == vstd::utf8::encode_utf8(key@),
            acc as int == byte_sum(bytes@.take(i as int)) % 0x1_0000_0000,
        decreases bytes@.len() - i,
    {
        let ghost pre = bytes@.take(i as int);
        assert(bytes@.take(i + 1).drop_last() =~= pre);
        acc = acc.wrapping_add(bytes[i] as u32);
        proof {
            let s = byte_sum(pre);
            lemma_byte_sum_nonneg(pre);
            assert(byte_sum(bytes@.take(i + 1)) == s + bytes@[i as int] as int);
            assert((s % 0x1_0000_0000 + bytes@[i as int] as int) % 0x1_0000_0000 == (s + bytes@[i as int] as int) % 0x1_0000_0000) by (nonlinear_arith)
                requires s >= 0;
        }
        i = i + 1;
    }
    assert(bytes@.take(bytes@.len() as int) =~= bytes@);
    acc
}

proof fn lemma_byte_sum_nonneg(b: Seq<u8>)
    ensures
        byte_sum(b) >= 0,
    decreases b.len(),
{
    if b.len() > 0 {
        lemma_byte_sum_nonneg(b.drop_last());
    }
}

/// The number of messages a consumer stream holds back.
pub const BROADCAST_CAPACITY: usize = 16384;

pub struct Broker {
    topics: StringMap<Vec<String>>,
    message_counter: usize,
    broadcast_capacity: usize,
    partition_id: u32,
    total_partitions: u32,
    consumer_offsets: StringMap<StringMap<i64>>,
}

/// The consumers of a topic, as a set.
pub open spec fn subscriber_set(v: Seq<String>) -> Set<Seq<char>> {
    v.map_values(|s: String| s@).to_set()
}

impl Broker {
    pub closed spec fn wf(&self) -> bool {
        &&& self.topics.wf()
        &&& self.broadcast_capacity == BROADCAST_CAPACITY
        &&& self.consumer_offsets.wf()
        &&& forall|c: Seq<char>| #[trigger] self.consumer_offsets@.contains_key(c) ==> self.consumer_offsets@[c].wf()
    }

    pub closed spec fn partition_id(&self) -> u32 {
        self.partition_id
    }

    pub closed spec fn total_partitions(&self) -> u32 {
        self.total_partitions
    }

    /// The number of the next message accepted.
    pub closed spec fn counter(&self) -> usize {
        self.message_counter
    }

    /// The topics known, each with its subscribers.
    pub closed spec fn topics(&self) -> Map<Seq<char>, Set<Seq<char>>> {
        self.topics@.map_values(|v: Vec<String>| subscriber_set(v@))
    }

    /// The offset that `consumer` has reached in `topic`, if one was set.
    pub closed spec fn offset(&self, consumer: Seq<char>, topic: Seq<char>) -> Option<i64> {
        if self.consumer_offsets@.contains_key(consumer) && self.consumer_offsets@[consumer]@.contains_key(topic) {
            Some(self.consumer_offsets@[consumer]@[topic])
        } else {
            None
        }
    }

    /// A broker for partition `partition_id` of `total_partitions`, with no
    /// topics and no offsets.
    pub fn new(partition_id: u32, total_partitions: u32) -> (b: Broker)
        ensures
            b.wf(),
            b.partition_id() == partition_id,
            b.total_partitions() == total_partitions,
            b.counter() == 0,
            b.topics().dom() == Set::<Seq<char>>::empty(),
            forall|c: Seq<char>, t: Seq<char>| b.offset(c, t) is None,
    {
        let b = Broker {
            topics: StringMap::new(),
            message_counter: 0,
            broadcast_capacity: BROADCAST_CAPACITY,
            partition_id,
            total_partitions,
            consumer_offsets: StringMap::new(),
        };
        assert(b.topics().dom() =~= Set::<Seq<char>>::empty());
        b
    }

    /// The partition this broker serves.
    pub fn get_partition_id(&self) -> (p: u32)
        ensures
            p == self.partition_id(),
    {
        self.partition_id
    }

    /// How many partitions the topic space has.
    pub fn get_total_partitions(&self) -> (n: u32)
        ensures
            n == self.total_partitions(),
    {
        self.total_partitions
    }

    /// How many messages a partition's channel holds for slow consumers.
    pub fn get_broadcast_capacity(&self) -> (c: usize)
        requires
            self.wf(),
        ensures
            c == BROADCAST_CAPACITY,
    {
        self.broadcast_capacity
    }

    /// Whether a message with this key belongs to the broker's partition.
    pub fn owns_partition(&self, message_key: &str) -> (b: bool)
        requires
            self.total_partitions() > 0,
        ensures
            b == (key_partition(message_key@, self.total_partitions() as int) == self.partition_id() as int),
    {
        let hash = hash_key(message_key);
        hash % self.total_partitions == self.partition_id
    }

    /// Makes `topic` known, with no subscribers, if it is not.
    fn ensure_topic(&mut self, topic: &String)
        requires
            old(self).wf(),
        ensures
            final(self).wf(),
            final(self).topics() == (if old(self).topics().contains_key(topic@) {
                old(self).topics()
            } else {
                old(self).topics().insert(topic@, Set::empty())
            }),
            final(self).counter() == old(self).counter(),
            final(self).partition_id() == old(self).partition_id(),
            final(self).total_partitions() == old(self).total_partitions(),
            forall|c: Seq<char>, t: Seq<char>| final(self).offset(c, t) == old(self).offset(c, t),
    {
        if !self.topics.contains_key(topic) {
            let subscribers: Vec<String> = Vec::new();
            self.topics.insert(topic.clone(), subscribers);
            assert(subscriber_set(subscribers@) =~= Set::<Seq<char>>::empty());
            assert(self.topics() =~= old(self).topics().insert(topic@, Set::empty()));
        }
    }

    /// Accepts a message for `req.topic` if its key belongs to this
    /// partition: the topic becomes known, the message gets a fresh id and
    /// the next offset, and the reply and the message for the consumers come
    /// back. A key of another partition is refused with the partition it
    /// belongs to.
    pub fn publish(&mut self, req: PublishRequest) -> (r: Result<(PublishResponse, ConsumeResponse), Status>)
        requires
            old(self).wf(),
            old(self).total_partitions() > 0,
        ensures
            publish_outcome(*old(self), req, r, *final(self)),
    {
        proof {
            reveal_strlit("Message belongs to partition ");
            reveal_strlit(" not ");
            reveal_strlit("Published successfully to partition ");
            reveal_strlit(" with offset ");
        }
        let hash = hash_key(req.key.as_str());
        let owner = hash % self.total_partitions;
        if owner != self.partition_id {
            let mut text = String::from_str("Message belongs to partition ");
            let a = u64_to_string(owner as u64);
            text.append(a.as_str());
            text.append(" not ");
            let b = u64_to_string(self.partition_id as u64);
            text.append(b.as_str());
            return Err(Status { code: StatusCode::FailedPrecondition, message: text });
        }
        self.ensure_topic(&req.topic);
        let message_id = new_uuid_string();
        let offset = #[verifier::truncate] (self.message_counter as i64);
        let ghost c0 = self.message_counter;
        self.message_counter = self.message_counter.wrapping_add(1);
        proof {
            if c0 == usize::MAX {
                vstd::arithmetic::div_mod::lemma_mod_self_0(usize::MAX as int + 1);
            } else {
                vstd::arithmetic::div_mod::lemma_small_mod((c0 + 1) as nat, (usize::MAX as int + 1) as nat);
            }
            assert(self.message_counter == (c0 + 1) % (usize::MAX as int + 1));
        }
        let out = ConsumeResponse {
            message_id: message_id.clone(),
            topic: req.topic,
            payload: req.payload,
            sent_at: now_unix_secs(),
            offset,
        };
        let mut text = String::from_str("Published successfully to partition ");
        let p = u64_to_string(self.partition_id as u64);
        text.append(p.as_str());
        text.append(" with offset ");
        let o = i64_to_string(offset);
        text.append(o.as_str());
        let reply = PublishResponse {
            message_id,
            success: true,
            message: text,
            partition: self.partition_id as i32,
            offset,
        };
        Ok((reply, out))
    }

    /// Registers a client: every client is welcome.
    pub fn register(&self, req: RegisterRequest) -> (r: Result<RegisterResponse, Status>)
        ensures
            r matches Ok(reply) && reply.success && reply.message@ == "Registered successfully"@,
    {
        proof { reveal_strlit("Registered successfully"); }
        Ok(RegisterResponse { success: true, message: String::from_str("Registered successfully") })
    }

    /// Adds `req.consumer_id` to the subscribers of `req.topic`, making the
    /// topic known if it is not.
    pub fn subscribe(&mut self, req: SubscribeRequest) -> (r: Result<SubscribeResponse, Status>)
        requires
            old(self).wf(),
        ensures
            final(self).wf(),
            r matches Ok(reply) && reply.success && reply.message@ == "Subscribed successfully"@,
            final(self).topics() == old(self).topics().insert(
                req.topic@,
                (if old(self).topics().contains_key(req.topic@) { old(self).topics()[req.topic@] } else { Set::empty() }).insert(req.consumer_id@),
            ),
            final(self).counter() == old(self).counter(),
            final(self).partition_id() == old(self).partition_id(),
            final(self).total_partitions() == old(self).total_partitions(),
            forall|c: Seq<char>, t: Seq<char>| final(self).offset(c, t) == old(self).offset(c, t),
    {
        proof { reveal_strlit("Subscribed successfully"); }
        self.ensure_topic(&req.topic);
        let ghost mid = self.topics();
        let mut subscribers = match self.topics.remove(&req.topic) {
            Some(v) => v,
            None => Vec::new(),
        };
        let ghost before = subscribers@;
        let mut found = false;
        let mut i: usize = 0;
        while i < subscribers.len()
            invariant
                i <= subscribers@.len(),
                subscribers@ == before,
                found == exists|j: int| 0 <= j < i && subscribers@[j]@ == req.consumer_id@,
            decreases subscribers@.len() - i,
        {
            if subscribers[i] == req.consumer_id {
                found = true;
            }
            i = i + 1;
        }
        if !found {
            subscribers.push(req.consumer_id.clone());
            proof {
                let vs = before.map_values(|s: String| s@);
                assert(subscribers@.map_values(|s: String| s@) =~= vs.push(req.consumer_id@));
                vs.lemma_push_to_set_commute(req.consumer_id@);
                assert(subscriber_set(subscribers@) =~= subscriber_set(before).insert(req.consumer_id@));
            }
        } else {
            proof {
                let j = choose|j: int| 0 <= j < before.len() && before[j]@ == req.consumer_id@;
                let vs = before.map_values(|s: String| s@);
                assert(vs[j] == req.consumer_id@);
                assert(subscriber_set(before).contains(req.consumer_id@));
                assert(subscriber_set(subscribers@) =~= subscriber_set(before).insert(req.consumer_id@));
            }
        }
        self.topics.insert(req.topic, subscribers);
        proof {
            assert(mid.contains_key(req.topic@));
            assert(mid[req.topic@] == subscriber_set(before));
            assert(self.topics() =~= mid.insert(req.topic@, subscriber_set(before).insert(req.consumer_id@)));
        }
        Ok(SubscribeResponse { success: true, message: String::from_str("Subscribed successfully") })
    }

    /// Records that `consumer_id` has reached `offset` in `topic`.
    fn set_consumer_offset(&mut self, consumer_id: &String, topic: &String, offset: i64)
        requires
            old(self).wf(),
        ensures
            final(self).wf(),
            final(self).offset(consumer_id@, topic@) == Some(offset),
            forall|c: Seq<char>, t: Seq<char>| !(c == consumer_id@ && t == topic@) ==> #[trigger] final(self).offset(c, t) == old(self).offset(c, t),
            final(self).topics() == old(self).topics(),
            final(self).counter() == old(self).counter(),
            final(self).partition_id() == old(self).partition_id(),
            final(self).total_partitions() == old(self).total_partitions(),
    {
        let ghost outer = self.consumer_offsets@;
        let mut per_topic = match self.consumer_offsets.remove(consumer_id) {
            Some(m) => m,
            None => StringMap::new(),
        };
        let ghost inner = per_topic@;
        assert(outer.contains_key(consumer_id@) ==> inner == outer[consumer_id@]@);
        per_topic.insert(topic.clone(), offset);
        self.consumer_offsets.insert(consumer_id.clone(), per_topic);
        proof {
            assert forall|c: Seq<char>, t: Seq<char>| !(c == consumer_id@ && t == topic@) implies #[trigger] self.offset(c, t) == old(self).offset(c, t) by {
                if c != consumer_id@ {
                    assert(self.consumer_offsets@[c] == outer[c]) by {
                        if self.consumer_offsets@.contains_key(c) {}
                    }
                }
            }
        }
    }

    /// The offset that `consumer_id` has reached in `topic`, and -1 when it
    /// has not recorded one.
    pub fn get_consumer_offset(&self, consumer_id: &String, topic: &String) -> (o: i64)
        requires
            self.wf(),
        ensures
            o == match self.offset(consumer_id@, topic@) { Some(v) => v, None => -1i64 },
    {
        match self.consumer_offsets.get(consumer_id) {
            Some(m) => match m.get(topic) {
                Some(v) => *v,
                None => -1,
            },
            None => -1,
        }
    }

    /// Records the offset that a consumer has reached in a known topic. A
    /// negative offset is an invalid argument; an unknown topic is not found.
    pub fn update_offset(&mut self, req: UpdateOffsetRequest) -> (r: Result<UpdateOffsetResponse, Status>)
        requires
            old(self).wf(),
        ensures
            final(self).wf(),
            final(self).topics() == old(self).topics(),
            final(self).counter() == old(self).counter(),
            final(self).partition_id() == old(self).partition_id(),
            final(self).total_partitions() == old(self).total_partitions(),
            req.offset < 0 ==> (r matches Err(s) && s.code == StatusCode::InvalidArgument && s.message@ == "Offset cannot be negative"@),
            req.offset >= 0 && !old(self).topics().contains_key(req.topic@) ==> (r matches Err(s)
                && s.code == StatusCode::NotFound && s.message@ == "Topic "@ + req.topic@ + " not found"@),
            r is Err ==> forall|c: Seq<char>, t: Seq<char>| final(self).offset(c, t) == old(self).offset(c, t),
            req.offset >= 0 && old(self).topics().contains_key(req.topic@) ==> {
                &&& r matches Ok(reply) && reply.success && reply.message@ == "Offset updated to "@ + signed_decimal(req.offset as int)
                &&& final(self).offset(req.consumer_id@, req.topic@) == Some(req.offset)
                &&& forall|c: Seq<char>, t: Seq<char>| !(c == req.consumer_id@ && t == req.topic@) ==> #[trigger] final(self).offset(c, t) == old(self).offset(c, t)
            },
    {
        proof {
            reveal_strlit("Offset cannot be negative");
            reveal_strlit("Topic ");
            reveal_strlit(" not found");
            reveal_strlit("Offset updated to ");
        }
        if req.offset < 0 {
            return Err(Status { code: StatusCode::InvalidArgument, message: String::from_str("Offset cannot be negative") });
        }
        if !self.topics.contains_key(&req.topic) {
            let mut text = String::from_str("Topic ");
            text.append(req.topic.as_str());
            text.append(" not found");
            return Err(Status { code: StatusCode::NotFound, message: text });
        }
        self.set_consumer_offset(&req.consumer_id, &req.topic, req.offset);
        let mut text = String::from_str("Offset updated to ");
        let o = i64_to_string(req.offset);
        text.append(o.as_str());
        Ok(UpdateOffsetResponse { success: true, message: text })
    }

    /// Acknowledges a message: every acknowledgement is taken.
    pub fn acknowledge(&self, req: AcknowledgeRequest) -> (r: Result<AcknowledgeResponse, Status>)
        ensures
            r matches Ok(reply) && reply.success && reply.message@ == "Message acknowledged"@,
    {
        proof { reveal_strlit("Message acknowledged"); }
        Ok(AcknowledgeResponse { success: true, message: String::from_str("Message acknowledged") })
    }
}

/// Of the partitions `0..total`, exactly one accepts a given key: the one
/// `key_partition` names.
pub proof fn lemma_one_owner(key: Seq<char>, total: int, p: int, q: int)
    requires
        total > 0,
        0 <= p < total,
        0 <= q < total,
        key_partition(key, total) == p,
        key_partition(key, total) == q,
    ensures
        p == q,
        0 <= key_partition(key, total) < total,
{
}

/// An offset that `update_offset` accepted is what `get_consumer_offset`
/// gives back for that consumer and topic, until another update.
pub proof fn lemma_offset_read_after_write(before: Broker, after: Broker, req: UpdateOffsetRequest, c: Seq<char>, t: Seq<char>)
    requires
        req.offset >= 0,
        before.topics().contains_key(req.topic@),
        after.offset(req.consumer_id@, req.topic@) == Some(req.offset),
        forall|c2: Seq<char>, t2: Seq<char>| !(c2 == req.consumer_id@ && t2 == req.topic@) ==> #[trigger] after.offset(c2, t2) == before.offset(c2, t2),
    ensures
        (match after.offset(req.consumer_id@, req.topic@) { Some(v) => v, None => -1i64 }) == req.offset,
        !(c == req.consumer_id@ && t == req.topic@) ==> after.offset(c, t) == before.offset(c, t),
{
}

/// What `publish` does: from `before` the broker went to `after`, and `r`
/// came back, for `req`. A key of another partition is refused with
/// `FailedPrecondition` and changes nothing; a key of this one is accepted:
/// the topic becomes known, the counter advances, and the reply and the
/// message for the consumers carry a fresh id and the counter before the
/// call as offset. Consumer offsets never change.
pub open spec fn publish_outcome(before: Broker, req: PublishRequest, r: Result<(PublishResponse, ConsumeResponse), Status>, after: Broker) -> bool {
    let owner = key_partition(req.key@, before.total_partitions() as int);
    let offset = before.counter() as i64;
    &&& after.wf()
    &&& after.partition_id() == before.partition_id()
    &&& after.total_partitions() == before.total_partitions()
    &&& forall|c: Seq<char>, t: Seq<char>| after.offset(c, t) == before.offset(c, t)
    &&& match r {
        Err(s) => {
            &&& owner != before.partition_id()
            &&& s.code == StatusCode::FailedPrecondition
            &&& s.message@ == "Message belongs to partition "@ + decimal(owner as nat) + " not "@ + decimal(before.partition_id() as nat)
            &&& after.topics() == before.topics()
            &&& after.counter() == before.counter()
        },
        Ok((reply, out)) => {
            &&& owner == before.partition_id()
            &&& after.topics() == (if before.topics().contains_key(req.topic@) {
                    before.topics()
                } else {
                    before.topics().insert(req.topic@, Set::empty())
                })
            &&& after.counter() == (before.counter() + 1) % (usize::MAX as int + 1)
            &&& is_v4_uuid_text(reply.message_id@)
            &&& reply.success
            &&& reply.partition == before.partition_id() as i32
            &&& reply.offset == offset
            &&& reply.message@ == "Published successfully to partition "@ + decimal(before.partition_id() as nat)
                    + " with offset "@ + signed_decimal(offset as int)
            &&& out.message_id@ == reply.message_id@
            &&& out.topic@ == req.topic@
            &&& out.payload == req.payload
            &&& out.offset == offset
        },
    }
}

/// How many of the first `i` publishes were accepted.
pub open spec fn accepted_before(offsets: Seq<Option<i64>>, i: int) -> int
    decreases i,
{
    if i <= 0 {
        0
    } else {
        accepted_before(offsets, i - 1) + if offsets[i - 1] is Some { 1int } else { 0 }
    }
}

/// The offsets that a run of publish results gave: `None` for a refusal.
pub open spec fn result_offsets(results: Seq<Result<(PublishResponse, ConsumeResponse), Status>>) -> Seq<Option<i64>> {
    results.map_values(|r: Result<(PublishResponse, ConsumeResponse), Status>| match r {
        Ok((reply, _)) => Some(reply.offset),
        Err(_) => None,
    })
}

/// Offsets run 0, 1, 2, ... with no gaps: over a run of `publish` calls on
/// a broker made by `new` (counter 0), the accepted call that follows `k`
/// accepted ones replies with success, this partition, offset `k` and the
/// text "Published successfully to partition p with offset k", and hands
/// the consumers the message with that offset; refused calls take no
/// offset. `states` are the broker before and after each call.
pub proof fn lemma_offsets_without_gaps(
    states: Seq<Broker>,
    reqs: Seq<PublishRequest>,
    results: Seq<Result<(PublishResponse, ConsumeResponse), Status>>,
)
    requires
        states.len() == results.len() + 1,
        reqs.len() == results.len(),
        states[0].counter() == 0,
        results.len() < usize::MAX,
        results.len() <= i64::MAX,
        forall|i: int| 0 <= i < results.len() ==> #[trigger] publish_outcome(states[i], reqs[i], results[i], states[i + 1]),
    ensures
        forall|i: int| 0 <= i < results.len() ==> (#[trigger] results[i] matches Ok((reply, out)) ==> {
            let k = accepted_before(result_offsets(results), i);
            &&& reply.success
            &&& reply.partition == states[0].partition_id() as i32
            &&& reply.offset == k
            &&& reply.message@ == "Published successfully to partition "@ + decimal(states[0].partition_id() as nat)
                    + " with offset "@ + signed_decimal(k)
            &&& out.offset == k
            &&& out.message_id@ == reply.message_id@
        }),
{
    let offsets = result_offsets(results);
    assert forall|i: int| 0 <= i < offsets.len() implies match #[trigger] offsets[i] {
        Some(o) => o == states[i].counter() as i64
            && states[i + 1].counter() == (states[i].counter() + 1) % (usize::MAX as int + 1),
        None => states[i + 1].counter() == states[i].counter(),
    } by {
        assert(publish_outcome(states[i], reqs[i], results[i], states[i + 1]));
    }
    lemma_counter_counts_accepted(states, offsets, offsets.len() as int);
    lemma_same_partition(states, reqs, results, results.len() as int);
    assert forall|i: int| 0 <= i < results.len() implies (#[trigger] results[i] matches Ok((reply, out)) ==> {
        let k = accepted_before(result_offsets(results), i);
        &&& reply.success
        &&& reply.partition == states[0].partition_id() as i32
        &&& reply.offset == k
        &&& reply.message@ == "Published successfully to partition "@ + decimal(states[0].partition_id() as nat)
                + " with offset "@ + signed_decimal(k)
        &&& out.offset == k
        &&& out.message_id@ == reply.message_id@
    }) by {
        assert(publish_outcome(states[i], reqs[i], results[i], states[i + 1]));
        assert(offsets[i] == (match results[i] { Ok((reply, _)) => Some(reply.offset), Err(_) => None::<i64> }));
    }
}

/// A run of publishes keeps the broker's partition.
proof fn lemma_same_partition(
    states: Seq<Broker>,
    reqs: Seq<PublishRequest>,
    results: Seq<Result<(PublishResponse, ConsumeResponse), Status>>,
    k: int,
)
    requires
        0 <= k <= results.len(),
        states.len() == results.len() + 1,
        reqs.len() == results.len(),
        forall|i: int| 0 <= i < results.len() ==> #[trigger] publish_outcome(states[i], reqs[i], results[i], states[i + 1]),
    ensures
        forall|i: int| 0 <= i <= k ==> (#[trigger] states[i]).partition_id() == states[0].partition_id(),
    decreases k,
{
    if k > 0 {
        lemma_same_partition(states, reqs, results, k - 1);
        let j = k - 1;
        assert(publish_outcome(states[j], reqs[j], results[j], states[j + 1]));
    }
}

/// The counter after the first `k` calls is the number accepted among them.
proof fn lemma_counter_counts_accepted(states: Seq<Broker>, offsets: Seq<Option<i64>>, k: int)
    requires
        0 <= k <= offsets.len(),
        states.len() == offsets.len() + 1,
        states[0].counter() == 0,
        offsets.len() < usize::MAX,
        offsets.len() <= i64::MAX,
        forall|i: int| 0 <= i < offsets.len() ==> match #[trigger] offsets[i] {
            Some(o) => o == states[i].counter() as i64
                && states[i + 1].counter() == (states[i].counter() + 1) % (usize::MAX as int + 1),
            None => states[i + 1].counter() == states[i].counter(),
        },
    ensures
        states[k].counter() == accepted_before(offsets, k),
        accepted_before(offsets, k) <= k,
        forall|i: int| 0 <= i < k ==> (#[trigger] offsets[i] matches Some(o) ==> o == accepted_before(offsets, i)),
    decreases k,
{
    if k > 0 {
        lemma_counter_counts_accepted(states, offsets, k - 1);
        let c = states[k - 1].counter() as int;
        assert(c < usize::MAX);
        match offsets[k - 1] {
            Some(o) => {
                assert(states[k].counter() == (c + 1) % (usize::MAX as int + 1));
                let m = usize::MAX as int + 1;
                assert(0 <= c + 1 < m);
                vstd::arithmetic::div_mod::lemma_small_mod((c + 1) as nat, m as nat);
            },
            None => {
                assert(states[k].counter() == c);
            },
        }
    }
}

} // verus!
