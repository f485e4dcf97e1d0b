//! Delivery guarantees: each message is tracked until enough replicas
//! acknowledge it, or until its retries run out.
use vstd::prelude::*;
use vstd::string::*;
use crate::rafka_core::{Error, Message};
use crate::platform::now_unix_nanos;

verus! {

/// How long to wait for acknowledgements and between syncs (nanoseconds),
/// how often to retry, and how many replicas must acknowledge.
#[derive(Clone, Copy, Debug, PartialEq, Eq, Structural)]
pub struct DeliveryConfig {
    pub ack_timeout: u128,
    pub retry_count: u32,
    pub min_isr: u32,
    pub sync_interval: u128,
}

#[derive(Clone, Debug, PartialEq, Eq)]
pub enum MessageStatus {
    Pending,
    Replicated,
    Committed,
    Failed(String),
}

/// A message being delivered: where it goes, who acknowledged it, and how
/// often it was retried. `timestamp` is in nanoseconds since the UNIX epoch.
#[derive(Debug)]
pub struct MessageTracker {
    pub message_id: String,
    pub topic: String,
    pub partition: u32,
    pub producer_id: String,
    pub timestamp: u128,
    pub status: MessageStatus,
    pub acks: Vec<String>,
    pub retries: u32,
}

/// The outcome of a delivery, for the producer that waits on it.
#[derive(Clone, Debug, PartialEq, Eq)]
pub struct DeliveryResult {
    pub message_id: String,
    pub status: MessageStatus,
    pub timestamp: u128,
}

/// What the timeout monitor does after a tick.
#[derive(Clone, Copy, Debug, PartialEq, Eq, Structural)]
pub enum TimeoutAction {
    Retry,
    Stop,
    KeepWaiting,
}

/// The trackers, by message id.
pub uninterp spec fn tracker_table(m: dashmap::DashMap<String, MessageTracker>) -> Map<Seq<char>, MessageTracker>;

/// `DashMap::new` for the trackers.
#[verifier::external_body]
fn new_tracker_table() -> (m: dashmap::DashMap<String, MessageTracker>)
    ensures
        tracker_table(m).dom() == Set::<Seq<char>>::empty(),
{
    dashmap::DashMap::new()
}

/// `DashMap::remove`: takes a tracker out.
#[verifier::external_body]
fn take_tracker(m: &mut dashmap::DashMap<String, MessageTracker>, id: &String) -> (r: Option<MessageTracker>)
    ensures
        tracker_table(*final(m)) == tracker_table(*old(m)).remove(id@),
        match r {
            Some(t) => tracker_table(*old(m)).contains_key(id@) && t == tracker_table(*old(m))[id@],
            None => !tracker_table(*old(m)).contains_key(id@),
        },
{
    m.remove(id).map(|entry| entry.1)
}

/// `DashMap::insert`: puts a tracker in.
#[verifier::external_body]
fn put_tracker(m: &mut dashmap::DashMap<String, MessageTracker>, id: String, t: MessageTracker)
    ensures
        tracker_table(*final(m)) == tracker_table(*old(m)).insert(id@, t),
{
    m.insert(id, t);
}

/// What `handle_ack` does: the acknowledgement of `replica_id` is added to
/// the tracker of `message_id`; once at least `min_isr` replicas have
/// acknowledged, the message is committed and the outcome for its producer
/// comes back. An unknown message changes nothing.
pub open spec fn ack_result(
    before: DeliveryGuaranteeManager,
    message_id: Seq<char>,
    replica_id: String,
    r: Result<Option<DeliveryResult>, Error>,
    after: DeliveryGuaranteeManager,
) -> bool {
    &&& after.delivery_config == before.delivery_config
    &&& after.trackers().dom() == before.trackers().dom()
    &&& forall|k: Seq<char>| k != message_id && #[trigger] before.trackers().contains_key(k) ==> after.trackers()[k] == before.trackers()[k]
    &&& !before.trackers().contains_key(message_id) ==> (r matches Ok(None))
    &&& before.trackers().contains_key(message_id) ==> {
        let b = before.trackers()[message_id];
        let a = after.trackers()[message_id];
        let enough = b.acks@.len() + 1 >= before.delivery_config.min_isr;
        &&& a.acks@ == b.acks@.push(replica_id)
        &&& a.retries == b.retries
        &&& a.message_id == b.message_id
        &&& a.status == (if enough { MessageStatus::Committed } else { b.status })
        &&& (enough ==> (r matches Ok(Some(res)) && res.message_id == b.message_id && res.status == MessageStatus::Committed))
        &&& (!enough ==> (r matches Ok(None)))
    }
}

/// What a tick of the timeout monitor does for `message_id`: a pending
/// message is retried until it has been retried `retry_count` times, and
/// then fails with "Max retries exceeded"; a committed or failed one, or
/// one not tracked, ends the monitoring; a replicated one keeps it waiting.
pub open spec fn tick_result(before: DeliveryGuaranteeManager, message_id: Seq<char>, a: TimeoutAction, after: DeliveryGuaranteeManager) -> bool {
    &&& after.delivery_config == before.delivery_config
    &&& after.trackers().dom() == before.trackers().dom()
    &&& forall|k: Seq<char>| k != message_id && #[trigger] before.trackers().contains_key(k) ==> after.trackers()[k] == before.trackers()[k]
    &&& !before.trackers().contains_key(message_id) ==> a == TimeoutAction::Stop
    &&& before.trackers().contains_key(message_id) ==> {
        let b = before.trackers()[message_id];
        let n = after.trackers()[message_id];
        &&& n.acks == b.acks
        &&& n.message_id == b.message_id
        &&& match b.status {
            MessageStatus::Pending => if b.retries >= before.delivery_config.retry_count {
                &&& a == TimeoutAction::Stop
                &&& (n.status matches MessageStatus::Failed(t) && t@ == "Max retries exceeded"@)
                &&& n.retries == b.retries
            } else {
                &&& a == TimeoutAction::Retry
                &&& n.status == MessageStatus::Pending
                &&& n.retries == b.retries + 1
            },
            MessageStatus::Replicated => a == TimeoutAction::KeepWaiting && n == b,
            _ => a == TimeoutAction::Stop && n == b,
        }
    }
}

pub struct DeliveryGuaranteeManager {
    pub node_id: String,
    pub message_trackers: dashmap::DashMap<String, MessageTracker>,
    pub delivery_config: DeliveryConfig,
}

impl DeliveryGuaranteeManager {
    pub open spec fn trackers(&self) -> Map<Seq<char>, MessageTracker> {
        tracker_table(self.message_trackers)
    }

    pub fn new(node_id: String, config: DeliveryConfig) -> (m: DeliveryGuaranteeManager)
        ensures
            m.node_id == node_id,
            m.delivery_config == config,
            m.trackers().dom() == Set::<Seq<char>>::empty(),
    {
        DeliveryGuaranteeManager { node_id, message_trackers: new_tracker_table(), delivery_config: config }
    }

    /// Starts tracking `message`: pending, with no acknowledgements and no
    /// retries, in its partition (0 when it has none). The producer id is
    /// not carried by the message and is left empty.
    pub fn track_message(&mut self, message: &Message)
        ensures
            final(self).delivery_config == old(self).delivery_config,
            final(self).trackers().dom() == old(self).trackers().dom().insert(message.id@),
            forall|k: Seq<char>| k != message.id@ && #[trigger] old(self).trackers().contains_key(k) ==> final(self).trackers()[k] == old(self).trackers()[k],
            ({
                let t = final(self).trackers()[message.id@];
                &&& t.message_id@ == message.id@
                &&& t.topic@ == message.topic@
                &&& t.partition == match message.partition { Some(p) => p, None => 0 }
                &&& t.status == MessageStatus::Pending
                &&& t.acks@.len() == 0
                &&& t.retries == 0
            }),
    {
        let tracker = MessageTracker {
            message_id: message.id.clone(),
            topic: message.topic.clone(),
            partition: match message.partition { Some(p) => p, None => 0 },
            producer_id: String::new(),
            timestamp: now_unix_nanos(),
            status: MessageStatus::Pending,
            acks: Vec::new(),
            retries: 0,
        };
        put_tracker(&mut self.message_trackers, message.id.clone(), tracker);
    }

    /// Whether enough replicas acknowledged: at least `min_isr`.
    pub fn has_sufficient_acks(&self, tracker: &MessageTracker) -> (b: bool)
        ensures
            b == (tracker.acks@.len() >= self.delivery_config.min_isr),
    {
        tracker.acks.len() as u64 >= self.delivery_config.min_isr as u64
    }

    /// Records that `replica_id` acknowledged `message_id`. Once enough
    /// replicas have, the message is committed and the outcome for its
    /// producer comes back.
    pub fn handle_ack(&mut self, message_id: &String, replica_id: &String) -> (r: Result<Option<DeliveryResult>, Error>)
        ensures
            ack_result(*old(self), message_id@, *replica_id, r, *final(self)),
    {
        match take_tracker(&mut self.message_trackers, message_id) {
            None => {
                assert(self.trackers() =~= old(self).trackers());
                Ok(None)
            },
            Some(mut tracker) => {
                tracker.acks.push(replica_id.clone());
                let mut result: Option<DeliveryResult> = None;
                if self.has_sufficient_acks(&tracker) {
                    tracker.status = MessageStatus::Committed;
                    result = Some(DeliveryResult {
                        message_id: tracker.message_id.clone(),
                        status: MessageStatus::Committed,
                        timestamp: now_unix_nanos(),
                    });
                }
                put_tracker(&mut self.message_trackers, message_id.clone(), tracker);
                assert(self.trackers().dom() =~= old(self).trackers().dom());
                Ok(result)
            },
        }
    }

    /// One tick of the timeout monitor for `message_id`. A pending message
    /// is retried until it has been retried `retry_count` times, and then
    /// fails; a committed or failed one, or one not tracked, ends the
    /// monitoring; a replicated one keeps it waiting.
    pub fn on_timeout_tick(&mut self, message_id: &String) -> (a: TimeoutAction)
        ensures
            tick_result(*old(self), message_id@, a, *final(self)),
    {
        proof { reveal_strlit("Max retries exceeded"); }
        match take_tracker(&mut self.message_trackers, message_id) {
            None => {
                assert(self.trackers() =~= old(self).trackers());
                TimeoutAction::Stop
            },
            Some(mut tracker) => {
                let action = match tracker.status {
                    MessageStatus::Pending => {
                        if tracker.retries >= self.delivery_config.retry_count {
                            tracker.status = MessageStatus::Failed(String::from_str("Max retries exceeded"));
                            TimeoutAction::Stop
                        } else {
                            tracker.retries = tracker.retries + 1;
                            TimeoutAction::Retry
                        }
                    },
                    MessageStatus::Committed => TimeoutAction::Stop,
                    MessageStatus::Failed(_) => TimeoutAction::Stop,
                    MessageStatus::Replicated => TimeoutAction::KeepWaiting,
                };
                put_tracker(&mut self.message_trackers, message_id.clone(), tracker);
                assert(self.trackers().dom() =~= old(self).trackers().dom());
                action
            },
        }
    }

    /// Sends a message again; the resending is carried out elsewhere.
    pub fn retry_message(&self, message_id: &String) -> (r: Result<(), Error>)
        ensures
            r is Ok,
    {
        Ok(())
    }
}

/// A tracker's retries never pass the configured count: a tick retries a
/// pending message only while it has been retried fewer times.
pub proof fn lemma_retries_bounded(before_retries: u32, after_retries: u32, retry_count: u32, action: TimeoutAction)
    requires
        before_retries <= retry_count,
        action == TimeoutAction::Retry ==> before_retries < retry_count && after_retries == before_retries + 1,
        action != TimeoutAction::Retry ==> after_retries == before_retries,
    ensures
        after_retries <= retry_count,
{
}

/// A delivery commits at `min_isr` acknowledgements: after `track_message`
/// (pending, none yet), the acknowledgements that arrive are kept in order;
/// every call succeeds, and the call that brings their number to `min_isr`
/// (or any later one) commits the message and hands its producer the
/// committed outcome, while earlier calls leave it pending and hand back
/// nothing. `states` are the manager before and after each call.
pub proof fn lemma_commits_at_min_isr(
    states: Seq<DeliveryGuaranteeManager>,
    id: Seq<char>,
    replicas: Seq<String>,
    results: Seq<Result<Option<DeliveryResult>, Error>>,
)
    requires
        states.len() == results.len() + 1,
        replicas.len() == results.len(),
        states[0].trackers().contains_key(id),
        states[0].trackers()[id].acks@.len() == 0,
        states[0].trackers()[id].status == MessageStatus::Pending,
        forall|i: int| 0 <= i < results.len() ==> #[trigger] ack_result(states[i], id, replicas[i], results[i], states[i + 1]),
    ensures
        forall|i: int| 0 <= i < results.len() ==> {
            let committed = i + 1 >= states[0].delivery_config.min_isr;
            &&& committed ==> (#[trigger] results[i] matches Ok(Some(res)) && res.status == MessageStatus::Committed)
            &&& !committed ==> (results[i] matches Ok(None))
            &&& states[i + 1].trackers()[id].status == (if committed { MessageStatus::Committed } else { MessageStatus::Pending })
            &&& states[i + 1].trackers()[id].acks@ == replicas.take(i + 1)
        },
{
    assert forall|i: int| 0 <= i < results.len() implies {
        let committed = i + 1 >= states[0].delivery_config.min_isr;
        &&& committed ==> (#[trigger] results[i] matches Ok(Some(res)) && res.status == MessageStatus::Committed)
        &&& !committed ==> (results[i] matches Ok(None))
        &&& states[i + 1].trackers()[id].status == (if committed { MessageStatus::Committed } else { MessageStatus::Pending })
        &&& states[i + 1].trackers()[id].acks@ == replicas.take(i + 1)
    } by {
        lemma_acks_run(states, id, replicas, results, i);
        lemma_acks_run(states, id, replicas, results, i + 1);
        assert(ack_result(states[i], id, replicas[i], results[i], states[i + 1]));
    }
}

/// Along a run of acknowledgements, after `k` calls the tracker holds the
/// first `k` of them, and it is committed once `k` reaches `min_isr`.
proof fn lemma_acks_run(
    states: Seq<DeliveryGuaranteeManager>,
    id: Seq<char>,
    replicas: Seq<String>,
    results: Seq<Result<Option<DeliveryResult>, Error>>,
    k: int,
)
    requires
        0 <= k <= results.len(),
        states.len() == results.len() + 1,
        replicas.len() == results.len(),
        states[0].trackers().contains_key(id),
        states[0].trackers()[id].acks@.len() == 0,
        states[0].trackers()[id].status == MessageStatus::Pending,
        forall|i: int| 0 <= i < results.len() ==> #[trigger] ack_result(states[i], id, replicas[i], results[i], states[i + 1]),
    ensures
        states[k].trackers().contains_key(id),
        states[k].delivery_config == states[0].delivery_config,
        states[k].trackers()[id].acks@ == replicas.take(k),
        states[k].trackers()[id].status == (if k >= 1 && k >= states[0].delivery_config.min_isr { MessageStatus::Committed } else { MessageStatus::Pending }),
    decreases k,
{
    if k == 0 {
        assert(replicas.take(0) =~= Seq::<String>::empty());
        assert(states[0].trackers()[id].acks@ =~= Seq::<String>::empty());
    } else {
        let j = k - 1;
        lemma_acks_run(states, id, replicas, results, j);
        assert(ack_result(states[j], id, replicas[j], results[j], states[j + 1]));
        assert(replicas.take(j).push(replicas[j]) =~= replicas.take(k));
    }
}

/// The timeout monitor of a message that never gets enough
/// acknowledgements: after `track_message` (pending, no retries), the
/// first `retry_count` ticks each retry it, and the next one marks it
/// failed with "Max retries exceeded" and stops, as does every tick after;
/// its retries never pass `retry_count`. `states` are the manager before and
/// after each tick.
pub proof fn lemma_monitor_gives_up(
    states: Seq<DeliveryGuaranteeManager>,
    id: Seq<char>,
    actions: Seq<TimeoutAction>,
)
    requires
        states.len() == actions.len() + 1,
        states[0].trackers().contains_key(id),
        states[0].trackers()[id].status == MessageStatus::Pending,
        states[0].trackers()[id].retries == 0,
        forall|i: int| 0 <= i < actions.len() ==> #[trigger] tick_result(states[i], id, actions[i], states[i + 1]),
    ensures
        forall|i: int| 0 <= i < actions.len() ==> {
            let rc = states[0].delivery_config.retry_count;
            let n = states[i + 1].trackers()[id];
            &&& i < rc ==> (#[trigger] actions[i] == TimeoutAction::Retry && n.status == MessageStatus::Pending && n.retries == i + 1)
            &&& i >= rc ==> (actions[i] == TimeoutAction::Stop && n.retries == rc
                && (n.status matches MessageStatus::Failed(t) && t@ == "Max retries exceeded"@))
        },
{
    assert forall|i: int| 0 <= i < actions.len() implies {
        let rc = states[0].delivery_config.retry_count;
        let n = states[i + 1].trackers()[id];
        &&& i < rc ==> (#[trigger] actions[i] == TimeoutAction::Retry && n.status == MessageStatus::Pending && n.retries == i + 1)
        &&& i >= rc ==> (actions[i] == TimeoutAction::Stop && n.retries == rc
            && (n.status matches MessageStatus::Failed(t) && t@ == "Max retries exceeded"@))
    } by {
        lemma_ticks_run(states, id, actions, i);
        lemma_ticks_run(states, id, actions, i + 1);
        assert(tick_result(states[i], id, actions[i], states[i + 1]));
    }
}

/// Along a run of ticks, after `k` of them a tracker that has not run out
/// is pending with `k` retries, and one that has is failed with
/// `retry_count` retries.
proof fn lemma_ticks_run(states: Seq<DeliveryGuaranteeManager>, id: Seq<char>, actions: Seq<TimeoutAction>, k: int)
    requires
        0 <= k <= actions.len(),
        states.len() == actions.len() + 1,
        states[0].trackers().contains_key(id),
        states[0].trackers()[id].status == MessageStatus::Pending,
        states[0].trackers()[id].retries == 0,
        forall|i: int| 0 <= i < actions.len() ==> #[trigger] tick_result(states[i], id, actions[i], states[i + 1]),
    ensures
        states[k].trackers().contains_key(id),
        states[k].delivery_config == states[0].delivery_config,
        k <= states[0].delivery_config.retry_count ==> states[k].trackers()[id].status == MessageStatus::Pending
            && states[k].trackers()[id].retries == k,
        k > states[0].delivery_config.retry_count ==> states[k].trackers()[id].retries == states[0].delivery_config.retry_count
            && (states[k].trackers()[id].status matches MessageStatus::Failed(t) && t@ == "Max retries exceeded"@),
    decreases k,
{
    if k > 0 {
        let j = k - 1;
        lemma_ticks_run(states, id, actions, j);
        assert(tick_result(states[j], id, actions[j], states[j + 1]));
    }
}

} // verus!
