//! Recovery from the failure of a node. Every partition that the failed
//! node leads or holds a copy of is affected, and a recovery walks the
//! partitions it lists, in order. A listed partition that the failed node
//! led gets a new leader; one left with fewer than the minimum number of
//! replicas gets new ones. The plan is applied, and the recovery succeeds
//! when every listed partition has an active leader and enough replicas.
//!
//! How the new leader and the new replicas are chosen is this library's own
//! rule (the first active replica other than the failed node; the first
//! active nodes that hold no copy yet): the node's partition manager, which
//! would choose them, is not part of it.
use vstd::prelude::*;
use vstd::string::*;
use crate::rafka_core::Error;
use crate::platform::now_unix_nanos;
use crate::text::{views, contains_string, copy_strings, first_strings};

verus! {

/// A partition as the cluster sees it: its leader and its replicas.
#[derive(Debug)]
pub struct PartitionState {
    pub partition_id: u32,
    pub leader: String,
    pub replicas: Vec<String>,
}

/// A partition as plain values.
pub struct PartitionView {
    pub id: u32,
    pub leader: Seq<char>,
    pub replicas: Seq<Seq<char>>,
}

impl View for PartitionState {
    type V = PartitionView;

    open spec fn view(&self) -> PartitionView {
        PartitionView { id: self.partition_id, leader: self.leader@, replicas: views(self.replicas@) }
    }
}

pub open spec fn part_views(v: Seq<PartitionState>) -> Seq<PartitionView> {
    v.map_values(|p: PartitionState| p@)
}

#[derive(Clone, Debug, PartialEq, Eq)]
pub enum RecoveryStatus {
    Planning,
    Recovering,
    Verifying,
    Completed,
    Failed(String),
}

/// One recovery: the node that failed, the partitions it affected, when it
/// began (nanoseconds since the UNIX epoch) and how far it got.
#[derive(Debug)]
pub struct RecoveryState {
    pub failed_node: String,
    pub affected_partitions: Vec<u32>,
    pub recovery_start: u128,
    pub status: RecoveryStatus,
}

/// A step of a recovery plan.
#[derive(Debug)]
pub enum RecoveryAction {
    ReassignPartition { partition: u32, new_leader: String },
    RestoreReplicas { partition: u32, replicas: Vec<String> },
}

/// A step of a recovery plan as plain values.
pub enum ActionView {
    Reassign(u32, Seq<char>),
    Restore(u32, Seq<Seq<char>>),
}

impl View for RecoveryAction {
    type V = ActionView;

    open spec fn view(&self) -> ActionView {
        match self {
            RecoveryAction::ReassignPartition { partition, new_leader } => ActionView::Reassign(*partition, new_leader@),
            RecoveryAction::RestoreReplicas { partition, replicas } => ActionView::Restore(*partition, views(replicas@)),
        }
    }
}

pub open spec fn action_views(v: Seq<RecoveryAction>) -> Seq<ActionView> {
    v.map_values(|a: RecoveryAction| a@)
}

/// Whether the failed node leads the partition or holds a copy of it.
pub open spec fn is_affected(p: PartitionView, failed: Seq<char>) -> bool {
    p.leader == failed || p.replicas.contains(failed)
}

/// The ids of the affected partitions, in order.
pub open spec fn affected_ids(parts: Seq<PartitionView>, failed: Seq<char>) -> Seq<u32>
    decreases parts.len(),
{
    if parts.len() == 0 {
        Seq::empty()
    } else {
        let r = affected_ids(parts.drop_last(), failed);
        if is_affected(parts.last(), failed) {
            r.push(parts.last().id)
        } else {
            r
        }
    }
}

/// `s` without the occurrences of `x`.
pub open spec fn without(s: Seq<Seq<char>>, x: Seq<char>) -> Seq<Seq<char>>
    decreases s.len(),
{
    if s.len() == 0 {
        s
    } else {
        let r = without(s.drop_last(), x);
        if s.last() == x {
            r
        } else {
            r.push(s.last())
        }
    }
}

/// The first replica that is not the failed node and is active: this
/// library's own rule for choosing a new leader.
pub open spec fn leader_choice(replicas: Seq<Seq<char>>, failed: Seq<char>, active: Seq<Seq<char>>) -> Option<Seq<char>>
    decreases replicas.len(),
{
    if replicas.len() == 0 {
        None
    } else if replicas[0] != failed && active.contains(replicas[0]) {
        Some(replicas[0])
    } else {
        leader_choice(replicas.drop_first(), failed, active)
    }
}

/// The active nodes, in order and each once, that are not the failed node
/// and hold no copy in `current`: this library's own rule for the nodes
/// that may take new copies, the first of which are taken.
pub open spec fn candidates(active: Seq<Seq<char>>, current: Seq<Seq<char>>, failed: Seq<char>) -> Seq<Seq<char>>
    decreases active.len(),
{
    if active.len() == 0 {
        active
    } else {
        let r = candidates(active.drop_last(), current, failed);
        let n = active.last();
        if n != failed && !current.contains(n) && !r.contains(n) {
            r.push(n)
        } else {
            r
        }
    }
}

/// The steps for one affected partition, or `None` when no node can take
/// over what the failed node held.
pub open spec fn partition_plan(p: PartitionView, failed: Seq<char>, active: Seq<Seq<char>>, min: nat) -> Option<Seq<ActionView>> {
    let lead: Option<Seq<ActionView>> = if p.leader == failed {
        match leader_choice(p.replicas, failed, active) {
            Some(l) => Some(seq![ActionView::Reassign(p.id, l)]),
            None => None,
        }
    } else {
        Some(Seq::empty())
    };
    let cur = without(p.replicas, failed);
    let rest: Option<Seq<ActionView>> = if cur.len() < min {
        let c = candidates(active, cur, failed);
        let need = min - cur.len();
        if c.len() >= need {
            Some(seq![ActionView::Restore(p.id, c.take(need))])
        } else {
            None
        }
    } else {
        Some(Seq::empty())
    };
    match (lead, rest) {
        (Some(a), Some(b)) => Some(a + b),
        _ => None,
    }
}

/// The first partition with id `id`, as the node's partition table finds
/// it.
pub open spec fn find_part(parts: Seq<PartitionView>, id: u32) -> Option<PartitionView>
    decreases parts.len(),
{
    if parts.len() == 0 {
        None
    } else if parts[0].id == id {
        Some(parts[0])
    } else {
        find_part(parts.drop_first(), id)
    }
}

/// How planning a recovery ends: the steps, or the first listed partition
/// that the table does not hold, or no node to take over.
pub enum PlanOutcome {
    Planned(Seq<ActionView>),
    Unknown(u32),
    NoNodes,
}

/// The plan for the listed partitions, walked in order: the steps of each
/// in turn; planning stops at the first listed partition that is not in the
/// table, or that no node can take over.
pub open spec fn plan_list(parts: Seq<PartitionView>, ids: Seq<u32>, failed: Seq<char>, active: Seq<Seq<char>>, min: nat) -> PlanOutcome
    decreases ids.len(),
{
    if ids.len() == 0 {
        PlanOutcome::Planned(Seq::empty())
    } else {
        match plan_list(parts, ids.drop_last(), failed, active, min) {
            PlanOutcome::Planned(a) => match find_part(parts, ids.last()) {
                None => PlanOutcome::Unknown(ids.last()),
                Some(p) => match partition_plan(p, failed, active, min) {
                    Some(b) => PlanOutcome::Planned(a + b),
                    None => PlanOutcome::NoNodes,
                },
            },
            other => other,
        }
    }
}

/// The partitions after one step: a reassignment changes the leader, a
/// restoration replaces the replicas by the surviving ones and the new ones.
pub open spec fn apply_action(parts: Seq<PartitionView>, a: ActionView, failed: Seq<char>) -> Seq<PartitionView> {
    parts.map_values(|p: PartitionView| match a {
        ActionView::Reassign(id, l) => if p.id == id {
            PartitionView { id: p.id, leader: l, replicas: p.replicas }
        } else {
            p
        },
        ActionView::Restore(id, r) => if p.id == id {
            PartitionView { id: p.id, leader: p.leader, replicas: without(p.replicas, failed) + r }
        } else {
            p
        },
    })
}

/// The partitions after the steps, in order.
pub open spec fn apply_all(parts: Seq<PartitionView>, acts: Seq<ActionView>, failed: Seq<char>) -> Seq<PartitionView>
    decreases acts.len(),
{
    if acts.len() == 0 {
        parts
    } else {
        apply_action(apply_all(parts, acts.drop_last(), failed), acts.last(), failed)
    }
}

/// Every affected partition has an active leader and at least `min`
/// replicas.
pub open spec fn recovered(parts: Seq<PartitionView>, affected: Seq<u32>, active: Seq<Seq<char>>, min: nat) -> bool {
    forall|j: int| 0 <= j < parts.len() && #[trigger] affected.contains(parts[j].id) ==> {
        &&& active.contains(parts[j].leader)
        &&& parts[j].replicas.len() >= min
    }
}

/// Once planning a prefix of the list has stopped, planning the whole list
/// stops the same way.
proof fn lemma_plan_stop_extends(parts: Seq<PartitionView>, ids: Seq<u32>, k: int, failed: Seq<char>, active: Seq<Seq<char>>, min: nat)
    requires
        0 <= k <= ids.len(),
        !(plan_list(parts, ids.take(k), failed, active, min) is Planned),
    ensures
        plan_list(parts, ids, failed, active, min) == plan_list(parts, ids.take(k), failed, active, min),
    decreases ids.len(),
{
    if k == ids.len() {
        assert(ids.take(k) =~= ids);
    } else {
        assert(ids.drop_last().take(k) =~= ids.take(k));
        lemma_plan_stop_extends(parts, ids.drop_last(), k, failed, active, min);
    }
}

/// A partition that the table finds has the id asked for and is one of
/// the partitions.
proof fn lemma_find_part(parts: Seq<PartitionView>, id: u32)
    ensures
        find_part(parts, id) matches Some(p) ==> p.id == id && exists|j: int| 0 <= j < parts.len() && parts[j] == p,
    decreases parts.len(),
{
    if parts.len() > 0 {
        lemma_find_part(parts.drop_first(), id);
        if parts[0].id != id {
            if let Some(p) = find_part(parts, id) {
                let j = choose|j: int| 0 <= j < parts.drop_first().len() && parts.drop_first()[j] == p;
                assert(parts[j + 1] == p);
            }
        }
    }
}

/// The table finds every id that one of its partitions has.
proof fn lemma_find_part_some(parts: Seq<PartitionView>, id: u32, j: int)
    requires
        0 <= j < parts.len(),
        parts[j].id == id,
    ensures
        find_part(parts, id) is Some,
    decreases parts.len(),
{
    if parts[0].id != id {
        assert(parts.drop_first()[j - 1] == parts[j]);
        lemma_find_part_some(parts.drop_first(), id, j - 1);
    }
}

/// Planning a list of ids that the table all holds never stops at a
/// missing partition.
proof fn lemma_plan_known(parts: Seq<PartitionView>, ids: Seq<u32>, failed: Seq<char>, active: Seq<Seq<char>>, min: nat)
    requires
        forall|k: int| 0 <= k < ids.len() ==> find_part(parts, #[trigger] ids[k]) is Some,
    ensures
        !(plan_list(parts, ids, failed, active, min) is Unknown),
    decreases ids.len(),
{
    if ids.len() > 0 {
        assert forall|k: int| 0 <= k < ids.drop_last().len() implies find_part(parts, #[trigger] ids.drop_last()[k]) is Some by {
            assert(ids.drop_last()[k] == ids[k]);
        }
        lemma_plan_known(parts, ids.drop_last(), failed, active, min);
        assert(find_part(parts, ids[ids.len() - 1]) is Some);
    }
}

/// Every step for a partition names that partition.
proof fn lemma_partition_plan_ids(p: PartitionView, failed: Seq<char>, active: Seq<Seq<char>>, min: nat)
    ensures
        partition_plan(p, failed, active, min) matches Some(b) ==> forall|i: int| 0 <= i < b.len() ==> action_id(#[trigger] b[i]) == p.id,
{
}

/// The first eligible replica is a replica, other than the failed node,
/// and active.
proof fn lemma_leader_choice(replicas: Seq<Seq<char>>, failed: Seq<char>, active: Seq<Seq<char>>)
    ensures
        leader_choice(replicas, failed, active) matches Some(l) ==> {
            &&& l != failed
            &&& active.contains(l)
            &&& replicas.contains(l)
        },
    decreases replicas.len(),
{
    if replicas.len() > 0 {
        lemma_leader_choice(replicas.drop_first(), failed, active);
        if !(replicas[0] != failed && active.contains(replicas[0])) {
            if let Some(l) = leader_choice(replicas, failed, active) {
                let j = choose|j: int| 0 <= j < replicas.drop_first().len() && replicas.drop_first()[j] == l;
                assert(replicas[j + 1] == l);
            }
        } else {
            assert(replicas[0] == replicas[0]);
        }
    }
}

/// The candidates are active nodes other than the failed one, hold no copy
/// in `current`, and come each once.
proof fn lemma_candidates(active: Seq<Seq<char>>, current: Seq<Seq<char>>, failed: Seq<char>)
    ensures
        forall|i: int| 0 <= i < candidates(active, current, failed).len() ==> {
            let n = #[trigger] candidates(active, current, failed)[i];
            &&& n != failed
            &&& !current.contains(n)
            &&& active.contains(n)
        },
        forall|i: int, j: int| 0 <= i < j < candidates(active, current, failed).len() ==>
            candidates(active, current, failed)[i] != candidates(active, current, failed)[j],
    decreases active.len(),
{
    if active.len() > 0 {
        lemma_candidates(active.drop_last(), current, failed);
        let r = candidates(active.drop_last(), current, failed);
        assert forall|i: int| 0 <= i < r.len() implies active.contains(#[trigger] r[i]) by {
            let j = choose|j: int| 0 <= j < active.drop_last().len() && active.drop_last()[j] == r[i];
            assert(active[j] == r[i]);
        }
        assert(active[active.len() - 1] == active.last());
        let n = active.last();
        if n != failed && !current.contains(n) && !r.contains(n) {
            assert forall|i: int, j: int| 0 <= i < j < r.push(n).len() implies r.push(n)[i] != r.push(n)[j] by {
                if j == r.len() {
                    assert(r[i] == r.push(n)[i]);
                }
            }
        }
    }
}

/// A plan never hands the failed node a partition: no new leader and no
/// restored replica is the failed node. Every new leader and every restored
/// replica is active, and every new leader is one of the replicas of a
/// partition with the id it is reassigned.
pub proof fn lemma_plan_avoids_failed(parts: Seq<PartitionView>, ids: Seq<u32>, failed: Seq<char>, active: Seq<Seq<char>>, min: nat)
    ensures
        plan_list(parts, ids, failed, active, min) matches PlanOutcome::Planned(acts) ==> forall|i: int| 0 <= i < acts.len() ==> {
            &&& (#[trigger] acts[i] matches ActionView::Reassign(id, l) ==> {
                &&& l != failed
                &&& active.contains(l)
                &&& exists|j: int| 0 <= j < parts.len() && parts[j].id == id && #[trigger] parts[j].replicas.contains(l)
            })
            &&& (acts[i] matches ActionView::Restore(id, r) ==> {
                &&& !r.contains(failed)
                &&& forall|k: int| 0 <= k < r.len() ==> active.contains(#[trigger] r[k])
            })
        },
    decreases ids.len(),
{
    if ids.len() > 0 {
        lemma_plan_avoids_failed(parts, ids.drop_last(), failed, active, min);
        lemma_find_part(parts, ids.last());
        if let PlanOutcome::Planned(acts) = plan_list(parts, ids, failed, active, min) {
            let a = plan_list(parts, ids.drop_last(), failed, active, min)->Planned_0;
            let p = find_part(parts, ids.last())->0;
            let jp = choose|j: int| 0 <= j < parts.len() && parts[j] == p;
            lemma_leader_choice(p.replicas, failed, active);
            let cur = without(p.replicas, failed);
            lemma_candidates(active, cur, failed);
            assert forall|i: int| 0 <= i < acts.len() implies {
                &&& (#[trigger] acts[i] matches ActionView::Reassign(id, l) ==> {
                    &&& l != failed
                    &&& active.contains(l)
                    &&& exists|j: int| 0 <= j < parts.len() && parts[j].id == id && #[trigger] parts[j].replicas.contains(l)
                })
                &&& (acts[i] matches ActionView::Restore(id, r) ==> {
                    &&& !r.contains(failed)
                    &&& forall|k: int| 0 <= k < r.len() ==> active.contains(#[trigger] r[k])
                })
            } by {
                if i < a.len() {
                    assert(acts[i] == a[i]);
                } else {
                    let c = candidates(active, cur, failed);
                    if let ActionView::Reassign(id, l) = acts[i] {
                        assert(parts[jp].replicas.contains(l));
                    }
                    if let ActionView::Restore(id, r) = acts[i] {
                        let need = (min - cur.len()) as int;
                        assert(r == c.take(need));
                        assert forall|k: int| 0 <= k < r.len() implies active.contains(#[trigger] r[k]) by {
                            assert(r[k] == c[k]);
                        }
                        if r.contains(failed) {
                            let k = choose|k: int| 0 <= k < r.len() && r[k] == failed;
                            assert(c[k] == failed);
                        }
                    }
                }
            }
        }
    }
}

/// After a recovery that verified, and with the failed node no longer
/// active, no affected partition is led by the failed node and each has at
/// least the minimum number of replicas.
pub proof fn lemma_recovered_not_led_by_failed(parts: Seq<PartitionView>, affected: Seq<u32>, active: Seq<Seq<char>>, min: nat, failed: Seq<char>)
    requires
        recovered(parts, affected, active, min),
        !active.contains(failed),
    ensures
        forall|j: int| 0 <= j < parts.len() && #[trigger] affected.contains(parts[j].id) ==> {
            &&& parts[j].leader != failed
            &&& parts[j].replicas.len() >= min
        },
{
}

/// The partition that a step names.
pub open spec fn action_id(a: ActionView) -> u32 {
    match a {
        ActionView::Reassign(id, _) => id,
        ActionView::Restore(id, _) => id,
    }
}

/// Every step of a plan names a listed partition.
proof fn lemma_plan_ids(parts: Seq<PartitionView>, ids: Seq<u32>, failed: Seq<char>, active: Seq<Seq<char>>, min: nat)
    ensures
        plan_list(parts, ids, failed, active, min) matches PlanOutcome::Planned(acts) ==> forall|i: int| 0 <= i < acts.len() ==>
            ids.contains(action_id(#[trigger] acts[i])),
    decreases ids.len(),
{
    if ids.len() > 0 {
        lemma_plan_ids(parts, ids.drop_last(), failed, active, min);
        lemma_find_part(parts, ids.last());
        if let PlanOutcome::Planned(acts) = plan_list(parts, ids, failed, active, min) {
            let a = plan_list(parts, ids.drop_last(), failed, active, min)->Planned_0;
            let p = find_part(parts, ids.last())->0;
            lemma_partition_plan_ids(p, failed, active, min);
            let b = partition_plan(p, failed, active, min)->0;
            assert forall|i: int| 0 <= i < acts.len() implies ids.contains(action_id(#[trigger] acts[i])) by {
                if i < a.len() {
                    assert(acts[i] == a[i]);
                    let k = choose|k: int| 0 <= k < ids.drop_last().len() && ids.drop_last()[k] == action_id(a[i]);
                    assert(ids[k] == action_id(a[i]));
                } else {
                    assert(acts[i] == b[i - a.len()]);
                    assert(ids[ids.len() - 1] == ids.last());
                }
            }
        }
    }
}

/// Some partition with id `id` is one that the failed node leads or holds
/// a copy of.
pub open spec fn affected_with_id(parts: Seq<PartitionView>, failed: Seq<char>, id: u32) -> bool {
    exists|j: int| 0 <= j < parts.len() && is_affected(parts[j], failed) && parts[j].id == id
}

/// The ids of the affected partitions are ids of partitions that the
/// failed node leads or holds a copy of.
proof fn lemma_affected_ids(parts: Seq<PartitionView>, failed: Seq<char>)
    ensures
        forall|k: int| 0 <= k < affected_ids(parts, failed).len() ==>
            affected_with_id(parts, failed, #[trigger] affected_ids(parts, failed)[k]),
    decreases parts.len(),
{
    if parts.len() > 0 {
        lemma_affected_ids(parts.drop_last(), failed);
        let r = affected_ids(parts.drop_last(), failed);
        let a = affected_ids(parts, failed);
        assert forall|k: int| 0 <= k < a.len() implies affected_with_id(parts, failed, #[trigger] a[k]) by {
            if k < r.len() {
                assert(a[k] == r[k]);
                assert(affected_with_id(parts.drop_last(), failed, r[k]));
                let j = choose|j: int| 0 <= j < parts.drop_last().len() && is_affected(parts.drop_last()[j], failed) && parts.drop_last()[j].id == r[k];
                assert(parts[j] == parts.drop_last()[j]);
            } else {
                let j = parts.len() - 1;
                assert(parts[j] == parts.last());
                assert(a == r.push(parts.last().id));
            }
        }
    }
}

/// Steps that name no partition with `id` leave such a partition alone,
/// and no step changes the number of partitions or their ids.
proof fn lemma_apply_all_untouched(parts: Seq<PartitionView>, acts: Seq<ActionView>, failed: Seq<char>)
    ensures
        apply_all(parts, acts, failed).len() == parts.len(),
        forall|j: int| 0 <= j < parts.len() ==> (#[trigger] apply_all(parts, acts, failed)[j]).id == parts[j].id,
        forall|j: int| 0 <= j < parts.len() && (forall|i: int| 0 <= i < acts.len() ==> action_id(#[trigger] acts[i]) != parts[j].id)
            ==> #[trigger] apply_all(parts, acts, failed)[j] == parts[j],
    decreases acts.len(),
{
    if acts.len() > 0 {
        lemma_apply_all_untouched(parts, acts.drop_last(), failed);
        let before = apply_all(parts, acts.drop_last(), failed);
        assert forall|j: int| 0 <= j < parts.len() && (forall|i: int| 0 <= i < acts.len() ==> action_id(#[trigger] acts[i]) != parts[j].id)
            implies #[trigger] apply_all(parts, acts, failed)[j] == parts[j] by {
            assert forall|i: int| 0 <= i < acts.drop_last().len() implies action_id(#[trigger] acts.drop_last()[i]) != parts[j].id by {
                assert(acts.drop_last()[i] == acts[i]);
            }
            assert(action_id(acts[acts.len() - 1]) != parts[j].id);
        }
    }
}

/// The affected list is complete and exact: the id of every partition that
/// the failed node leads or holds a copy of is in it (a partition it only
/// leads included), and every id in it is that of such a partition.
pub proof fn lemma_affected_ids_complete(parts: Seq<PartitionView>, failed: Seq<char>)
    ensures
        forall|j: int| 0 <= j < parts.len() && ((#[trigger] parts[j]).leader == failed || parts[j].replicas.contains(failed))
            ==> affected_ids(parts, failed).contains(parts[j].id),
        forall|k: int| 0 <= k < affected_ids(parts, failed).len()
            ==> affected_with_id(parts, failed, #[trigger] affected_ids(parts, failed)[k]),
    decreases parts.len(),
{
    lemma_affected_ids(parts, failed);
    if parts.len() > 0 {
        lemma_affected_ids_complete(parts.drop_last(), failed);
        let r = affected_ids(parts.drop_last(), failed);
        let a = affected_ids(parts, failed);
        assert forall|j: int| 0 <= j < parts.len() && ((#[trigger] parts[j]).leader == failed || parts[j].replicas.contains(failed))
            implies a.contains(parts[j].id) by {
            if j < parts.len() - 1 {
                assert(parts.drop_last()[j] == parts[j]);
                let k = choose|k: int| 0 <= k < r.len() && r[k] == parts[j].id;
                if is_affected(parts.last(), failed) {
                    assert(a[k] == r[k]);
                } else {
                    assert(a[k] == r[k]);
                }
            } else {
                assert(parts[j] == parts.last());
                assert(a[r.len() as int] == parts[j].id);
            }
        }
    }
}

/// A recovery changes only the partitions it lists: a partition whose id
/// is not listed comes out of the plan unchanged.
pub proof fn lemma_unlisted_unchanged(parts: Seq<PartitionView>, ids: Seq<u32>, failed: Seq<char>, active: Seq<Seq<char>>, min: nat)
    ensures
        plan_list(parts, ids, failed, active, min) matches PlanOutcome::Planned(acts) ==> {
            &&& apply_all(parts, acts, failed).len() == parts.len()
            &&& forall|j: int| 0 <= j < parts.len() && !ids.contains(parts[j].id)
                ==> #[trigger] apply_all(parts, acts, failed)[j] == parts[j]
        },
{
    lemma_plan_ids(parts, ids, failed, active, min);
    if let PlanOutcome::Planned(acts) = plan_list(parts, ids, failed, active, min) {
        lemma_apply_all_untouched(parts, acts, failed);
        assert forall|j: int| 0 <= j < parts.len() && !ids.contains(parts[j].id)
            implies #[trigger] apply_all(parts, acts, failed)[j] == parts[j] by {
            assert forall|i: int| 0 <= i < acts.len() implies action_id(#[trigger] acts[i]) != parts[j].id by {
                assert(ids.contains(action_id(acts[i])));
            }
        }
    }
}

/// Recovery from a failure changes only the partitions of the failed node:
/// with distinct partition ids, a partition that the failed node neither
/// leads nor holds a copy of comes out of the plan unchanged.
pub proof fn lemma_unaffected_unchanged(parts: Seq<PartitionView>, failed: Seq<char>, active: Seq<Seq<char>>, min: nat)
    requires
        parts.map_values(|p: PartitionView| p.id).no_duplicates(),
    ensures
        plan_list(parts, affected_ids(parts, failed), failed, active, min) matches PlanOutcome::Planned(acts) ==> {
            &&& apply_all(parts, acts, failed).len() == parts.len()
            &&& forall|j: int| 0 <= j < parts.len() && !is_affected(parts[j], failed)
                ==> #[trigger] apply_all(parts, acts, failed)[j] == parts[j]
        },
{
    let ids = affected_ids(parts, failed);
    lemma_unlisted_unchanged(parts, ids, failed, active, min);
    lemma_affected_ids(parts, failed);
    let pids = parts.map_values(|p: PartitionView| p.id);
    assert forall|j: int| 0 <= j < parts.len() && !is_affected(parts[j], failed) implies !ids.contains(parts[j].id) by {
        if ids.contains(parts[j].id) {
            let k = choose|k: int| 0 <= k < ids.len() && ids[k] == parts[j].id;
            assert(affected_with_id(parts, failed, ids[k]));
            let m = choose|m: int| 0 <= m < parts.len() && is_affected(parts[m], failed) && parts[m].id == ids[k];
            assert(pids[m] == pids[j]);
        }
    }
}

pub struct FailureRecoveryManager {
    pub node_id: String,
    pub partitions: Vec<PartitionState>,
    pub active_nodes: Vec<String>,
    pub min_replicas: usize,
    pub state_store: Vec<RecoveryState>,
}

impl FailureRecoveryManager {
    pub open spec fn parts(&self) -> Seq<PartitionView> {
        part_views(self.partitions@)
    }

    pub open spec fn active(&self) -> Seq<Seq<char>> {
        views(self.active_nodes@)
    }

    /// A manager for the given partitions, of which a node is active when it
    /// is in `active_nodes`, and that keeps at least `min_replicas` copies of
    /// each partition.
    pub fn new(node_id: String, partitions: Vec<PartitionState>, active_nodes: Vec<String>, min_replicas: usize) -> (m: FailureRecoveryManager)
        ensures
            m.node_id == node_id,
            m.partitions@ == partitions@,
            m.active_nodes@ == active_nodes@,
            m.min_replicas == min_replicas,
            m.state_store@.len() == 0,
    {
        FailureRecoveryManager { node_id, partitions, active_nodes, min_replicas, state_store: Vec::new() }
    }

    /// The ids of the partitions that `failed_node` leads or holds a copy
    /// of, in the order of the partitions.
    pub fn identify_affected_partitions(&self, failed_node: &String) -> (r: Vec<u32>)
        ensures
            r@ == affected_ids(self.parts(), failed_node@),
    {
        let mut r: Vec<u32> = Vec::new();
        let mut i: usize = 0;
        while i < self.partitions.len()
            invariant
                i <= self.partitions@.len(),
                r@ == affected_ids(self.parts().take(i as int), failed_node@),
            decreases self.partitions@.len() - i,
        {
            let p = &self.partitions[i];
            let ghost t = self.parts().take(i as int + 1);
            assert(t.drop_last() =~= self.parts().take(i as int));
            assert(t.last() == p@);
            let holds = contains_string(&p.replicas, failed_node);
            if p.leader == *failed_node || holds {
                r.push(p.partition_id);
            }
            i = i + 1;
        }
        assert(self.parts().take(self.partitions@.len() as int) =~= self.parts());
        r
    }

    /// Whether `node` is active.
    pub fn is_node_active(&self, node: &String) -> (r: bool)
        ensures
            r == self.active().contains(node@),
    {
        contains_string(&self.active_nodes, node)
    }

    /// `v` without the occurrences of `x`.
    fn surviving(v: &Vec<String>, x: &String) -> (r: Vec<String>)
        ensures
            views(r@) == without(views(v@), x@),
    {
        let mut r: Vec<String> = Vec::new();
        let mut i: usize = 0;
        while i < v.len()
            invariant
                i <= v@.len(),
                views(r@) == without(views(v@).take(i as int), x@),
            decreases v@.len() - i,
        {
            let ghost t = views(v@).take(i as int + 1);
            assert(t.drop_last() =~= views(v@).take(i as int));
            assert(t.last() == v@[i as int]@);
            if v[i] != *x {
                let ghost before = views(r@);
                r.push(v[i].clone());
                assert(views(r@) =~= before.push(v@[i as int]@));
            }
            i = i + 1;
        }
        assert(views(v@).take(v@.len() as int) =~= views(v@));
        r
    }

    /// The new leader of a partition whose leader failed: its first replica
    /// that is not the failed node and is active.
    pub fn select_new_leader(&self, replicas: &Vec<String>, failed: &String) -> (r: Result<String, Error>)
        ensures
            match leader_choice(views(replicas@), failed@, self.active()) {
                Some(l) => r matches Ok(s) && s@ == l,
                None => r == Err::<String, Error>(Error::NoAvailableNodes),
            },
    {
        let ghost rs = views(replicas@);
        let mut i: usize = 0;
        assert(rs.subrange(0, rs.len() as int) =~= rs);
        while i < replicas.len()
            invariant
                rs == views(replicas@),
                i <= replicas@.len(),
                leader_choice(rs, failed@, self.active()) == leader_choice(rs.subrange(i as int, rs.len() as int), failed@, self.active()),
            decreases replicas@.len() - i,
        {
            let ghost sub = rs.subrange(i as int, rs.len() as int);
            assert(sub[0] == replicas@[i as int]@);
            assert(sub.drop_first() =~= rs.subrange(i as int + 1, rs.len() as int));
            let active = self.is_node_active(&replicas[i]);
            if replicas[i] != *failed && active {
                return Ok(replicas[i].clone());
            }
            i = i + 1;
        }
        Err(Error::NoAvailableNodes)
    }

    /// Active nodes, in order and each once, that are not the failed node
    /// and not in `current`: the first `count` of them, or an error when
    /// there are fewer.
    pub fn select_new_replicas(&self, current: &Vec<String>, failed: &String, count: usize) -> (r: Result<Vec<String>, Error>)
        ensures
            ({
                let c = candidates(self.active(), views(current@), failed@);
                if c.len() >= count {
                    r matches Ok(v) && views(v@) == c.take(count as int)
                } else {
                    r == Err::<Vec<String>, Error>(Error::NoAvailableNodes)
                }
            }),
    {
        let mut found: Vec<String> = Vec::new();
        let mut i: usize = 0;
        while i < self.active_nodes.len()
            invariant
                i <= self.active_nodes@.len(),
                views(found@) == candidates(self.active().take(i as int), views(current@), failed@),
            decreases self.active_nodes@.len() - i,
        {
            let n = &self.active_nodes[i];
            let ghost t = self.active().take(i as int + 1);
            assert(t.drop_last() =~= self.active().take(i as int));
            assert(t.last() == n@);
            let in_current = contains_string(current, n);
            let seen = contains_string(&found, n);
            if *n != *failed && !in_current && !seen {
                let ghost before = views(found@);
                found.push(n.clone());
                assert(views(found@) =~= before.push(n@));
            }
            i = i + 1;
        }
        assert(self.active().take(self.active_nodes@.len() as int) =~= self.active());
        if found.len() >= count {
            let r = first_strings(&found, count);
            assert(views(r@) =~= views(found@).take(count as int));
            Ok(r)
        } else {
            Err(Error::NoAvailableNodes)
        }
    }

    /// The steps for one affected partition.
    fn plan_partition(&self, p: &PartitionState, failed: &String) -> (r: Result<Vec<RecoveryAction>, Error>)
        ensures
            match partition_plan(p@, failed@, self.active(), self.min_replicas as nat) {
                Some(acts) => r matches Ok(v) && action_views(v@) == acts,
                None => r == Err::<Vec<RecoveryAction>, Error>(Error::NoAvailableNodes),
            },
    {
        let mut actions: Vec<RecoveryAction> = Vec::new();
        if p.leader == *failed {
            match self.select_new_leader(&p.replicas, failed) {
                Ok(l) => {
                    actions.push(RecoveryAction::ReassignPartition { partition: p.partition_id, new_leader: l });
                },
                Err(e) => {
                    return Err(e);
                },
            }
        }
        let ghost lead = action_views(actions@);
        let current = Self::surviving(&p.replicas, failed);
        if current.len() < self.min_replicas {
            let need = self.min_replicas - current.len();
            match self.select_new_replicas(&current, failed, need) {
                Ok(v) => {
                    actions.push(RecoveryAction::RestoreReplicas { partition: p.partition_id, replicas: v });
                },
                Err(e) => {
                    return Err(e);
                },
            }
        }
        assert(action_views(actions@) =~= lead + (if views(current@).len() < self.min_replicas {
            seq![action_views(actions@).last()]
        } else {
            Seq::<ActionView>::empty()
        }));
        Ok(actions)
    }

    /// Where the table holds the first partition with id `id`.
    fn find_partition(&self, id: u32) -> (r: Option<usize>)
        ensures
            match find_part(self.parts(), id) {
                Some(p) => r matches Some(j) && j < self.partitions@.len() && self.parts()[j as int] == p,
                None => r is None,
            },
    {
        let ghost ps = self.parts();
        let mut i: usize = 0;
        assert(ps.subrange(0, ps.len() as int) =~= ps);
        while i < self.partitions.len()
            invariant
                ps == self.parts(),
                i <= self.partitions@.len(),
                find_part(ps, id) == find_part(ps.subrange(i as int, ps.len() as int), id),
            decreases self.partitions@.len() - i,
        {
            let ghost sub = ps.subrange(i as int, ps.len() as int);
            assert(sub[0] == ps[i as int]);
            assert(sub.drop_first() =~= ps.subrange(i as int + 1, ps.len() as int));
            if self.partitions[i].partition_id == id {
                return Some(i);
            }
            i = i + 1;
        }
        None
    }

    /// The plan for the failure that `state` records: the listed partitions
    /// in order, the steps of each in turn. A listed partition that the
    /// table does not hold is `Recovery("Partition not found")`; one that
    /// has no active replica to lead it, or too few active nodes to restore
    /// its copies, is `NoAvailableNodes`; planning stops at the first such.
    pub fn plan_recovery(&self, state: &RecoveryState) -> (r: Result<Vec<RecoveryAction>, Error>)
        ensures
            match plan_list(self.parts(), state.affected_partitions@, state.failed_node@, self.active(), self.min_replicas as nat) {
                PlanOutcome::Planned(acts) => r matches Ok(v) && action_views(v@) == acts,
                PlanOutcome::Unknown(_) => r matches Err(Error::Recovery(s)) && s@ == "Partition not found"@,
                PlanOutcome::NoNodes => r == Err::<Vec<RecoveryAction>, Error>(Error::NoAvailableNodes),
            },
    {
        let failed = &state.failed_node;
        let ids = &state.affected_partitions;
        let ghost parts = self.parts();
        let ghost active = self.active();
        let ghost min = self.min_replicas as nat;
        let mut actions: Vec<RecoveryAction> = Vec::new();
        let mut i: usize = 0;
        assert(ids@.take(0) =~= Seq::<u32>::empty());
        assert(action_views(actions@) =~= Seq::<ActionView>::empty());
        while i < ids.len()
            invariant
                parts == self.parts(),
                active == self.active(),
                min == self.min_replicas as nat,
                failed == &state.failed_node,
                ids == &state.affected_partitions,
                i <= ids@.len(),
                plan_list(parts, ids@.take(i as int), failed@, active, min) == PlanOutcome::Planned(action_views(actions@)),
            decreases ids@.len() - i,
        {
            let id = ids[i];
            let ghost t = ids@.take(i as int + 1);
            assert(t.drop_last() =~= ids@.take(i as int));
            assert(t.last() == id);
            match self.find_partition(id) {
                None => {
                    proof {
                        lemma_plan_stop_extends(parts, ids@, i as int + 1, failed@, active, min);
                        reveal_strlit("Partition not found");
                    }
                    return Err(Error::Recovery(String::from_str("Partition not found")));
                },
                Some(j) => {
                    match self.plan_partition(&self.partitions[j], failed) {
                        Ok(more) => {
                            let ghost before = action_views(actions@);
                            let mut more = more;
                            let ghost added = action_views(more@);
                            actions.append(&mut more);
                            assert(action_views(actions@) =~= before + added);
                        },
                        Err(e) => {
                            proof { lemma_plan_stop_extends(parts, ids@, i as int + 1, failed@, active, min); }
                            return Err(e);
                        },
                    }
                },
            }
            i = i + 1;
        }
        assert(ids@.take(ids@.len() as int) =~= ids@);
        Ok(actions)
    }

    /// Carries out one step.
    fn apply_action(&mut self, a: &RecoveryAction, failed: &String)
        ensures
            final(self).parts() == apply_action(old(self).parts(), a@, failed@),
            final(self).active_nodes@ == old(self).active_nodes@,
            final(self).min_replicas == old(self).min_replicas,
            final(self).node_id == old(self).node_id,
            final(self).state_store@ == old(self).state_store@,
    {
        let ghost before = self.parts();
        let mut i: usize = 0;
        while i < self.partitions.len()
            invariant
                before.len() == self.partitions@.len(),
                i <= self.partitions@.len(),
                forall|j: int| 0 <= j < i ==> self.parts()[j] == #[trigger] apply_action(before, a@, failed@)[j],
                forall|j: int| i <= j < before.len() ==> self.parts()[j] == before[j],
                self.active_nodes@ == old(self).active_nodes@,
                self.min_replicas == old(self).min_replicas,
                self.node_id == old(self).node_id,
                self.state_store@ == old(self).state_store@,
            decreases self.partitions@.len() - i,
        {
            let id = self.partitions[i].partition_id;
            match a {
                RecoveryAction::ReassignPartition { partition, new_leader } => {
                    if id == *partition {
                        let replicas = copy_strings(&self.partitions[i].replicas);
                        let np = PartitionState { partition_id: id, leader: new_leader.clone(), replicas };
                        self.partitions.set(i, np);
                    }
                },
                RecoveryAction::RestoreReplicas { partition, replicas } => {
                    if id == *partition {
                        let mut kept = Self::surviving(&self.partitions[i].replicas, failed);
                        let mut added = copy_strings(replicas);
                        let ghost k = views(kept@);
                        let ghost ad = views(added@);
                        kept.append(&mut added);
                        assert(views(kept@) =~= k + ad);
                        let leader = self.partitions[i].leader.clone();
                        let np = PartitionState { partition_id: id, leader, replicas: kept };
                        self.partitions.set(i, np);
                    }
                },
            }
            i = i + 1;
        }
        assert(self.parts() =~= apply_action(before, a@, failed@));
    }

    /// Whether every affected partition has an active leader and at least
    /// the minimum number of replicas.
    pub fn verify_recovery(&self, state: &RecoveryState) -> (r: bool)
        ensures
            r == recovered(self.parts(), state.affected_partitions@, self.active(), self.min_replicas as nat),
    {
        let mut i: usize = 0;
        while i < self.partitions.len()
            invariant
                i <= self.partitions@.len(),
                forall|j: int| 0 <= j < i && #[trigger] state.affected_partitions@.contains(self.parts()[j].id) ==> {
                    &&& self.active().contains(self.parts()[j].leader)
                    &&& self.parts()[j].replicas.len() >= self.min_replicas
                },
            decreases self.partitions@.len() - i,
        {
            let p = &self.partitions[i];
            let mut k: usize = 0;
            let mut listed = false;
            while k < state.affected_partitions.len()
                invariant
                    k <= state.affected_partitions@.len(),
                    listed == exists|m: int| 0 <= m < k && state.affected_partitions@[m] == p.partition_id,
                decreases state.affected_partitions@.len() - k,
            {
                if state.affected_partitions[k] == p.partition_id {
                    listed = true;
                }
                k = k + 1;
            }
            assert(listed == state.affected_partitions@.contains(self.parts()[i as int].id));
            if listed {
                let active = self.is_node_active(&p.leader);
                if !active || p.replicas.len() < self.min_replicas {
                    assert(state.affected_partitions@.contains(self.parts()[i as int].id));
                    return false;
                }
            }
            i = i + 1;
        }
        true
    }

    /// Plans the recovery, carries it out and verifies it. A plan that
    /// cannot be made is an error and changes nothing; a recovery that does
    /// not verify is `Recovery("Recovery verification failed")`. The final
    /// state of the recovery is kept in the state store.
    pub fn execute_recovery(&mut self, state: RecoveryState) -> (r: Result<(), Error>)
        ensures
            final(self).active_nodes@ == old(self).active_nodes@,
            final(self).min_replicas == old(self).min_replicas,
            match plan_list(old(self).parts(), state.affected_partitions@, state.failed_node@, old(self).active(), old(self).min_replicas as nat) {
                PlanOutcome::NoNodes => {
                    &&& r == Err::<(), Error>(Error::NoAvailableNodes)
                    &&& final(self).parts() == old(self).parts()
                    &&& final(self).state_store@ == old(self).state_store@
                },
                PlanOutcome::Unknown(_) => {
                    &&& (r matches Err(Error::Recovery(s)) && s@ == "Partition not found"@)
                    &&& final(self).parts() == old(self).parts()
                    &&& final(self).state_store@ == old(self).state_store@
                },
                PlanOutcome::Planned(acts) => {
                    let after = apply_all(old(self).parts(), acts, state.failed_node@);
                    let ok = recovered(after, state.affected_partitions@, old(self).active(), old(self).min_replicas as nat);
                    &&& final(self).parts() == after
                    &&& final(self).state_store@.len() == old(self).state_store@.len() + 1
                    &&& final(self).state_store@.drop_last() == old(self).state_store@
                    &&& final(self).state_store@.last().failed_node == state.failed_node
                    &&& final(self).state_store@.last().affected_partitions@ == state.affected_partitions@
                    &&& (ok ==> r == Ok::<(), Error>(()) && final(self).state_store@.last().status == RecoveryStatus::Completed)
                    &&& (!ok ==> (r matches Err(Error::Recovery(t)) && t@ == "Recovery verification failed"@))
                    &&& (!ok ==> (final(self).state_store@.last().status matches RecoveryStatus::Failed(s) && s@ == "Verification failed"@))
                },
            },
    {
        let mut state = state;
        let plan = self.plan_recovery(&state);
        let plan = match plan {
            Ok(p) => p,
            Err(e) => {
                return Err(e);
            },
        };
        state.status = RecoveryStatus::Recovering;
        let ghost start = self.parts();
        let ghost acts = action_views(plan@);
        let mut i: usize = 0;
        while i < plan.len()
            invariant
                acts == action_views(plan@),
                i <= plan@.len(),
                self.parts() == apply_all(start, acts.take(i as int), state.failed_node@),
                self.active_nodes@ == old(self).active_nodes@,
                self.min_replicas == old(self).min_replicas,
                self.state_store@ == old(self).state_store@,
            decreases plan@.len() - i,
        {
            assert(acts.take(i as int + 1).drop_last() =~= acts.take(i as int));
            assert(acts.take(i as int + 1).last() == plan@[i as int]@);
            self.apply_action(&plan[i], &state.failed_node);
            i = i + 1;
        }
        assert(acts.take(plan@.len() as int) =~= acts);
        state.status = RecoveryStatus::Verifying;
        if self.verify_recovery(&state) {
            state.status = RecoveryStatus::Completed;
            self.state_store.push(state);
            assert(self.state_store@.drop_last() =~= old(self).state_store@);
            Ok(())
        } else {
            state.status = RecoveryStatus::Failed(String::from_str("Verification failed"));
            self.state_store.push(state);
            assert(self.state_store@.drop_last() =~= old(self).state_store@);
            proof {
                reveal_strlit("Verification failed");
                reveal_strlit("Recovery verification failed");
            }
            Err(Error::Recovery(String::from_str("Recovery verification failed")))
        }
    }

    /// Recovers from the failure of `failed_node`: the partitions it leads
    /// or holds a copy of are listed, in the order of the table, and
    /// recovered as `execute_recovery` says. Each listed partition is in
    /// the table, so none is missing.
    pub fn handle_node_failure(&mut self, failed_node: String) -> (r: Result<(), Error>)
        ensures
            final(self).active_nodes@ == old(self).active_nodes@,
            final(self).min_replicas == old(self).min_replicas,
            match plan_list(old(self).parts(), affected_ids(old(self).parts(), failed_node@), failed_node@, old(self).active(), old(self).min_replicas as nat) {
                PlanOutcome::NoNodes => r == Err::<(), Error>(Error::NoAvailableNodes) && final(self).parts() == old(self).parts(),
                PlanOutcome::Unknown(_) => false,
                PlanOutcome::Planned(acts) => {
                    let after = apply_all(old(self).parts(), acts, failed_node@);
                    let ok = recovered(after, affected_ids(old(self).parts(), failed_node@), old(self).active(), old(self).min_replicas as nat);
                    &&& final(self).parts() == after
                    &&& (ok <==> r is Ok)
                    &&& (!ok ==> (r matches Err(Error::Recovery(t)) && t@ == "Recovery verification failed"@))
                },
            },
    {
        let affected = self.identify_affected_partitions(&failed_node);
        proof {
            let parts = self.parts();
            let ids = affected_ids(parts, failed_node@);
            lemma_affected_ids(parts, failed_node@);
            assert forall|k: int| 0 <= k < ids.len() implies find_part(parts, #[trigger] ids[k]) is Some by {
                assert(affected_with_id(parts, failed_node@, ids[k]));
                let j = choose|j: int| 0 <= j < parts.len() && is_affected(parts[j], failed_node@) && parts[j].id == ids[k];
                lemma_find_part_some(parts, ids[k], j);
            }
            lemma_plan_known(parts, ids, failed_node@, self.active(), self.min_replicas as nat);
        }
        let state = RecoveryState {
            failed_node,
            affected_partitions: affected,
            recovery_start: now_unix_nanos(),
            status: RecoveryStatus::Planning,
        };
        self.execute_recovery(state)
    }
}

} // verus!
