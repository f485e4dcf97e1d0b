//! A consumer group: its members and the partitions shared out among them.
use vstd::prelude::*;
use std::collections::HashSet;
use crate::collections::StringMap;
use crate::rafka_core::Error;
use crate::platform::now_unix_nanos;

verus! {

broadcast use vstd::std_specs::hash::group_hash_axioms;

/// Every element of `s` is below the next.
pub open spec fn strictly_increasing(s: Seq<u32>) -> bool {
    forall|i: int, j: int| 0 <= i < j < s.len() ==> s[i] < s[j]
}

/// Puts `x`, which `v` does not hold, in its place in the increasing `v`.
fn insert_sorted(v: &mut Vec<u32>, x: u32)
    requires
        strictly_increasing(old(v)@),
        !old(v)@.contains(x),
    ensures
        strictly_increasing(final(v)@),
        final(v)@.to_set() == old(v)@.to_set().insert(x),
        final(v)@.len() == old(v)@.len() + 1,
{
    let mut pos: usize = 0;
    while pos < v.len() && v[pos] < x
        invariant
            pos <= v@.len(),
            forall|j: int| 0 <= j < pos ==> v@[j] < x,
        decreases v@.len() - pos,
    {
        pos = pos + 1;
    }
    let ghost before = v@;
    v.insert(pos, x);
    proof {
        assert(pos < before.len() ==> before[pos as int] > x) by {
            if pos < before.len() {
                assert(before[pos as int] != x);
            }
        }
        assert forall|i: int, j: int| 0 <= i < j < v@.len() implies v@[i] < v@[j] by {
            if j < pos {
            } else if j == pos {
            } else if i < pos {
                assert(v@[j] == before[j - 1]);
            } else if i == pos {
                assert(v@[j] == before[j - 1]);
            } else {
                assert(v@[j] == before[j - 1]);
                assert(v@[i] == before[i - 1]);
            }
        }
        assert forall|y: u32| v@.to_set().contains(y) <==> before.to_set().insert(x).contains(y) by {
            if v@.to_set().contains(y) {
                let k = choose|k: int| 0 <= k < v@.len() && v@[k] == y;
                if k < pos {
                    assert(before[k] == y);
                } else if k > pos {
                    assert(before[k - 1] == y);
                }
            }
            if before.to_set().contains(y) {
                let k = choose|k: int| 0 <= k < before.len() && before[k] == y;
                if k < pos {
                    assert(v@[k] == y);
                } else {
                    assert(v@[k + 1] == y);
                }
            }
            if y == x {
                assert(v@[pos as int] == x);
            }
        }
        assert(v@.to_set() =~= before.to_set().insert(x));
    }
}

/// The partitions of `set` in increasing order.
pub fn sorted_partitions(set: &HashSet<u32>) -> (v: Vec<u32>)
    ensures
        strictly_increasing(v@),
        v@.to_set() == set@,
{
    let mut v: Vec<u32> = Vec::new();
    assert(v@.to_set() =~= Set::<u32>::empty());
    for p in it: set.iter()
        invariant
            strictly_increasing(v@),
            v@.to_set() == it.seq().take(it.index() as int).unref().to_set(),
            it.seq().no_duplicates(),
            it.seq().unref().to_set() == set@,
            it.index() == it.seq().len() ==> v@.to_set() == set@,
    {
        let ghost done = it.seq().take(it.index() as int).unref();
        assert(!v@.contains(*p)) by {
            if v@.contains(*p) {
                assert(v@.to_set().contains(*p));
                let k = choose|k: int| 0 <= k < done.len() && done[k] == *p;
                assert(it.seq()[k] == it.seq()[it.index() as int]);
            }
        }
        insert_sorted(&mut v, *p);
        assert(it.seq().take(it.index() + 1).unref() =~= done.push(*p));
        proof { done.lemma_push_to_set_commute(*p); }
        assert(it.index() + 1 == it.seq().len() ==> it.seq().take(it.index() + 1) =~= it.seq());
    }
    v
}

/// A member of a group: its id, when it last gave sign of life
/// (nanoseconds since the UNIX epoch), and the partitions it holds.
pub struct ConsumerMember {
    pub consumer_id: String,
    pub heartbeat: u128,
    pub assigned_partitions: HashSet<u32>,
}

/// How partitions are shared out: in ranges, in id order.
#[derive(Clone, Copy, Debug, PartialEq, Eq, Structural)]
pub enum AssignmentStrategy {
    RangeAssignment,
}

/// Shares `partitions` out in ranges among `members`: with `p` partitions
/// and `m` members, the first `p % m` members (in id order) take
/// `p / m + 1` consecutive partitions and the others `p / m`. What comes
/// back is every partition so given, in increasing order; with no members,
/// nothing.
pub fn assign_range(members: &StringMap<ConsumerMember>, partitions: &HashSet<u32>) -> (r: Result<Vec<u32>, Error>)
    requires
        members.wf(),
    ensures
        r matches Ok(v) && (if members@.len() == 0 {
            v@.len() == 0
        } else {
            strictly_increasing(v@) && v@.to_set() == partitions@
        }),
{
    let mut assignments: Vec<u32> = Vec::new();
    let partition_count = partitions.len();
    let member_count = members.len();
    if member_count == 0 {
        return Ok(assignments);
    }
    let partitions_per_consumer = partition_count / member_count;
    let remainder = partition_count % member_count;
    let sorted = sorted_partitions(partitions);
    proof {
        assert(sorted@.no_duplicates());
        sorted@.unique_seq_to_set();
    }
    let mut current_partition: usize = 0;
    let mut i: usize = 0;
    while i < member_count
        invariant
            member_count > 0,
            partitions_per_consumer == partition_count / member_count,
            remainder == partition_count % member_count,
            sorted@.len() == partition_count,
            i <= member_count,
            current_partition as int == i * partitions_per_consumer + (if i < remainder { i as int } else { remainder as int }),
            current_partition <= partition_count,
            assignments@ == sorted@.take(current_partition as int),
        decreases member_count - i,
    {
        let mut member_partitions = partitions_per_consumer;
        if i < remainder {
            assert(partitions_per_consumer < usize::MAX) by (nonlinear_arith)
                requires
                    remainder > 0,
                    remainder < member_count,
                    partitions_per_consumer == partition_count / member_count,
                    partition_count <= usize::MAX;
            member_partitions = member_partitions + 1;
        }
        proof {
            assert((i + 1) * partitions_per_consumer + (if i + 1 < remainder { (i + 1) as int } else { remainder as int })
                <= member_count * partitions_per_consumer + remainder) by (nonlinear_arith)
                requires
                    i + 1 <= member_count,
                    remainder < member_count;
            assert(member_count * partitions_per_consumer + remainder == partition_count) by (nonlinear_arith)
                requires
                    member_count > 0,
                    partitions_per_consumer == partition_count / member_count,
                    remainder == partition_count % member_count;
            assert((i + 1) * partitions_per_consumer == i * partitions_per_consumer + partitions_per_consumer) by (nonlinear_arith);
        }
        let mut k: usize = 0;
        let ghost start = current_partition;
        while k < member_partitions
            invariant
                k <= member_partitions,
                current_partition == start + k,
                start + member_partitions <= partition_count,
                sorted@.len() == partition_count,
                assignments@ == sorted@.take(current_partition as int),
            decreases member_partitions - k,
        {
            if current_partition < sorted.len() {
                assignments.push(sorted[current_partition]);
                assert(sorted@.take(current_partition + 1) =~= sorted@.take(current_partition as int).push(sorted@[current_partition as int]));
                current_partition = current_partition + 1;
            }
            k = k + 1;
        }
        i = i + 1;
    }
    proof {
        assert(member_count * partitions_per_consumer + remainder == partition_count) by (nonlinear_arith)
            requires
                member_count > 0,
                partitions_per_consumer == partition_count / member_count,
                remainder == partition_count % member_count;
        assert(sorted@.take(partition_count as int) =~= sorted@);
    }
    Ok(assignments)
}

pub struct ConsumerGroup {
    group_id: String,
    members: StringMap<ConsumerMember>,
    partitions: HashSet<u32>,
    assignment_strategy: AssignmentStrategy,
}

impl ConsumerGroup {
    pub closed spec fn wf(&self) -> bool {
        self.members.wf()
    }

    /// The ids of the members.
    pub closed spec fn member_ids(&self) -> Set<Seq<char>> {
        self.members@.dom()
    }

    /// The partitions of the group.
    pub closed spec fn partition_set(&self) -> Set<u32> {
        self.partitions@
    }

    pub closed spec fn id(&self) -> Seq<char> {
        self.group_id@
    }

    /// A group with no members and no partitions, sharing out in ranges.
    pub fn new(group_id: String) -> (g: ConsumerGroup)
        ensures
            g.wf(),
            g.id() == group_id@,
            g.member_ids() == Set::<Seq<char>>::empty(),
            g.partition_set() == Set::<u32>::empty(),
    {
        let g = ConsumerGroup {
            group_id,
            members: StringMap::new(),
            partitions: HashSet::new(),
            assignment_strategy: AssignmentStrategy::RangeAssignment,
        };
        g
    }

    /// The partitions shared out among the current members.
    fn rebalance(&self) -> (r: Result<Vec<u32>, Error>)
        requires
            self.wf(),
        ensures
            r matches Ok(v) && (if self.member_ids().len() == 0 {
                v@.len() == 0
            } else {
                strictly_increasing(v@) && v@.to_set() == self.partition_set()
            }),
    {
        match self.assignment_strategy {
            AssignmentStrategy::RangeAssignment => assign_range(&self.members, &self.partitions),
        }
    }

    /// Adds a member (in place of one with the same id) and shares the
    /// partitions out again; what comes back is the sharing.
    pub fn join(&mut self, consumer_id: String) -> (r: Result<Vec<u32>, Error>)
        requires
            old(self).wf(),
        ensures
            final(self).wf(),
            final(self).member_ids() == old(self).member_ids().insert(consumer_id@),
            final(self).partition_set() == old(self).partition_set(),
            final(self).id() == old(self).id(),
            r matches Ok(v) && strictly_increasing(v@) && v@.to_set() == final(self).partition_set(),
    {
        let member = ConsumerMember {
            consumer_id: consumer_id.clone(),
            heartbeat: now_unix_nanos(),
            assigned_partitions: HashSet::new(),
        };
        self.members.insert(consumer_id, member);
        proof {
            assert(self.members@.dom().contains(consumer_id@));
            self.members.lemma_finite();
            if self.members@.dom().len() == 0 {
                self.members@.dom().lemma_len0_is_empty();
            }
        }
        self.rebalance()
    }

    /// Removes a member, if present, and shares the partitions out again.
    pub fn leave(&mut self, consumer_id: &String) -> (r: Result<(), Error>)
        requires
            old(self).wf(),
        ensures
            final(self).wf(),
            final(self).member_ids() == old(self).member_ids().remove(consumer_id@),
            final(self).partition_set() == old(self).partition_set(),
            final(self).id() == old(self).id(),
            r is Ok,
    {
        let _ = self.members.remove(consumer_id);
        let _ = self.rebalance()?;
        Ok(())
    }
}

} // verus!
