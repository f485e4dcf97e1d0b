//! Rebalancing partitions between nodes. The cluster is out of balance
//! when some node's partition count deviates from the average by more than
//! a tenth of the average; a node is overloaded when it holds more than
//! 1.1 times the average. Each overloaded node then gives every other node,
//! in order, half the difference between their counts, taking its
//! partitions in order and never moving one twice. The comparisons with
//! the average are made exactly, in integers: `c > 1.1 * t / n` as
//! `10 * c * n > 11 * t`.
use vstd::prelude::*;
use crate::text::views;

verus! {

/// What the balancer reads of a node: its id and the partitions it holds.
/// (Its CPU, memory and network figures play no part in the decision.)
#[derive(Debug)]
pub struct NodeLoad {
    pub node_id: String,
    pub partitions: Vec<u32>,
}

/// A node's load as plain values.
pub struct LoadView {
    pub node: Seq<char>,
    pub parts: Seq<u32>,
}

impl View for NodeLoad {
    type V = LoadView;

    open spec fn view(&self) -> LoadView {
        LoadView { node: self.node_id@, parts: self.partitions@ }
    }
}

pub open spec fn load_views(v: Seq<NodeLoad>) -> Seq<LoadView> {
    v.map_values(|l: NodeLoad| l@)
}

/// One partition to move.
#[derive(Debug, Clone, PartialEq, Eq)]
pub struct PartitionMove {
    pub partition_id: u32,
    pub source: String,
    pub target: String,
}

/// A move as plain values.
pub struct MoveView {
    pub partition_id: u32,
    pub source: Seq<char>,
    pub target: Seq<char>,
}

impl View for PartitionMove {
    type V = MoveView;

    open spec fn view(&self) -> MoveView {
        MoveView { partition_id: self.partition_id, source: self.source@, target: self.target@ }
    }
}

pub open spec fn move_views(v: Seq<PartitionMove>) -> Seq<MoveView> {
    v.map_values(|m: PartitionMove| m@)
}

#[derive(Debug)]
pub enum RebalanceAction {
    MovePartitions(Vec<PartitionMove>),
    NoAction,
}

/// The number of partitions of all the nodes.
pub open spec fn total(loads: Seq<LoadView>) -> int
    decreases loads.len(),
{
    if loads.len() == 0 {
        0
    } else {
        total(loads.drop_last()) + loads.last().parts.len()
    }
}

/// Whether a count `c` deviates from the average `t / n` by more than a
/// tenth of the average.
pub open spec fn deviates(c: int, n: int, t: int) -> bool {
    let d = c * n - t;
    10 * (if d < 0 { -d } else { d }) > t
}

/// Whether a count `c` is more than 1.1 times the average `t / n`.
pub open spec fn overloaded(c: int, n: int, t: int) -> bool {
    10 * (c * n) > 11 * t
}

/// Whether some node deviates from the average by more than a tenth.
pub open spec fn imbalanced(loads: Seq<LoadView>) -> bool {
    exists|i: int| 0 <= i < loads.len() && #[trigger] deviates(loads[i].parts.len() as int, loads.len() as int, total(loads))
}

/// The nodes that are not overloaded, in order.
pub open spec fn underloaded(loads: Seq<LoadView>, n: int, t: int) -> Seq<LoadView>
    decreases loads.len(),
{
    if loads.len() == 0 {
        Seq::empty()
    } else {
        let r = underloaded(loads.drop_last(), n, t);
        if overloaded(loads.last().parts.len() as int, n, t) {
            r
        } else {
            r.push(loads.last())
        }
    }
}

/// The moves of the overloaded node `src` to `targets`, in order: each
/// target gets half the difference of their counts, from the partitions of
/// `src` after the first `used`, as far as they go. How many partitions go
/// and which is this library's own rule: the node's code names the choice
/// but does not make it.
pub open spec fn pair_moves(src: LoadView, targets: Seq<LoadView>, used: int) -> Seq<MoveView>
    decreases targets.len(),
{
    if targets.len() == 0 {
        Seq::empty()
    } else {
        let k = if src.parts.len() >= targets[0].parts.len() {
            (src.parts.len() - targets[0].parts.len()) / 2
        } else {
            0
        };
        let left = src.parts.len() - used;
        let take = if k < left { k } else { left };
        let here = Seq::new(take as nat, |j: int| MoveView {
            partition_id: src.parts[used + j],
            source: src.node,
            target: targets[0].node,
        });
        here + pair_moves(src, targets.drop_first(), used + take)
    }
}

/// All moves: those of each overloaded node in order.
pub open spec fn plan_moves(loads: Seq<LoadView>, n: int, t: int, targets: Seq<LoadView>) -> Seq<MoveView>
    decreases loads.len(),
{
    if loads.len() == 0 {
        Seq::empty()
    } else {
        let r = plan_moves(loads.drop_last(), n, t, targets);
        let src = loads.last();
        if overloaded(src.parts.len() as int, n, t) {
            r + pair_moves(src, targets, 0)
        } else {
            r
        }
    }
}

/// The action for the loads: no action when the cluster is in balance or no
/// move comes out of the plan, else the moves.
pub open spec fn action_spec(loads: Seq<LoadView>) -> Option<Seq<MoveView>> {
    let n = loads.len() as int;
    let t = total(loads);
    let moves = plan_moves(loads, n, t, underloaded(loads, n, t));
    if imbalanced(loads) && moves.len() > 0 {
        Some(moves)
    } else {
        None
    }
}

/// The moves of `src` take partitions that `src` holds, to nodes among
/// `targets`.
proof fn lemma_pair_moves(src: LoadView, targets: Seq<LoadView>, used: int)
    requires
        0 <= used <= src.parts.len(),
    ensures
        forall|i: int| 0 <= i < pair_moves(src, targets, used).len() ==> {
            let m = #[trigger] pair_moves(src, targets, used)[i];
            &&& m.source == src.node
            &&& src.parts.contains(m.partition_id)
            &&& exists|k: int| 0 <= k < targets.len() && targets[k].node == m.target
        },
    decreases targets.len(),
{
    if targets.len() > 0 {
        let k = if src.parts.len() >= targets[0].parts.len() {
            (src.parts.len() - targets[0].parts.len()) / 2
        } else {
            0
        };
        let left = src.parts.len() - used;
        let take = if k < left { k } else { left };
        let here = Seq::new(take as nat, |j: int| MoveView {
            partition_id: src.parts[used + j],
            source: src.node,
            target: targets[0].node,
        });
        lemma_pair_moves(src, targets.drop_first(), used + take);
        let rest = pair_moves(src, targets.drop_first(), used + take);
        assert(pair_moves(src, targets, used) == here + rest);
        assert forall|i: int| 0 <= i < pair_moves(src, targets, used).len() implies {
            let m = #[trigger] pair_moves(src, targets, used)[i];
            &&& m.source == src.node
            &&& src.parts.contains(m.partition_id)
            &&& exists|k: int| 0 <= k < targets.len() && targets[k].node == m.target
        } by {
            let m = pair_moves(src, targets, used)[i];
            if i < take {
                assert(m == here[i]);
                assert(src.parts[used + i] == m.partition_id);
                assert(targets[0].node == m.target);
            } else {
                assert(m == rest[i - take]);
                let k2 = choose|k2: int| 0 <= k2 < targets.drop_first().len() && targets.drop_first()[k2].node == m.target;
                assert(targets[k2 + 1].node == m.target);
            }
        }
    }
}

/// The nodes that are not overloaded are nodes of the loads.
proof fn lemma_underloaded(loads: Seq<LoadView>, n: int, t: int)
    ensures
        forall|i: int| 0 <= i < underloaded(loads, n, t).len() ==> exists|j: int| 0 <= j < loads.len()
            && loads[j] == #[trigger] underloaded(loads, n, t)[i] && !overloaded(loads[j].parts.len() as int, n, t),
    decreases loads.len(),
{
    if loads.len() > 0 {
        lemma_underloaded(loads.drop_last(), n, t);
        let r = underloaded(loads.drop_last(), n, t);
        assert forall|i: int| 0 <= i < underloaded(loads, n, t).len() implies exists|j: int| 0 <= j < loads.len()
            && loads[j] == #[trigger] underloaded(loads, n, t)[i] && !overloaded(loads[j].parts.len() as int, n, t) by {
            if i < r.len() {
                assert(underloaded(loads, n, t)[i] == r[i]);
                let j = choose|j: int| 0 <= j < loads.drop_last().len() && loads.drop_last()[j] == r[i]
                    && !overloaded(loads.drop_last()[j].parts.len() as int, n, t);
                assert(loads[j] == loads.drop_last()[j]);
            } else {
                assert(loads[loads.len() - 1] == loads.last());
            }
        }
    }
}

/// Every move of a plan takes a partition that its source holds, from an
/// overloaded node, to a node among `targets`.
proof fn lemma_plan_moves(loads: Seq<LoadView>, n: int, t: int, targets: Seq<LoadView>)
    ensures
        forall|i: int| 0 <= i < plan_moves(loads, n, t, targets).len() ==> {
            let m = #[trigger] plan_moves(loads, n, t, targets)[i];
            &&& exists|j: int| 0 <= j < loads.len() && loads[j].node == m.source
                && overloaded(loads[j].parts.len() as int, n, t) && loads[j].parts.contains(m.partition_id)
            &&& exists|k: int| 0 <= k < targets.len() && targets[k].node == m.target
        },
    decreases loads.len(),
{
    if loads.len() > 0 {
        lemma_plan_moves(loads.drop_last(), n, t, targets);
        let r = plan_moves(loads.drop_last(), n, t, targets);
        let src = loads.last();
        lemma_pair_moves(src, targets, 0);
        assert forall|i: int| 0 <= i < plan_moves(loads, n, t, targets).len() implies {
            let m = #[trigger] plan_moves(loads, n, t, targets)[i];
            &&& exists|j: int| 0 <= j < loads.len() && loads[j].node == m.source
                && overloaded(loads[j].parts.len() as int, n, t) && loads[j].parts.contains(m.partition_id)
            &&& exists|k: int| 0 <= k < targets.len() && targets[k].node == m.target
        } by {
            let m = plan_moves(loads, n, t, targets)[i];
            if i < r.len() {
                assert(m == r[i]);
                let j = choose|j: int| 0 <= j < loads.drop_last().len() && loads.drop_last()[j].node == m.source
                    && overloaded(loads.drop_last()[j].parts.len() as int, n, t) && loads.drop_last()[j].parts.contains(m.partition_id);
                assert(loads[j] == loads.drop_last()[j]);
            } else {
                let p = pair_moves(src, targets, 0);
                assert(m == p[i - r.len()]);
                assert(loads[loads.len() - 1] == src);
            }
        }
    }
}

/// A rebalance only moves a partition away from an overloaded node that
/// holds it, and only to a node that is not overloaded.
pub proof fn lemma_moves_relieve_overloaded(loads: Seq<LoadView>)
    ensures
        action_spec(loads) matches Some(moves) ==> forall|i: int| 0 <= i < moves.len() ==> {
            let m = #[trigger] moves[i];
            let n = loads.len() as int;
            let t = total(loads);
            &&& exists|j: int| 0 <= j < loads.len() && loads[j].node == m.source
                && overloaded(loads[j].parts.len() as int, n, t) && loads[j].parts.contains(m.partition_id)
            &&& exists|k: int| 0 <= k < loads.len() && loads[k].node == m.target
                && !overloaded(loads[k].parts.len() as int, n, t)
        },
{
    let n = loads.len() as int;
    let t = total(loads);
    let targets = underloaded(loads, n, t);
    lemma_plan_moves(loads, n, t, targets);
    lemma_underloaded(loads, n, t);
    if let Some(moves) = action_spec(loads) {
        assert forall|i: int| 0 <= i < moves.len() implies {
            let m = #[trigger] moves[i];
            &&& exists|j: int| 0 <= j < loads.len() && loads[j].node == m.source
                && overloaded(loads[j].parts.len() as int, n, t) && loads[j].parts.contains(m.partition_id)
            &&& exists|k: int| 0 <= k < loads.len() && loads[k].node == m.target
                && !overloaded(loads[k].parts.len() as int, n, t)
        } by {
            let m = moves[i];
            assert(m == plan_moves(loads, n, t, targets)[i]);
            let k = choose|k: int| 0 <= k < targets.len() && targets[k].node == m.target;
            let j = choose|j: int| 0 <= j < loads.len() && loads[j] == targets[k] && !overloaded(loads[j].parts.len() as int, n, t);
            assert(loads[j].node == m.target);
        }
    }
}

/// The balance test is a 10% threshold: the cluster is out of balance
/// exactly when some node holds more than 1.1 times, or less than 0.9
/// times, the average count (`total / n`), written without division.
pub proof fn lemma_ten_percent_threshold(loads: Seq<LoadView>)
    ensures
        imbalanced(loads) <==> exists|i: int| 0 <= i < loads.len() && {
            let c = (#[trigger] loads[i]).parts.len() as int;
            let n = loads.len() as int;
            let t = total(loads);
            10 * (c * n) > 11 * t || 10 * (c * n) < 9 * t
        },
{
    let n = loads.len() as int;
    let t = total(loads);
    if imbalanced(loads) {
        let i = choose|i: int| 0 <= i < loads.len() && #[trigger] deviates(loads[i].parts.len() as int, loads.len() as int, total(loads));
        let c = loads[i].parts.len() as int;
        let cn = c * n;
        assert(10 * cn > 11 * t || 10 * cn < 9 * t);
    }
    if exists|i: int| 0 <= i < loads.len() && {
        let c = (#[trigger] loads[i]).parts.len() as int;
        10 * (c * n) > 11 * t || 10 * (c * n) < 9 * t
    } {
        let i = choose|i: int| 0 <= i < loads.len() && {
            let c = (#[trigger] loads[i]).parts.len() as int;
            10 * (c * n) > 11 * t || 10 * (c * n) < 9 * t
        };
        let c = loads[i].parts.len() as int;
        assert(deviates(c, n, t));
    }
}

/// The moves of `src` to `targets`, starting from its first partition, are
/// not empty when some target holds at least two partitions fewer.
proof fn lemma_pair_moves_nonempty(src: LoadView, targets: Seq<LoadView>, j: int)
    requires
        0 <= j < targets.len(),
        src.parts.len() >= targets[j].parts.len() + 2,
    ensures
        pair_moves(src, targets, 0).len() > 0,
    decreases targets.len(),
{
    let k = if src.parts.len() >= targets[0].parts.len() {
        (src.parts.len() - targets[0].parts.len()) / 2
    } else {
        0
    };
    let left = src.parts.len() - 0;
    let take = if k < left { k } else { left };
    if take == 0 {
        assert(j > 0);
        assert(targets.drop_first()[j - 1] == targets[j]);
        lemma_pair_moves_nonempty(src, targets.drop_first(), j - 1);
    }
}

/// The plan has a move when an overloaded node and a target holding two
/// partitions fewer are both there.
proof fn lemma_plan_moves_nonempty(loads: Seq<LoadView>, n: int, t: int, targets: Seq<LoadView>, a: int, j: int)
    requires
        0 <= a < loads.len(),
        0 <= j < targets.len(),
        overloaded(loads[a].parts.len() as int, n, t),
        loads[a].parts.len() >= targets[j].parts.len() + 2,
    ensures
        plan_moves(loads, n, t, targets).len() > 0,
    decreases loads.len(),
{
    if a == loads.len() - 1 {
        assert(loads.last() == loads[a]);
        lemma_pair_moves_nonempty(loads[a], targets, j);
    } else {
        assert(loads.drop_last()[a] == loads[a]);
        lemma_plan_moves_nonempty(loads.drop_last(), n, t, targets, a, j);
    }
}

/// A node that is not overloaded is among the targets.
proof fn lemma_underloaded_has(loads: Seq<LoadView>, n: int, t: int, b: int)
    requires
        0 <= b < loads.len(),
        !overloaded(loads[b].parts.len() as int, n, t),
    ensures
        underloaded(loads, n, t).contains(loads[b]),
    decreases loads.len(),
{
    if b < loads.len() - 1 {
        assert(loads.drop_last()[b] == loads[b]);
        lemma_underloaded_has(loads.drop_last(), n, t, b);
        let r = underloaded(loads.drop_last(), n, t);
        let k = choose|k: int| 0 <= k < r.len() && r[k] == loads[b];
        assert(underloaded(loads, n, t)[k] == loads[b]);
    } else {
        assert(loads.last() == loads[b]);
        let r = underloaded(loads.drop_last(), n, t);
        assert(underloaded(loads, n, t)[r.len() as int] == loads[b]);
    }
}

/// A node above 1.1 times the average gets relieved: when some node holds
/// more than 1.1 times the average count and another, holding no more than
/// 1.1 times it, holds at least two partitions fewer, the cluster is out of
/// balance and the rebalance moves partitions.
pub proof fn lemma_overload_is_relieved(loads: Seq<LoadView>, a: int, b: int)
    requires
        0 <= a < loads.len(),
        0 <= b < loads.len(),
        10 * (loads[a].parts.len() * loads.len()) > 11 * total(loads),
        10 * (loads[b].parts.len() * loads.len()) <= 11 * total(loads),
        loads[a].parts.len() >= loads[b].parts.len() + 2,
    ensures
        imbalanced(loads),
        action_spec(loads) matches Some(moves) && moves.len() > 0,
{
    let n = loads.len() as int;
    let t = total(loads);
    lemma_ten_percent_threshold(loads);
    assert(10 * ((loads[a].parts.len() as int) * n) > 11 * t);
    lemma_underloaded_has(loads, n, t, b);
    let targets = underloaded(loads, n, t);
    let j = choose|j: int| 0 <= j < targets.len() && targets[j] == loads[b];
    lemma_plan_moves_nonempty(loads, n, t, targets, a, j);
}

proof fn lemma_total_prefix(loads: Seq<LoadView>, i: int)
    requires
        0 <= i <= loads.len(),
    ensures
        total(loads.take(i)) <= total(loads),
        0 <= total(loads.take(i)),
    decreases loads.len() - i,
{
    if i < loads.len() {
        lemma_total_prefix(loads, i + 1);
        assert(loads.take(i + 1).drop_last() =~= loads.take(i));
    } else {
        assert(loads.take(i) =~= loads);
        lemma_total_nonneg(loads);
    }
    lemma_total_nonneg(loads.take(i));
}

proof fn lemma_total_nonneg(loads: Seq<LoadView>)
    ensures
        total(loads) >= 0,
    decreases loads.len(),
{
    if loads.len() > 0 {
        lemma_total_nonneg(loads.drop_last());
    }
}

/// A node's count is at most the total.
proof fn lemma_count_le_total(loads: Seq<LoadView>, i: int)
    requires
        0 <= i < loads.len(),
    ensures
        loads[i].parts.len() <= total(loads),
    decreases loads.len(),
{
    lemma_total_nonneg(loads.drop_last());
    if i < loads.len() - 1 {
        lemma_count_le_total(loads.drop_last(), i);
    }
}

/// The sum of the partition counts, when it fits in a `u64`.
fn total_count(loads: &Vec<NodeLoad>) -> (t: u64)
    requires
        total(load_views(loads@)) <= u64::MAX,
    ensures
        t == total(load_views(loads@)),
{
    let ghost lv = load_views(loads@);
    let mut t: u64 = 0;
    let mut i: usize = 0;
    while i < loads.len()
        invariant
            lv == load_views(loads@),
            total(lv) <= u64::MAX,
            i <= loads@.len(),
            t == total(lv.take(i as int)),
        decreases loads@.len() - i,
    {
        assert(lv.take(i as int + 1).drop_last() =~= lv.take(i as int));
        proof { lemma_total_prefix(lv, i as int + 1); }
        t = t + loads[i].partitions.len() as u64;
        i = i + 1;
    }
    assert(lv.take(loads@.len() as int) =~= lv);
    t
}

/// `c * n`, in a width that holds it.
fn scaled(c: u64, n: u64) -> (r: u128)
    ensures
        r == c * n,
{
    proof {
        assert((c as int) * (n as int) <= (u64::MAX as int) * (u64::MAX as int)) by (nonlinear_arith)
            requires c <= u64::MAX, n <= u64::MAX;
        assert((c as int) * (n as int) >= 0) by (nonlinear_arith)
            requires c >= 0, n >= 0;
    }
    (c as u128) * (n as u128)
}

fn is_overloaded(c: u64, n: u64, t: u64) -> (r: bool)
    ensures
        r == overloaded(c as int, n as int, t as int),
{
    let cn = scaled(c, n);
    let q: u128 = (11 * (t as u128)) / 10;
    assert((10 * (cn as int) > 11 * (t as int)) == (cn > q));
    cn > q
}

fn is_deviating(c: u64, n: u64, t: u64) -> (r: bool)
    ensures
        r == deviates(c as int, n as int, t as int),
{
    let cn = scaled(c, n);
    let d: u128 = if cn >= t as u128 { cn - t as u128 } else { t as u128 - cn };
    let q: u128 = (t as u128) / 10;
    assert((10 * (d as int) > t as int) == (d > q));
    d > q
}

pub struct RebalanceManager {
    pub node_id: String,
}

impl RebalanceManager {
    pub fn new(node_id: String) -> (m: RebalanceManager)
        ensures
            m.node_id == node_id,
    {
        RebalanceManager { node_id }
    }

    /// Whether some node deviates from the average count by more than a
    /// tenth of it.
    pub fn calculate_imbalance(&self, loads: &Vec<NodeLoad>) -> (r: bool)
        requires
            total(load_views(loads@)) <= u64::MAX,
        ensures
            r == imbalanced(load_views(loads@)),
    {
        let ghost lv = load_views(loads@);
        let t = total_count(loads);
        let n = loads.len() as u64;
        let mut i: usize = 0;
        while i < loads.len()
            invariant
                lv == load_views(loads@),
                n == lv.len(),
                t == total(lv),
                i <= loads@.len(),
                forall|j: int| 0 <= j < i ==> !#[trigger] deviates(lv[j].parts.len() as int, n as int, t as int),
            decreases loads@.len() - i,
        {
            proof { lemma_count_le_total(lv, i as int); }
            let c = loads[i].partitions.len() as u64;
            assert(c == lv[i as int].parts.len());
            if is_deviating(c, n, t) {
                return true;
            }
            i = i + 1;
        }
        false
    }

    /// The moves that an overloaded node makes to `targets`.
    fn moves_to_targets(src: &NodeLoad, targets: &Vec<&NodeLoad>, out: &mut Vec<PartitionMove>)
        ensures
            move_views(final(out)@) == move_views(old(out)@) + pair_moves(src@, targets@.map_values(|l: &NodeLoad| l@), 0),
    {
        let ghost tv = targets@.map_values(|l: &NodeLoad| l@);
        let ghost start = move_views(out@);
        let mut used: usize = 0;
        let mut j: usize = 0;
        assert(tv.subrange(0, tv.len() as int) =~= tv);
        while j < targets.len()
            invariant
                tv == targets@.map_values(|l: &NodeLoad| l@),
                j <= targets@.len(),
                used <= src.partitions@.len(),
                move_views(out@) + pair_moves(src@, tv.subrange(j as int, tv.len() as int), used as int)
                    == start + pair_moves(src@, tv, 0),
            decreases targets@.len() - j,
        {
            let t = targets[j];
            let ghost rest = tv.subrange(j as int, tv.len() as int);
            assert(rest[0] == t@);
            assert(rest.drop_first() =~= tv.subrange(j as int + 1, tv.len() as int));
            let sc = src.partitions.len();
            let tc = t.partitions.len();
            let k: usize = if sc >= tc { (sc - tc) / 2 } else { 0 };
            let left = sc - used;
            let take = if k < left { k } else { left };
            let ghost before = move_views(out@);
            let mut m: usize = 0;
            while m < take
                invariant
                    take <= left,
                    left == src.partitions@.len() - used,
                    used + take <= sc,
                    sc == src.partitions@.len(),
                    m <= take,
                    move_views(out@) == before + Seq::new(m as nat, |x: int| MoveView {
                        partition_id: src@.parts[used + x],
                        source: src@.node,
                        target: t@.node,
                    }),
                decreases take - m,
            {
                let mv = PartitionMove {
                    partition_id: src.partitions[used + m],
                    source: src.node_id.clone(),
                    target: t.node_id.clone(),
                };
                let ghost prev = move_views(out@);
                out.push(mv);
                assert(move_views(out@) =~= prev.push(mv@));
                assert(mv@ == MoveView { partition_id: src@.parts[used + m], source: src@.node, target: t@.node });
                assert(move_views(out@) =~= before + Seq::new((m + 1) as nat, |x: int| MoveView {
                    partition_id: src@.parts[used + x],
                    source: src@.node,
                    target: t@.node,
                }));
                m = m + 1;
            }
            proof {
                let here = Seq::new(take as nat, |x: int| MoveView {
                    partition_id: src@.parts[used + x],
                    source: src@.node,
                    target: t@.node,
                });
                assert(pair_moves(src@, rest, used as int) == here + pair_moves(src@, rest.drop_first(), used + take));
                assert(move_views(out@) + pair_moves(src@, tv.subrange(j as int + 1, tv.len() as int), used + take)
                    =~= before + pair_moves(src@, rest, used as int));
            }
            used = used + take;
            j = j + 1;
        }
        assert(move_views(out@) + pair_moves(src@, tv.subrange(j as int, tv.len() as int), used as int) =~= move_views(out@));
    }

    /// The plan: each overloaded node, in order, gives the nodes that are
    /// not overloaded their share of its partitions. No moves is no action.
    pub fn plan_rebalance(&self, loads: &Vec<NodeLoad>) -> (r: RebalanceAction)
        requires
            total(load_views(loads@)) <= u64::MAX,
        ensures
            ({
                let lv = load_views(loads@);
                let n = lv.len() as int;
                let t = total(lv);
                let moves = plan_moves(lv, n, t, underloaded(lv, n, t));
                if moves.len() > 0 {
                    r matches RebalanceAction::MovePartitions(v) && move_views(v@) == moves
                } else {
                    r is NoAction
                }
            }),
    {
        let ghost lv = load_views(loads@);
        let t = total_count(loads);
        let n = loads.len() as u64;
        let mut targets: Vec<&NodeLoad> = Vec::new();
        let mut i: usize = 0;
        while i < loads.len()
            invariant
                lv == load_views(loads@),
                n == lv.len(),
                t == total(lv),
                i <= loads@.len(),
                targets@.map_values(|l: &NodeLoad| l@) == underloaded(lv.take(i as int), n as int, t as int),
            decreases loads@.len() - i,
        {
            proof { lemma_count_le_total(lv, i as int); }
            assert(lv.take(i as int + 1).drop_last() =~= lv.take(i as int));
            assert(lv.take(i as int + 1).last() == loads@[i as int]@);
            let c = loads[i].partitions.len() as u64;
            if !is_overloaded(c, n, t) {
                let ghost before = targets@.map_values(|l: &NodeLoad| l@);
                targets.push(&loads[i]);
                assert(targets@.map_values(|l: &NodeLoad| l@) =~= before.push(loads@[i as int]@));
            }
            i = i + 1;
        }
        assert(lv.take(loads@.len() as int) =~= lv);
        let ghost tv = targets@.map_values(|l: &NodeLoad| l@);
        let mut moves: Vec<PartitionMove> = Vec::new();
        let mut i: usize = 0;
        while i < loads.len()
            invariant
                lv == load_views(loads@),
                n == lv.len(),
                t == total(lv),
                i <= loads@.len(),
                tv == targets@.map_values(|l: &NodeLoad| l@),
                move_views(moves@) == plan_moves(lv.take(i as int), n as int, t as int, tv),
            decreases loads@.len() - i,
        {
            proof { lemma_count_le_total(lv, i as int); }
            assert(lv.take(i as int + 1).drop_last() =~= lv.take(i as int));
            assert(lv.take(i as int + 1).last() == loads@[i as int]@);
            let c = loads[i].partitions.len() as u64;
            if is_overloaded(c, n, t) {
                Self::moves_to_targets(&loads[i], &targets, &mut moves);
            }
            i = i + 1;
        }
        if moves.len() > 0 {
            RebalanceAction::MovePartitions(moves)
        } else {
            RebalanceAction::NoAction
        }
    }

    /// The action for the reported loads: the plan's moves when the cluster
    /// is out of balance and the plan has any, else no action.
    pub fn check_balance(&self, loads: &Vec<NodeLoad>) -> (r: RebalanceAction)
        requires
            total(load_views(loads@)) <= u64::MAX,
        ensures
            match action_spec(load_views(loads@)) {
                Some(moves) => r matches RebalanceAction::MovePartitions(v) && move_views(v@) == moves,
                None => r is NoAction,
            },
    {
        if self.calculate_imbalance(loads) {
            self.plan_rebalance(loads)
        } else {
            RebalanceAction::NoAction
        }
    }
}

} // verus!
