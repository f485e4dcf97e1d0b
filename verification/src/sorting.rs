//! Putting numbers in increasing order.
use vstd::prelude::*;

verus! {

/// `t` with `x` put before its first element above `x`.
pub open spec fn insert_in_order(t: Seq<u64>, x: u64) -> Seq<u64>
    decreases t.len(),
{
    if t.len() == 0 {
        seq![x]
    } else if t[0] > x {
        seq![x] + t
    } else {
        seq![t[0]] + insert_in_order(t.drop_first(), x)
    }
}

/// `s` in increasing order (equal numbers keep their order).
pub open spec fn sorted(s: Seq<u64>) -> Seq<u64>
    decreases s.len(),
{
    if s.len() == 0 {
        Seq::empty()
    } else {
        insert_in_order(sorted(s.drop_last()), s.last())
    }
}

pub open spec fn nondecreasing(s: Seq<u64>) -> bool {
    forall|i: int, j: int| 0 <= i <= j < s.len() ==> s[i] <= s[j]
}

/// The position at which `insert_in_order` puts `x`: after every element
/// that is not above it, when `t` is in order.
proof fn lemma_insert_at(t: Seq<u64>, x: u64, pos: int)
    requires
        0 <= pos <= t.len(),
        forall|j: int| 0 <= j < pos ==> t[j] <= x,
        pos < t.len() ==> t[pos] > x,
    ensures
        insert_in_order(t, x) == t.take(pos) + seq![x] + t.skip(pos),
    decreases t.len(),
{
    if t.len() == 0 {
        assert(seq![x] =~= t.take(pos) + seq![x] + t.skip(pos));
    } else if t[0] > x {
        assert(pos == 0);
        assert(seq![x] + t =~= t.take(pos) + seq![x] + t.skip(pos));
    } else {
        assert(pos > 0);
        let r = t.drop_first();
        lemma_insert_at(r, x, pos - 1);
        assert(seq![t[0]] + (r.take(pos - 1) + seq![x] + r.skip(pos - 1)) =~= t.take(pos) + seq![x] + t.skip(pos));
    }
}

proof fn lemma_insert_sorted(t: Seq<u64>, x: u64)
    requires
        nondecreasing(t),
    ensures
        nondecreasing(insert_in_order(t, x)),
        insert_in_order(t, x).len() == t.len() + 1,
        insert_in_order(t, x).to_multiset() == t.to_multiset().insert(x),
    decreases t.len(),
{
    broadcast use vstd::seq_lib::group_to_multiset_ensures;
    if t.len() == 0 {
        assert(insert_in_order(t, x) =~= seq![x]);
        assert(seq![x] =~= Seq::<u64>::empty().push(x));
    } else if t[0] > x {
        assert(seq![x] + t =~= seq![x].add(t));
        vstd::seq_lib::lemma_multiset_commutative(seq![x], t);
        assert(seq![x] =~= Seq::<u64>::empty().push(x));
    } else {
        let r = t.drop_first();
        lemma_insert_sorted(r, x);
        vstd::seq_lib::lemma_multiset_commutative(seq![t[0]], insert_in_order(r, x));
        vstd::seq_lib::lemma_multiset_commutative(seq![t[0]], r);
        assert(seq![t[0]] + r =~= t);
        let ins = insert_in_order(r, x);
        assert(ins.len() > 0);
        assert forall|i: int, j: int| 0 <= i <= j < ins.len() + 1 implies (seq![t[0]] + ins)[i] <= (seq![t[0]] + ins)[j] by {
            if i == 0 && j > 0 {
                let y = ins[j - 1];
                assert(ins.to_multiset().count(y) > 0);
                assert(t.to_multiset().insert(x).count(y) > 0 || r.to_multiset().insert(x).count(y) > 0);
                if y != x {
                    assert(r.to_multiset().count(y) > 0);
                    assert(r.contains(y));
                    let k = choose|k: int| 0 <= k < r.len() && r[k] == y;
                    assert(t[k + 1] == y);
                }
            }
        }
    }
}

/// `sorted` puts the numbers in increasing order and keeps them all.
pub proof fn lemma_sorted(s: Seq<u64>)
    ensures
        nondecreasing(sorted(s)),
        sorted(s).len() == s.len(),
        sorted(s).to_multiset() == s.to_multiset(),
    decreases s.len(),
{
    broadcast use vstd::seq_lib::group_to_multiset_ensures;
    if s.len() > 0 {
        lemma_sorted(s.drop_last());
        lemma_insert_sorted(sorted(s.drop_last()), s.last());
        assert(s.drop_last().push(s.last()) =~= s);
    } else {
        assert(s.to_multiset() =~= vstd::multiset::Multiset::<u64>::empty());
    }
}

/// The numbers of `v` in increasing order.
pub fn sort_u64(v: &Vec<u64>) -> (r: Vec<u64>)
    ensures
        r@ == sorted(v@),
{
    let mut r: Vec<u64> = Vec::new();
    let mut i: usize = 0;
    while i < v.len()
        invariant
            i <= v@.len(),
            r@ == sorted(v@.take(i as int)),
        decreases v@.len() - i,
    {
        let x = v[i];
        proof { lemma_sorted(v@.take(i as int)); }
        let mut pos: usize = 0;
        while pos < r.len() && r[pos] <= x
            invariant
                pos <= r@.len(),
                forall|j: int| 0 <= j < pos ==> r@[j] <= x,
            decreases r@.len() - pos,
        {
            pos = pos + 1;
        }
        let ghost before = r@;
        r.insert(pos, x);
        proof {
            lemma_insert_at(before, x, pos as int);
            assert(r@ =~= before.take(pos as int) + seq![x] + before.skip(pos as int));
            assert(v@.take(i + 1).drop_last() =~= v@.take(i as int));
        }
        i = i + 1;
    }
    assert(v@.take(v@.len() as int) =~= v@);
    r
}

} // verus!
