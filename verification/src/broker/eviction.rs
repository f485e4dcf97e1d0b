//! Choosing the partitions to evict from memory: given the partitions in
//! the order in which they should go and the memory each holds, they are
//! taken in that order until enough memory would be freed; none when no
//! memory needs freeing.
use vstd::prelude::*;
use crate::text::views;

verus! {

/// The partitions taken from `c` (id and memory held, in eviction order)
/// to free `to_free` bytes: while memory is still to be freed, the next
/// partition is taken and what it holds counts against what is left
/// (without going below zero). Nothing is taken when nothing is to be
/// freed.
pub open spec fn eviction_prefix(c: Seq<(Seq<char>, u64)>, to_free: int) -> Seq<Seq<char>>
    decreases c.len(),
{
    if c.len() == 0 || to_free <= 0 {
        Seq::empty()
    } else {
        let rest = if c[0].1 >= to_free { 0 } else { to_free - c[0].1 };
        seq![c[0].0] + eviction_prefix(c.drop_first(), rest)
    }
}

pub open spec fn candidate_views(v: Seq<(String, u64)>) -> Seq<(Seq<char>, u64)> {
    v.map_values(|e: (String, u64)| (e.0@, e.1))
}

/// The partitions to evict from `ordered` (best candidate first, with the
/// bytes each holds) to free `memory_to_free` bytes.
pub fn select_eviction_candidates(ordered: &Vec<(String, u64)>, memory_to_free: u64) -> (r: Vec<String>)
    ensures
        views(r@) == eviction_prefix(candidate_views(ordered@), memory_to_free as int),
{
    let ghost c = candidate_views(ordered@);
    let mut out: Vec<String> = Vec::new();
    let mut left = memory_to_free;
    let mut i: usize = 0;
    assert(c.subrange(0, c.len() as int) =~= c);
    assert(views(out@) =~= Seq::<Seq<char>>::empty());
    while i < ordered.len() && left > 0
        invariant
            c == candidate_views(ordered@),
            i <= ordered@.len(),
            views(out@) + eviction_prefix(c.subrange(i as int, c.len() as int), left as int)
                == eviction_prefix(c, memory_to_free as int),
        decreases ordered@.len() - i,
    {
        let ghost sub = c.subrange(i as int, c.len() as int);
        let ghost left_old = left as int;
        assert(sub[0] == c[i as int]);
        assert(sub.drop_first() =~= c.subrange(i as int + 1, c.len() as int));
        let ghost before = views(out@);
        out.push(ordered[i].0.clone());
        assert(views(out@) =~= before + seq![c[i as int].0]);
        left = left.saturating_sub(ordered[i].1);
        assert(left as int == (if c[i as int].1 >= left_old { 0 } else { left_old - c[i as int].1 }));
        assert(eviction_prefix(sub, left_old) == seq![c[i as int].0] + eviction_prefix(sub.drop_first(), left as int));
        assert(views(out@) + eviction_prefix(c.subrange(i as int + 1, c.len() as int), left as int)
            =~= before + (seq![c[i as int].0] + eviction_prefix(sub.drop_first(), left as int)));
        i = i + 1;
    }
    assert(eviction_prefix(c.subrange(i as int, c.len() as int), left as int) =~= Seq::<Seq<char>>::empty());
    assert(views(out@) + Seq::<Seq<char>>::empty() =~= views(out@));
    out
}

} // verus!
