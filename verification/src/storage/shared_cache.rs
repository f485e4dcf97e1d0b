//! A cache shared by all nodes. Writes are stored here and announced to the
//! other nodes, which take every update that another node made. A read
//! that misses here asks the other nodes, and how many answers it needs
//! depends on the consistency level: one answer, a majority, or all of
//! them; when several answers count, the most recent version wins.
use vstd::prelude::*;
use crate::rafka_core::Error;
use crate::platform::{bytes_content, now_unix_nanos, max_duration_nanos};
use crate::storage::cache::{CacheEntry, EntryView, cache_table, new_cache_table, cache_insert, read_fresh, after_read, fresh_value};

verus! {

/// How many nodes a read that misses here must hear from.
#[derive(Clone, Copy, Debug, PartialEq, Eq, Structural)]
pub enum ConsistencyLevel {
    One,
    Quorum,
    All,
}

/// A write, as announced to the other nodes.
#[derive(Clone, Debug)]
pub struct CacheUpdate {
    pub key: String,
    pub value: bytes::Bytes,
    pub version: u64,
    pub source_node: String,
}

/// A value as another node answered it, with its version.
#[derive(Debug)]
pub struct Versioned {
    pub value: bytes::Bytes,
    pub version: u64,
}

/// The answers as plain values: `None` for a node that had no value or did
/// not answer.
pub open spec fn answer_views(v: Seq<Option<Versioned>>) -> Seq<Option<(Seq<u8>, u64)>> {
    v.map_values(|a: Option<Versioned>| match a {
        Some(x) => Some((bytes_content(x.value), x.version)),
        None => None,
    })
}

/// The values among the answers, in order.
pub open spec fn somes(s: Seq<Option<(Seq<u8>, u64)>>) -> Seq<(Seq<u8>, u64)>
    decreases s.len(),
{
    if s.len() == 0 {
        Seq::empty()
    } else {
        let r = somes(s.drop_last());
        match s.last() {
            Some(x) => r.push(x),
            None => r,
        }
    }
}

/// The most recent of some values: the greatest version, and of several
/// with that version the last.
pub open spec fn most_recent(v: Seq<(Seq<u8>, u64)>) -> (Seq<u8>, u64)
    decreases v.len(),
{
    if v.len() <= 1 {
        v[0]
    } else {
        let b = most_recent(v.drop_last());
        if v.last().1 >= b.1 {
            v.last()
        } else {
            b
        }
    }
}

/// The value that a read gets from the other nodes' answers at a level.
pub open spec fn resolve_spec(level: ConsistencyLevel, s: Seq<Option<(Seq<u8>, u64)>>) -> Result<Option<Seq<u8>>, Error> {
    let got = somes(s);
    match level {
        ConsistencyLevel::One => if got.len() >= 1 {
            Ok(Some(got[0].0))
        } else {
            Ok(None)
        },
        ConsistencyLevel::Quorum => {
            let q = s.len() / 2 + 1;
            if got.len() >= q {
                Ok(Some(most_recent(got.take(q as int)).0))
            } else {
                Ok(None)
            }
        },
        ConsistencyLevel::All => if exists|i: int| 0 <= i < s.len() && #[trigger] s[i] is None {
            Err(Error::ConsistencyError)
        } else if s.len() == 0 {
            Ok(None)
        } else {
            Ok(Some(most_recent(got).0))
        },
    }
}

/// The most recent of some values is one of them.
proof fn lemma_most_recent_member(v: Seq<(Seq<u8>, u64)>)
    requires
        v.len() > 0,
    ensures
        v.contains(most_recent(v)),
    decreases v.len(),
{
    if v.len() > 1 {
        lemma_most_recent_member(v.drop_last());
        let b = most_recent(v.drop_last());
        if v.last().1 >= b.1 {
            assert(v[v.len() - 1] == v.last());
        } else {
            let k = choose|k: int| 0 <= k < v.drop_last().len() && v.drop_last()[k] == b;
            assert(v[k] == b);
        }
    } else {
        assert(v[0] == most_recent(v));
    }
}

/// The most recent of some values has the highest version among them: it
/// is one of them, and no value has a greater version.
pub proof fn lemma_most_recent_is_newest(v: Seq<(Seq<u8>, u64)>)
    requires
        v.len() > 0,
    ensures
        v.contains(most_recent(v)),
        forall|k: int| 0 <= k < v.len() ==> (#[trigger] v[k]).1 <= most_recent(v).1,
    decreases v.len(),
{
    lemma_most_recent_member(v);
    if v.len() > 1 {
        lemma_most_recent_is_newest(v.drop_last());
        assert forall|k: int| 0 <= k < v.len() implies (#[trigger] v[k]).1 <= most_recent(v).1 by {
            if k < v.len() - 1 {
                assert(v.drop_last()[k] == v[k]);
            }
        }
    }
}

/// A read at `All` gives the newest value: when every node answered with a
/// value, the value given is one that a node answered with a version at
/// least that of every answer. At `Quorum` the same holds of the answers
/// weighed, the first values that make a majority.
pub proof fn lemma_read_gives_the_newest(s: Seq<Option<(Seq<u8>, u64)>>)
    ensures
        resolve_spec(ConsistencyLevel::All, s) matches Ok(Some(v)) ==> exists|i: int| 0 <= i < s.len()
            && (#[trigger] s[i]) is Some && (s[i]->0).0 == v
            && forall|j: int| 0 <= j < s.len() ==> (#[trigger] s[j]) is Some && (s[j]->0).1 <= (s[i]->0).1,
        resolve_spec(ConsistencyLevel::Quorum, s) matches Ok(Some(v)) ==> {
            let weighed = somes(s).take((s.len() / 2 + 1) as int);
            exists|i: int| 0 <= i < weighed.len() && (#[trigger] weighed[i]).0 == v
                && forall|j: int| 0 <= j < weighed.len() ==> (#[trigger] weighed[j]).1 <= weighed[i].1
        },
{
    let got = somes(s);
    lemma_somes_member(s);
    if let Ok(Some(v)) = resolve_spec(ConsistencyLevel::All, s) {
        lemma_most_recent_is_newest(got);
        let best = most_recent(got);
        let k = choose|k: int| 0 <= k < got.len() && got[k] == best;
        assert(s.contains(Some(got[k])));
        let i = choose|i: int| 0 <= i < s.len() && s[i] == Some(got[k]);
        lemma_all_answers_are_values(s);
        assert forall|j: int| 0 <= j < s.len() implies (#[trigger] s[j]) is Some && (s[j]->0).1 <= (s[i]->0).1 by {
            let m = choose|m: int| 0 <= m < got.len() && got[m] == s[j]->0;
            assert(got[m].1 <= best.1);
        }
    }
    if let Ok(Some(v)) = resolve_spec(ConsistencyLevel::Quorum, s) {
        let weighed = got.take((s.len() / 2 + 1) as int);
        lemma_most_recent_is_newest(weighed);
        let best = most_recent(weighed);
        let i = choose|i: int| 0 <= i < weighed.len() && weighed[i] == best;
        assert(weighed[i].0 == v);
    }
}

/// When no answer is missing, every answer is among the values.
proof fn lemma_all_answers_are_values(s: Seq<Option<(Seq<u8>, u64)>>)
    requires
        forall|i: int| 0 <= i < s.len() ==> (#[trigger] s[i]) is Some,
    ensures
        forall|j: int| 0 <= j < s.len() ==> exists|m: int| 0 <= m < somes(s).len() && somes(s)[m] == (#[trigger] s[j])->0,
    decreases s.len(),
{
    if s.len() > 0 {
        let d = s.drop_last();
        assert forall|i: int| 0 <= i < d.len() implies (#[trigger] d[i]) is Some by {
            assert(d[i] == s[i]);
        }
        lemma_all_answers_are_values(d);
        let r = somes(d);
        assert(s[s.len() - 1] == s.last());
        assert forall|j: int| 0 <= j < s.len() implies exists|m: int| 0 <= m < somes(s).len() && somes(s)[m] == (#[trigger] s[j])->0 by {
            if j < s.len() - 1 {
                assert(d[j] == s[j]);
                let m = choose|m: int| 0 <= m < r.len() && r[m] == (d[j])->0;
                assert(somes(s)[m] == r[m]);
            } else {
                assert(somes(s)[r.len() as int] == s.last()->0);
            }
        }
    }
}

/// Each value among the answers is an answer.
proof fn lemma_somes_member(s: Seq<Option<(Seq<u8>, u64)>>)
    ensures
        forall|i: int| 0 <= i < somes(s).len() ==> s.contains(Some(#[trigger] somes(s)[i])),
    decreases s.len(),
{
    if s.len() > 0 {
        lemma_somes_member(s.drop_last());
        let r = somes(s.drop_last());
        assert forall|i: int| 0 <= i < somes(s).len() implies s.contains(Some(#[trigger] somes(s)[i])) by {
            if i < r.len() {
                assert(somes(s)[i] == r[i]);
                let k = choose|k: int| 0 <= k < s.drop_last().len() && s.drop_last()[k] == Some(r[i]);
                assert(s[k] == Some(r[i]));
            } else {
                assert(s[s.len() - 1] == s.last());
            }
        }
    }
}

/// A read never makes a value up: at every level, the value it gives is
/// one that some node answered.
pub proof fn lemma_read_gives_an_answer(level: ConsistencyLevel, s: Seq<Option<(Seq<u8>, u64)>>)
    ensures
        resolve_spec(level, s) matches Ok(Some(v)) ==> exists|i: int| 0 <= i < s.len() && (#[trigger] s[i] is Some) && (s[i]->0).0 == v,
{
    let got = somes(s);
    lemma_somes_member(s);
    if let Ok(Some(v)) = resolve_spec(level, s) {
        let x: (Seq<u8>, u64) = match level {
            ConsistencyLevel::One => got[0],
            ConsistencyLevel::Quorum => {
                let q = s.len() / 2 + 1;
                lemma_most_recent_member(got.take(q as int));
                let m = most_recent(got.take(q as int));
                let k = choose|k: int| 0 <= k < got.take(q as int).len() && got.take(q as int)[k] == m;
                assert(got[k] == m);
                m
            },
            ConsistencyLevel::All => {
                lemma_most_recent_member(got);
                most_recent(got)
            },
        };
        assert(got.contains(x));
        let k = choose|k: int| 0 <= k < got.len() && got[k] == x;
        assert(s.contains(Some(got[k])));
        let i = choose|i: int| 0 <= i < s.len() && s[i] == Some(x);
        assert(s[i] is Some && (s[i]->0).0 == v);
    }
}

/// The values of a prefix of the answers are a prefix of their values.
proof fn lemma_somes_prefix(s: Seq<Option<(Seq<u8>, u64)>>, i: int)
    requires
        0 <= i <= s.len(),
    ensures
        somes(s.take(i)).len() <= somes(s).len(),
        somes(s.take(i)) == somes(s).take(somes(s.take(i)).len() as int),
    decreases s.len(),
{
    if i == s.len() {
        assert(s.take(i) =~= s);
        assert(somes(s).take(somes(s).len() as int) =~= somes(s));
    } else {
        assert(s.drop_last().take(i) =~= s.take(i));
        lemma_somes_prefix(s.drop_last(), i);
        let r = somes(s.drop_last());
        let k = somes(s.take(i)).len() as int;
        match s.last() {
            Some(x) => {
                assert(r.push(x).take(k) =~= r.take(k));
            },
            None => {},
        }
    }
}

/// When every node answered, every answer has a value.
proof fn lemma_somes_all(s: Seq<Option<(Seq<u8>, u64)>>)
    requires
        forall|i: int| 0 <= i < s.len() ==> #[trigger] s[i] is Some,
    ensures
        somes(s).len() == s.len(),
    decreases s.len(),
{
    if s.len() > 0 {
        assert(s.last() == s[s.len() - 1]);
        lemma_somes_all(s.drop_last());
    }
}

/// Scans the answers in order until `limit` values were seen: how many were
/// seen, and the position of the most recent of them.
fn scan_answers(answers: &Vec<Option<Versioned>>, limit: usize) -> (r: (usize, usize))
    requires
        limit > 0,
    ensures
        ({
            let s = answer_views(answers@);
            let got = somes(s);
            let (count, best) = r;
            &&& count as int == if got.len() < limit { got.len() as int } else { limit as int }
            &&& count > 0 ==> {
                &&& best < answers@.len()
                &&& s[best as int] == Some(most_recent(got.take(count as int)))
            }
        }),
{
    let ghost s = answer_views(answers@);
    let mut count: usize = 0;
    let mut best: usize = 0;
    let mut best_version: u64 = 0;
    let mut i: usize = 0;
    while i < answers.len() && count < limit
        invariant
            s == answer_views(answers@),
            i <= answers@.len(),
            count <= limit,
            count == somes(s.take(i as int)).len(),
            count > 0 ==> {
                &&& best < i
                &&& s[best as int] == Some(most_recent(somes(s.take(i as int))))
                &&& best_version == most_recent(somes(s.take(i as int))).1
            },
        decreases answers@.len() - i,
    {
        let ghost prev = somes(s.take(i as int));
        assert(s.take(i as int + 1).drop_last() =~= s.take(i as int));
        assert(s.take(i as int + 1).last() == s[i as int]);
        match &answers[i] {
            Some(v) => {
                let ghost x = (bytes_content(v.value), v.version);
                assert(s[i as int] == Some(x));
                assert(somes(s.take(i as int + 1)) == prev.push(x));
                assert(prev.push(x).drop_last() =~= prev);
                if count == 0 || v.version >= best_version {
                    best = i;
                    best_version = v.version;
                }
                count = count + 1;
            },
            None => {},
        }
        i = i + 1;
    }
    proof {
        lemma_somes_prefix(s, i as int);
        let got = somes(s);
        if i == answers@.len() {
            assert(s.take(i as int) =~= s);
            assert(got.take(count as int) =~= got);
        }
    }
    (count, best)
}

/// A local read of `key` at time `now` took the cache from `before` to
/// `after` and gave `r`: the expired entry dropped, the fresh value given.
pub open spec fn local_read_at(
    before: Map<Seq<char>, EntryView>,
    after: Map<Seq<char>, EntryView>,
    key: Seq<char>,
    now: u128,
    r: Option<bytes::Bytes>,
) -> bool {
    &&& after == after_read(before, key, now)
    &&& match fresh_value(before, key, now) {
        Some(v) => r matches Some(b) && bytes_content(b) == v,
        None => r is None,
    }
}

/// The value that a read gets from the other nodes' answers: at `One` the
/// first value; at `Quorum` the most recent of the first values that make a
/// majority of the answers, or none when fewer answered with a value; at
/// `All` the most recent of all values, none when no node was asked, and
/// `ConsistencyError` when a node gave none.
pub fn resolve_read(level: ConsistencyLevel, answers: Vec<Option<Versioned>>) -> (r: Result<Option<bytes::Bytes>, Error>)
    ensures
        match (r, resolve_spec(level, answer_views(answers@))) {
            (Ok(Some(b)), Ok(Some(v))) => bytes_content(b) == v,
            (Ok(None), Ok(None)) => true,
            (Err(e), Err(f)) => e == f,
            _ => false,
        },
{
    let ghost s = answer_views(answers@);
    let limit: usize = match level {
        ConsistencyLevel::One => 1,
        ConsistencyLevel::Quorum => answers.len() / 2 + 1,
        ConsistencyLevel::All => {
            let mut i: usize = 0;
            while i < answers.len()
                invariant
                    s == answer_views(answers@),
                    level == ConsistencyLevel::All,
                    i <= answers@.len(),
                    forall|j: int| 0 <= j < i ==> #[trigger] s[j] is Some,
                decreases answers@.len() - i,
            {
                if answers[i].is_none() {
                    assert(s[i as int] is None);
                    assert(resolve_spec(level, s) == Err::<Option<Seq<u8>>, Error>(Error::ConsistencyError));
                    return Err(Error::ConsistencyError);
                }
                i = i + 1;
            }
            proof { lemma_somes_all(s); }
            if answers.len() == 0 {
                return Ok(None);
            }
            answers.len()
        },
    };
    let (count, best) = scan_answers(&answers, limit);
    proof {
        let got = somes(s);
        if level == ConsistencyLevel::One && count > 0 {
            assert(got.take(1).len() == 1);
            assert(got.take(1)[0] == got[0]);
        }
        if level == ConsistencyLevel::All {
            assert(got.take(got.len() as int) =~= got);
        }
    }
    if count < limit {
        return Ok(None);
    }
    let mut answers = answers;
    let item = answers.remove(best);
    match item {
        Some(v) => Ok(Some(v.value)),
        None => Ok(None),
    }
}

pub struct SharedCache {
    pub node_id: String,
    pub local_cache: dashmap::DashMap<String, CacheEntry>,
    pub replication_factor: usize,
    pub ttl: u64,
    pub consistency_level: ConsistencyLevel,
}

impl SharedCache {
    pub open spec fn entries(&self) -> Map<Seq<char>, EntryView> {
        cache_table(self.local_cache)
    }

    /// An empty cache for this node whose entries live `ttl` nanoseconds.
    pub fn new(node_id: String, replication_factor: usize, ttl: u64, consistency_level: ConsistencyLevel) -> (c: SharedCache)
        ensures
            c.node_id == node_id,
            c.replication_factor == replication_factor,
            c.ttl == ttl,
            c.consistency_level == consistency_level,
            c.entries().dom() == Set::<Seq<char>>::empty(),
    {
        SharedCache { node_id, local_cache: new_cache_table(), replication_factor, ttl, consistency_level }
    }

    /// Reads `key` here at time `now`: the cached value while it has not
    /// expired; an expired entry is dropped. `None` sends the read to the
    /// other nodes, whose answers `resolve_read` weighs.
    pub fn get_local_at(&mut self, key: &str, now: u128) -> (r: Option<bytes::Bytes>)
        ensures
            final(self).entries() == after_read(old(self).entries(), key@, now),
            final(self).node_id == old(self).node_id,
            final(self).ttl == old(self).ttl,
            final(self).consistency_level == old(self).consistency_level,
            match fresh_value(old(self).entries(), key@, now) {
                Some(v) => r matches Some(b) && bytes_content(b) == v,
                None => r is None,
            },
    {
        read_fresh(&mut self.local_cache, key, now)
    }

    /// Reads `key` here now: what `get_local_at` does at the time the clock
    /// reads, which is the one thing left open.
    pub fn get_local(&mut self, key: &str) -> (r: Option<bytes::Bytes>)
        ensures
            final(self).node_id == old(self).node_id,
            final(self).ttl == old(self).ttl,
            final(self).consistency_level == old(self).consistency_level,
            exists|now: u128| #[trigger] local_read_at(old(self).entries(), final(self).entries(), key@, now, r),
    {
        let now = now_unix_nanos();
        let r = self.get_local_at(key, now);
        assert(local_read_at(old(self).entries(), self.entries(), key@, now, r));
        r
    }

    /// The value of a read that missed here, from the other nodes' answers
    /// at this cache's consistency level.
    pub fn resolve(&self, answers: Vec<Option<Versioned>>) -> (r: Result<Option<bytes::Bytes>, Error>)
        ensures
            match (r, resolve_spec(self.consistency_level, answer_views(answers@))) {
                (Ok(Some(b)), Ok(Some(v))) => bytes_content(b) == v,
                (Ok(None), Ok(None)) => true,
                (Err(e), Err(f)) => e == f,
                _ => false,
            },
    {
        resolve_read(self.consistency_level, answers)
    }

    /// Writes `key` at time `now`: stored here with version `now` (its low
    /// 64 bits) to expire `ttl` later, and returned as the update to
    /// announce.
    pub fn put_at(&mut self, key: String, value: bytes::Bytes, now: u128) -> (u: CacheUpdate)
        requires
            now + old(self).ttl <= u128::MAX,
        ensures
            final(self).node_id == old(self).node_id,
            final(self).ttl == old(self).ttl,
            final(self).consistency_level == old(self).consistency_level,
            final(self).entries() == old(self).entries().insert(key@, EntryView {
                data: bytes_content(value),
                expires_at: (now + old(self).ttl) as u128,
                version: now as u64,
            }),
            u.key == key,
            bytes_content(u.value) == bytes_content(value),
            u.version == now as u64,
            u.source_node == old(self).node_id,
    {
        let version = now as u64;
        let update = CacheUpdate {
            key: key.clone(),
            value: value.clone(),
            version,
            source_node: self.node_id.clone(),
        };
        let entry = CacheEntry { data: value, expires_at: now + self.ttl as u128, version };
        cache_insert(&mut self.local_cache, key, entry);
        update
    }

    /// Writes `key` now; see `put_at`.
    pub fn put(&mut self, key: String, value: bytes::Bytes) -> (u: CacheUpdate)
        ensures
            final(self).node_id == old(self).node_id,
            final(self).entries().contains_key(key@),
            final(self).entries()[key@].data == bytes_content(value),
            u.key == key,
            u.source_node == old(self).node_id,
    {
        let now = now_unix_nanos();
        self.put_at(key, value, now)
    }

    /// Takes an update that another node announced at time `now`: stored to
    /// expire `ttl` later; this node's own updates are ignored.
    pub fn apply_update(&mut self, update: CacheUpdate, now: u128)
        requires
            now + old(self).ttl <= u128::MAX,
        ensures
            final(self).node_id == old(self).node_id,
            final(self).ttl == old(self).ttl,
            final(self).consistency_level == old(self).consistency_level,
            update.source_node@ == old(self).node_id@ ==> final(self).entries() == old(self).entries(),
            update.source_node@ != old(self).node_id@ ==> final(self).entries() == old(self).entries().insert(update.key@, EntryView {
                data: bytes_content(update.value),
                expires_at: (now + old(self).ttl) as u128,
                version: update.version,
            }),
    {
        if update.source_node != self.node_id {
            let entry = CacheEntry { data: update.value, expires_at: now + self.ttl as u128, version: update.version };
            cache_insert(&mut self.local_cache, update.key, entry);
        }
    }
}

} // verus!
