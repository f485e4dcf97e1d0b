//! A map keyed by strings, for the places where the broker keys a map by a
//! name (topics, consumers, environment variables). Keys are compared by
//! their characters; no key occurs twice.
use vstd::prelude::*;

verus! {

pub struct StringMap<V> {
    entries: Vec<(String, V)>,
}

impl<V> StringMap<V> {
    /// No key occurs twice.
    pub closed spec fn wf(self) -> bool {
        forall|i: int, j: int|
            0 <= i < j < self.entries@.len() ==> (#[trigger] self.entries@[i]).0@ != (#[trigger] self.entries@[j]).0@
    }

    spec fn has_at(self, k: Seq<char>, i: int) -> bool {
        0 <= i < self.entries@.len() && self.entries@[i].0@ == k
    }

    /// The keys and the values of the map.
    pub closed spec fn view(&self) -> Map<Seq<char>, V> {
        Map::new(
            |k: Seq<char>| exists|i: int| self.has_at(k, i),
            |k: Seq<char>| self.entries@[choose|i: int| self.has_at(k, i)].1,
        )
    }

    proof fn lemma_view_at(&self, i: int)
        requires
            0 <= i < self.entries@.len(),
            self.wf(),
        ensures
            self@.contains_key(self.entries@[i].0@),
            self@[self.entries@[i].0@] == self.entries@[i].1,
    {
        let k = self.entries@[i].0@;
        assert(self.has_at(k, i));
        let j = choose|j: int| self.has_at(k, j);
        assert(self.has_at(k, j));
        if i != j {
            if i < j {
                assert(self.entries@[i].0@ != self.entries@[j].0@);
            } else {
                assert(self.entries@[j].0@ != self.entries@[i].0@);
            }
        }
    }

    pub fn new() -> (m: Self)
        ensures
            m.wf(),
            m@ == Map::<Seq<char>, V>::empty(),
    {
        let m = StringMap { entries: Vec::new() };
        assert(m@ =~= Map::<Seq<char>, V>::empty());
        m
    }

    /// The position of `k`, if it is a key.
    fn find(&self, k: &String) -> (r: Option<usize>)
        requires
            self.wf(),
        ensures
            match r {
                Some(i) => i < self.entries@.len() && self.entries@[i as int].0@ == k@,
                None => !self@.contains_key(k@),
            },
    {
        let mut i: usize = 0;
        while i < self.entries.len()
            invariant
                i <= self.entries@.len(),
                forall|j: int| 0 <= j < i ==> self.entries@[j].0@ != k@,
            decreases self.entries@.len() - i,
        {
            if self.entries[i].0 == *k {
                return Some(i);
            }
            i = i + 1;
        }
        None
    }

    /// A map without repeated keys has finitely many keys.
    pub proof fn lemma_finite(&self)
        requires
            self.wf(),
        ensures
            self@.dom().finite(),
    {
        self.lemma_len();
    }

    pub fn len(&self) -> (n: usize)
        requires
            self.wf(),
        ensures
            n == self@.len(),
    {
        proof {
            self.lemma_len();
        }
        self.entries.len()
    }

    proof fn lemma_len(&self)
        requires
            self.wf(),
        ensures
            self@.dom().finite(),
            self@.len() == self.entries@.len(),
        decreases self.entries@.len(),
    {
        let keys = self.entries@.map_values(|e: (String, V)| e.0@);
        assert(keys.no_duplicates()) by {
            assert forall|i: int, j: int| 0 <= i < keys.len() && 0 <= j < keys.len() && i != j implies keys[i] != keys[j] by {
                if i < j {
                    assert(self.entries@[i].0@ != self.entries@[j].0@);
                } else {
                    assert(self.entries@[j].0@ != self.entries@[i].0@);
                }
            }
        }
        assert(self@.dom() =~= keys.to_set()) by {
            assert forall|k: Seq<char>| self@.dom().contains(k) <==> keys.to_set().contains(k) by {
                if self@.dom().contains(k) {
                    let i = choose|i: int| self.has_at(k, i);
                    assert(keys[i] == k);
                }
                if keys.to_set().contains(k) {
                    let i = choose|i: int| 0 <= i < keys.len() && keys[i] == k;
                    assert(self.has_at(k, i));
                }
            }
        }
        keys.unique_seq_to_set();
    }

    pub fn contains_key(&self, k: &String) -> (b: bool)
        requires
            self.wf(),
        ensures
            b == self@.contains_key(k@),
    {
                match self.find(k) {
            Some(i) => {
                proof { self.lemma_view_at(i as int); }
                true
            },
            None => false,
        }
    }

    pub fn get(&self, k: &String) -> (r: Option<&V>)
        requires
            self.wf(),
        ensures
            match r {
                Some(v) => self@.contains_key(k@) && self@[k@] == *v,
                None => !self@.contains_key(k@),
            },
    {
                match self.find(k) {
            Some(i) => {
                proof { self.lemma_view_at(i as int); }
                Some(&self.entries[i].1)
            },
            None => None,
        }
    }

    /// Puts `v` under `k`, in place of what was there.
    pub fn insert(&mut self, k: String, v: V)
        requires
            old(self).wf(),
        ensures
            final(self).wf(),
            final(self)@ == old(self)@.insert(k@, v),
    {
                let ghost old_entries = self.entries@;
        match self.find(&k) {
            Some(i) => {
                let ghost kv = k@;
                self.entries.set(i, (k, v));
                let ghost new_entries = self.entries@;
                assert forall|a: int, b: int| 0 <= a < b < new_entries.len() implies
                    (#[trigger] new_entries[a]).0@ != (#[trigger] new_entries[b]).0@ by {
                    assert(old_entries[a].0@ != old_entries[b].0@);
                }
                proof {
                    assert forall|key: Seq<char>| #![auto] self@.contains_key(key) <==> old(self)@.insert(kv, v).contains_key(key) by {
                        if self@.contains_key(key) {
                            let j = choose|j: int| self.has_at(key, j);
                            if j != i { assert(old(self).has_at(key, j)); }
                        }
                        if old(self)@.contains_key(key) {
                            let j = choose|j: int| old(self).has_at(key, j);
                            assert(self.has_at(key, j));
                        }
                        if key == kv {
                            assert(self.has_at(key, i as int));
                        }
                    }
                    assert forall|key: Seq<char>| #![auto] self@.contains_key(key) implies self@[key] == old(self)@.insert(kv, v)[key] by {
                        let j = choose|j: int| self.has_at(key, j);
                        self.lemma_view_at(j);
                        if j != i {
                            assert(old(self).has_at(key, j));
                            old(self).lemma_view_at(j);
                        }
                    }
                    assert(self@ =~= old(self)@.insert(kv, v));
                }
            },
            None => {
                let ghost kv = k@;
                self.entries.push((k, v));
                proof {
                    let n = old_entries.len() as int;
                    assert forall|a: int, b: int| 0 <= a < b < self.entries@.len() implies
                        (#[trigger] self.entries@[a]).0@ != (#[trigger] self.entries@[b]).0@ by {
                        if b == n {
                            if self.entries@[a].0@ == kv {
                                assert(old(self).has_at(kv, a));
                            }
                        } else {
                            assert(old_entries[a].0@ != old_entries[b].0@);
                        }
                    }
                    assert forall|key: Seq<char>| #![auto] self@.contains_key(key) <==> old(self)@.insert(kv, v).contains_key(key) by {
                        if self@.contains_key(key) {
                            let j = choose|j: int| self.has_at(key, j);
                            if j < n { assert(old(self).has_at(key, j)); }
                        }
                        if old(self)@.contains_key(key) {
                            let j = choose|j: int| old(self).has_at(key, j);
                            assert(self.has_at(key, j));
                        }
                        if key == kv {
                            assert(self.has_at(key, n));
                        }
                    }
                    assert forall|key: Seq<char>| #![auto] self@.contains_key(key) implies self@[key] == old(self)@.insert(kv, v)[key] by {
                        let j = choose|j: int| self.has_at(key, j);
                        self.lemma_view_at(j);
                        if j < n {
                            assert(old(self).has_at(key, j));
                            old(self).lemma_view_at(j);
                        }
                    }
                    assert(self@ =~= old(self)@.insert(kv, v));
                }
            },
        }
    }

    /// Takes the value of `k` out of the map.
    pub fn remove(&mut self, k: &String) -> (r: Option<V>)
        requires
            old(self).wf(),
        ensures
            final(self).wf(),
            final(self)@ == old(self)@.remove(k@),
            match r {
                Some(v) => old(self)@.contains_key(k@) && old(self)@[k@] == v,
                None => !old(self)@.contains_key(k@),
            },
    {
        match self.find(k) {
            None => {
                assert(self@ =~= old(self)@.remove(k@));
                None
            },
            Some(i) => {
                proof { self.lemma_view_at(i as int); }
                let ghost old_entries = self.entries@;
                let (_, v) = self.entries.remove(i);
                proof {
                    let ne = self.entries@;
                    assert forall|a: int, b: int| 0 <= a < b < ne.len() implies
                        (#[trigger] ne[a]).0@ != (#[trigger] ne[b]).0@ by {
                        let oa = if a < i { a } else { a + 1 };
                        let ob = if b < i { b } else { b + 1 };
                        assert(ne[a] == old_entries[oa]);
                        assert(ne[b] == old_entries[ob]);
                        assert(old_entries[oa].0@ != old_entries[ob].0@);
                    }
                    assert forall|key: Seq<char>| #![auto] self@.contains_key(key) <==> old(self)@.remove(k@).contains_key(key) by {
                        if self@.contains_key(key) {
                            let j = choose|j: int| self.has_at(key, j);
                            let oj = if j < i { j } else { j + 1 };
                            assert(ne[j] == old_entries[oj]);
                            assert(old(self).has_at(key, oj));
                            if key == k@ {
                                assert(old_entries[oj].0@ == old_entries[i as int].0@);
                                if oj < i { assert(old_entries[oj].0@ != old_entries[i as int].0@); }
                                else { assert(old_entries[i as int].0@ != old_entries[oj].0@); }
                            }
                        }
                        if old(self)@.remove(k@).contains_key(key) {
                            let j = choose|j: int| old(self).has_at(key, j);
                            assert(j != i);
                            let nj = if j < i { j } else { j - 1 };
                            assert(ne[nj] == old_entries[j]);
                            assert(self.has_at(key, nj));
                        }
                    }
                    assert forall|key: Seq<char>| #![auto] self@.contains_key(key) implies self@[key] == old(self)@.remove(k@)[key] by {
                        let j = choose|j: int| self.has_at(key, j);
                        self.lemma_view_at(j);
                        let oj = if j < i { j } else { j + 1 };
                        assert(ne[j] == old_entries[oj]);
                        old(self).lemma_view_at(oj);
                    }
                    assert(self@ =~= old(self)@.remove(k@));
                }
                Some(v)
            },
        }
    }

    /// The keys, in no particular order.
    pub fn keys(&self) -> (r: Vec<String>)
        requires
            self.wf(),
        ensures
            r@.len() == self@.len(),
            forall|i: int| 0 <= i < r@.len() ==> self@.contains_key(#[trigger] r@[i]@),
            forall|k: Seq<char>| self@.contains_key(k) ==> exists|i: int| 0 <= i < r@.len() && #[trigger] r@[i]@ == k,
    {
        proof { self.lemma_len(); }
        let mut r: Vec<String> = Vec::new();
        let mut i: usize = 0;
        while i < self.entries.len()
            invariant
                self.wf(),
                i <= self.entries@.len(),
                r@.len() == i,
                forall|j: int| 0 <= j < i ==> #[trigger] r@[j]@ == self.entries@[j].0@,
            decreases self.entries@.len() - i,
        {
            r.push(self.entries[i].0.clone());
            i = i + 1;
        }
        proof {
            assert forall|j: int| 0 <= j < r@.len() implies self@.contains_key(#[trigger] r@[j]@) by {
                self.lemma_view_at(j);
            }
            assert forall|k: Seq<char>| self@.contains_key(k) implies exists|j: int| 0 <= j < r@.len() && #[trigger] r@[j]@ == k by {
                let j = choose|j: int| self.has_at(k, j);
                assert(r@[j]@ == k);
            }
        }
        r
    }
}

} // verus!
