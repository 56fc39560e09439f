use vstd::prelude::*;
use crate::bytes::{bytes_equal, to_owned};

verus! {

/// An in-memory key-value store of byte strings.
pub struct MemKVStore {
    entries: Vec<(Vec<u8>, Vec<u8>)>,
}

impl View for MemKVStore {
    type V = Map<Seq<u8>, Seq<u8>>;

    closed spec fn view(&self) -> Map<Seq<u8>, Seq<u8>> {
        Map::new(
            |k: Seq<u8>| exists|i: int| 0 <= i < self.entries@.len() && self.entries@[i].0@ == k,
            |k: Seq<u8>|
                self.entries@[choose|i: int|
                    0 <= i < self.entries@.len() && self.entries@[i].0@ == k].1@,
        )
    }
}

impl MemKVStore {
    /// No key appears twice.
    pub closed spec fn wf(&self) -> bool {
        forall|i: int, j: int|
            0 <= i < j < self.entries@.len() ==> self.entries@[i].0@ != self.entries@[j].0@
    }

    proof fn lemma_at(&self, i: int)
        requires
            self.wf(),
            0 <= i < self.entries@.len(),
        ensures
            self@.contains_key(self.entries@[i].0@),
            self@[self.entries@[i].0@] == self.entries@[i].1@,
    {
        let k = self.entries@[i].0@;
        let c = choose|j: int| 0 <= j < self.entries@.len() && self.entries@[j].0@ == k;
        if c != i {
            if c < i {
                assert(self.entries@[c].0@ != self.entries@[i].0@);
            } else {
                assert(self.entries@[i].0@ != self.entries@[c].0@);
            }
        }
    }

    /// An empty store.
    pub fn new() -> (r: MemKVStore)
        ensures
            r.wf(),
            r@ == Map::<Seq<u8>, Seq<u8>>::empty(),
    {
        let r = MemKVStore { entries: Vec::new() };
        assert(r@ =~= Map::<Seq<u8>, Seq<u8>>::empty());
        r
    }

    fn find(&self, key: &[u8]) -> (r: Option<usize>)
        requires
            self.wf(),
        ensures
            r is None <==> !self@.contains_key(key@),
            r matches Some(i) ==> i < self.entries@.len() && self.entries@[i as int].0@ == key@,
    {
        let mut i: usize = 0;
        while i < self.entries.len()
            invariant
                0 <= i <= self.entries@.len(),
                forall|j: int| 0 <= j < i ==> self.entries@[j].0@ != key@,
            decreases self.entries@.len() - i,
        {
            if bytes_equal(self.entries[i].0.as_slice(), key) {
                return Some(i);
            }
            i = i + 1;
        }
        None
    }

    /// The value under `key`, if any.
    pub fn get(&self, key: &[u8]) -> (r: Option<Vec<u8>>)
        requires
            self.wf(),
        ensures
            r is Some <==> self@.contains_key(key@),
            r matches Some(v) ==> v@ == self@[key@],
    {
        match self.find(key) {
            Some(i) => {
                proof {
                    self.lemma_at(i as int);
                }
                Some(self.entries[i].1.clone())
            },
            None => None,
        }
    }

    /// Stores `value` under `key`, replacing what was there.
    pub fn put(&mut self, key: &[u8], value: &[u8])
        requires
            old(self).wf(),
        ensures
            final(self).wf(),
            final(self)@ == old(self)@.insert(key@, value@),
    {
        let kv = to_owned(key);
        let vv = to_owned(value);
        match self.find(key) {
            Some(i) => {
                let ghost prev = self.entries@;
                self.entries.set(i, (kv, vv));
                proof {
                    assert forall|a: int, b: int|
                        0 <= a < b < self.entries@.len() implies self.entries@[a].0@
                        != self.entries@[b].0@ by {
                        assert(prev[a].0@ != prev[b].0@);
                    }
                    self.lemma_at(i as int);
                    assert forall|k: Seq<u8>| #[trigger] self@.contains_key(k) == old(self)@.insert(key@, value@).contains_key(k) by {
                        if self@.contains_key(k) {
                            let j = choose|j: int| 0 <= j < self.entries@.len() && self.entries@[j].0@ == k;
                            if j != i {
                                assert(prev[j].0@ == k);
                            }
                        }
                        if old(self)@.contains_key(k) {
                            let j = choose|j: int| 0 <= j < prev.len() && prev[j].0@ == k;
                            if j != i {
                                assert(self.entries@[j].0@ == k);
                            }
                        }
                    }
                    assert forall|k: Seq<u8>| #[trigger] self@.contains_key(k) implies self@[k] == old(self)@.insert(key@, value@)[k] by {
                        let j = choose|j: int| 0 <= j < self.entries@.len() && self.entries@[j].0@ == k;
                        self.lemma_at(j);
                        if j != i {
                            old(self).lemma_at(j);
                        }
                    }
                    assert(self@ =~= old(self)@.insert(key@, value@));
                }
            },
            None => {
                let ghost prev = self.entries@;
                self.entries.push((kv, vv));
                proof {
                    let n = prev.len() as int;
                    assert forall|a: int, b: int|
                        0 <= a < b < self.entries@.len() implies self.entries@[a].0@
                        != self.entries@[b].0@ by {
                        if b < n {
                            assert(prev[a].0@ != prev[b].0@);
                        } else {
                            assert(prev[a].0@ != key@) by {
                                assert(old(self)@.contains_key(prev[a].0@));
                            }
                        }
                    }
                    assert forall|k: Seq<u8>| #[trigger] self@.contains_key(k) == old(self)@.insert(key@, value@).contains_key(k) by {
                        if self@.contains_key(k) {
                            let j = choose|j: int| 0 <= j < self.entries@.len() && self.entries@[j].0@ == k;
                            if j != n {
                                assert(prev[j].0@ == k);
                            }
                        }
                        if old(self)@.contains_key(k) {
                            let j = choose|j: int| 0 <= j < prev.len() && prev[j].0@ == k;
                            assert(self.entries@[j].0@ == k);
                        }
                        if k == key@ {
                            assert(self.entries@[n].0@ == k);
                        }
                    }
                    assert forall|k: Seq<u8>| #[trigger] self@.contains_key(k) implies self@[k] == old(self)@.insert(key@, value@)[k] by {
                        let j = choose|j: int| 0 <= j < self.entries@.len() && self.entries@[j].0@ == k;
                        self.lemma_at(j);
                        if j != n {
                            old(self).lemma_at(j);
                        }
                    }
                    assert(self@ =~= old(self)@.insert(key@, value@));
                }
            },
        }
    }

    /// Removes what is stored under `key`.
    pub fn delete(&mut self, key: &[u8])
        requires
            old(self).wf(),
        ensures
            final(self).wf(),
            final(self)@ == old(self)@.remove(key@),
    {
        match self.find(key) {
            Some(i) => {
                let ghost prev = self.entries@;
                self.entries.remove(i);
                proof {
                    assert forall|a: int, b: int|
                        0 <= a < b < self.entries@.len() implies self.entries@[a].0@
                        != self.entries@[b].0@ by {
                        let pa = if a < i { a } else { a + 1 };
                        let pb = if b < i { b } else { b + 1 };
                        assert(prev[pa].0@ != prev[pb].0@);
                    }
                    assert forall|k: Seq<u8>| #[trigger] self@.contains_key(k) == old(self)@.remove(key@).contains_key(k) by {
                        if self@.contains_key(k) {
                            let j = choose|j: int| 0 <= j < self.entries@.len() && self.entries@[j].0@ == k;
                            let pj = if j < i { j } else { j + 1 };
                            assert(prev[pj].0@ == k);
                            assert(prev[pj].0@ != prev[i as int].0@);
                        }
                        if old(self)@.remove(key@).contains_key(k) {
                            let j = choose|j: int| 0 <= j < prev.len() && prev[j].0@ == k;
                            assert(j != i);
                            let nj = if j < i { j } else { j - 1 };
                            assert(self.entries@[nj].0@ == k);
                        }
                    }
                    assert forall|k: Seq<u8>| #[trigger] self@.contains_key(k) implies self@[k] == old(self)@.remove(key@)[k] by {
                        let j = choose|j: int| 0 <= j < self.entries@.len() && self.entries@[j].0@ == k;
                        self.lemma_at(j);
                        let pj = if j < i { j } else { j + 1 };
                        old(self).lemma_at(pj);
                    }
                    assert(self@ =~= old(self)@.remove(key@));
                }
            },
            None => {
                assert(self@ =~= old(self)@.remove(key@));
            },
        }
    }
}

} // verus!
