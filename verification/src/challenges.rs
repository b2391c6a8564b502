//! The transient ceremony-state store: maps from challenge keys to
//! in-flight ceremony state.
//!
//! Each ceremony family keeps its own map; an entry lives from the start
//! call that created it to the finish call that consumes it. `remove` is
//! a single take-and-delete, so with the store behind one lock a
//! challenge can be consumed at most once: the first finish call takes
//! the entry and every later one finds the key gone.
//!
//! There is no expiry: a ceremony that is started and never finished
//! keeps its entry for the life of the process. That is a known gap, not
//! a guarantee to rely on.

use vstd::prelude::*;

verus! {

/// A map from string keys (usernames) to ceremony state.
pub struct NameMap<V> {
    entries: Vec<(String, V)>,
}

/// A map from 128-bit ids (challenge ids) to ceremony state.
pub struct IdMap<V> {
    entries: Vec<(u128, V)>,
}

impl<V> NameMap<V> {
    /// No two entries share a key.
    pub closed spec fn wf(self) -> bool {
        forall|i: int, j: int|
            0 <= i < j < self.entries@.len() ==> self.entries@[i].0@ != self.entries@[j].0@
    }

    /// The entries as a map.
    pub closed spec fn view(self) -> Map<Seq<char>, V> {
        Map::new(
            |k: Seq<char>| exists|i: int| 0 <= i < self.entries@.len() && self.entries@[i].0@ == k,
            |k: Seq<char>|
                {
                    let i = choose|i: int|
                        0 <= i < self.entries@.len() && self.entries@[i].0@ == k;
                    self.entries@[i].1
                },
        )
    }

    /// An empty store.
    pub fn new() -> (r: NameMap<V>)
        ensures
            r.wf(),
            r@ == Map::<Seq<char>, V>::empty(),
    {
        let r = NameMap { entries: Vec::new() };
        proof {
            assert(r@ =~= Map::<Seq<char>, V>::empty());
        }
        r
    }

    /// The index holding `key`, if any.
    fn find(&self, key: &String) -> (r: Option<usize>)
        requires
            self.wf(),
        ensures
            match r {
                Some(i) => i < self.entries@.len() && self.entries@[i as int].0@ == key@
                    && self@.contains_key(key@) && self@[key@] == self.entries@[i as int].1,
                None => !self@.contains_key(key@),
            },
    {
        let mut i: usize = 0;
        while i < self.entries.len()
            invariant
                self.wf(),
                i <= self.entries@.len(),
                forall|x: int| 0 <= x < i ==> self.entries@[x].0@ != key@,
            decreases self.entries@.len() - i,
        {
            if self.entries[i].0 == *key {
                proof {
                    let w = choose|w: int|
                        0 <= w < self.entries@.len() && self.entries@[w].0@ == key@;
                    assert(w == i);
                }
                return Some(i);
            }
            i = i + 1;
        }
        proof {
            if self@.contains_key(key@) {
                let w = choose|w: int|
                    0 <= w < self.entries@.len() && self.entries@[w].0@ == key@;
                assert(false);
            }
        }
        None
    }

    /// Stores `value` under `key`, handing back what was there before.
    pub fn insert(&mut self, key: String, value: V) -> (r: Option<V>)
        requires
            old(self).wf(),
        ensures
            final(self).wf(),
            final(self)@ == old(self)@.insert(key@, value),
            match r {
                Some(prev) => old(self)@.contains_key(key@) && prev == old(self)@[key@],
                None => !old(self)@.contains_key(key@),
            },
    {
        let found = self.find(&key);
        match found {
            Some(i) => {
                let ghost prev_entries = self.entries@;
                let mut entry = self.entries.remove(i);
                let prev = entry.1;
                entry.1 = value;
                self.entries.insert(i, entry);
                proof {
                    assert(self.entries@ =~= prev_entries.update(i as int, (prev_entries[i as int].0, value)));
                    assert(forall|x: int|
                        0 <= x < self.entries@.len() && x != i ==> self.entries@[x]
                            == prev_entries[x]);
                    assert(final(self).wf());
                    assert(final(self)@ =~= old(self)@.insert(key@, value)) by {
                        assert forall|k: Seq<char>| #[trigger] final(self)@.contains_key(k)
                            == old(self)@.insert(key@, value).contains_key(k) by {
                            if k == key@ {
                                assert(self.entries@[i as int].0@ == k);
                            } else {
                                assert(forall|x: int|
                                    0 <= x < self.entries@.len() ==> (#[trigger] self.entries@[x].0@
                                        == k <==> prev_entries[x].0@ == k));
                            }
                        }
                        assert forall|k: Seq<char>|
                            final(self)@.contains_key(k) implies #[trigger] final(self)@[k]
                            == old(self)@.insert(key@, value)[k] by {
                            let w = choose|w: int|
                                0 <= w < self.entries@.len() && self.entries@[w].0@ == k;
                            if k == key@ {
                                assert(w == i);
                            } else {
                                let w0 = choose|w0: int|
                                    0 <= w0 < prev_entries.len() && prev_entries[w0].0@ == k;
                                assert(self.entries@[w0].0@ == k);
                                assert(w == w0);
                            }
                        }
                    }
                }
                Some(prev)
            },
            None => {
                let ghost prev_entries = self.entries@;
                self.entries.push((key, value));
                proof {
                    assert(forall|x: int|
                        0 <= x < prev_entries.len() ==> self.entries@[x] == prev_entries[x]);
                    assert(self.entries@[prev_entries.len() as int].1 == value);
                    assert(final(self).wf());
                    assert(final(self)@ =~= old(self)@.insert(key@, value)) by {
                        assert forall|k: Seq<char>|
                            final(self)@.contains_key(k) implies #[trigger] final(self)@[k]
                            == old(self)@.insert(key@, value)[k] by {
                            let w = choose|w: int|
                                0 <= w < self.entries@.len() && self.entries@[w].0@ == k;
                            if k == key@ {
                                assert(w == prev_entries.len());
                            } else {
                                assert(w < prev_entries.len());
                                let w0 = choose|w0: int|
                                    0 <= w0 < prev_entries.len() && prev_entries[w0].0@ == k;
                                assert(self.entries@[w0].0@ == k);
                                assert(w == w0);
                            }
                        }
                    }
                }
                None
            },
        }
    }

    /// Takes the entry under `key` out of the store, atomically: after
    /// this returns, the key is gone, whoever asks next.
    pub fn remove(&mut self, key: &String) -> (r: Option<V>)
        requires
            old(self).wf(),
        ensures
            final(self).wf(),
            final(self)@ == old(self)@.remove(key@),
            match r {
                Some(v) => old(self)@.contains_key(key@) && v == old(self)@[key@],
                None => !old(self)@.contains_key(key@),
            },
    {
        let found = self.find(key);
        match found {
            Some(i) => {
                let ghost prev_entries = self.entries@;
                let entry = self.entries.remove(i);
                proof {
                    assert(self.entries@ =~= prev_entries.remove(i as int));
                    assert(forall|x: int|
                        0 <= x < self.entries@.len() ==> self.entries@[x] == (if x < i {
                            prev_entries[x]
                        } else {
                            prev_entries[x + 1]
                        }));
                    assert(final(self).wf());
                    assert(final(self)@ =~= old(self)@.remove(key@)) by {
                        assert forall|k: Seq<char>| #[trigger] final(self)@.contains_key(k)
                            == old(self)@.remove(key@).contains_key(k) by {
                            if k != key@ {
                                if old(self)@.contains_key(k) {
                                    let w0 = choose|w0: int|
                                        0 <= w0 < prev_entries.len() && prev_entries[w0].0@ == k;
                                    if w0 < i {
                                        assert(self.entries@[w0].0@ == k);
                                    } else {
                                        assert(w0 > i);
                                        assert(self.entries@[w0 - 1].0@ == k);
                                    }
                                }
                            } else {
                                if final(self)@.contains_key(k) {
                                    let w = choose|w: int|
                                        0 <= w < self.entries@.len() && self.entries@[w].0@ == k;
                                    if w < i {
                                        assert(prev_entries[w].0@ == key@);
                                    } else {
                                        assert(prev_entries[w + 1].0@ == key@);
                                    }
                                    assert(false);
                                }
                            }
                        }
                        assert forall|k: Seq<char>|
                            final(self)@.contains_key(k) implies #[trigger] final(self)@[k]
                            == old(self)@.remove(key@)[k] by {
                            let w = choose|w: int|
                                0 <= w < self.entries@.len() && self.entries@[w].0@ == k;
                            let w0 = choose|w0: int|
                                0 <= w0 < prev_entries.len() && prev_entries[w0].0@ == k;
                            if w < i {
                                assert(prev_entries[w].0@ == k);
                                assert(w == w0);
                            } else {
                                assert(prev_entries[w + 1].0@ == k);
                                assert(w + 1 == w0);
                            }
                        }
                    }
                }
                Some(entry.1)
            },
            None => {
                proof {
                    assert(final(self)@ =~= old(self)@.remove(key@));
                }
                None
            },
        }
    }
}

impl<V> IdMap<V> {
    /// No two entries share a key.
    pub closed spec fn wf(self) -> bool {
        forall|i: int, j: int|
            0 <= i < j < self.entries@.len() ==> self.entries@[i].0 != self.entries@[j].0
    }

    /// The entries as a map.
    pub closed spec fn view(self) -> Map<u128, V> {
        Map::new(
            |k: u128| exists|i: int| 0 <= i < self.entries@.len() && self.entries@[i].0 == k,
            |k: u128|
                {
                    let i = choose|i: int|
                        0 <= i < self.entries@.len() && self.entries@[i].0 == k;
                    self.entries@[i].1
                },
        )
    }

    /// An empty store.
    pub fn new() -> (r: IdMap<V>)
        ensures
            r.wf(),
            r@ == Map::<u128, V>::empty(),
    {
        let r = IdMap { entries: Vec::new() };
        proof {
            assert(r@ =~= Map::<u128, V>::empty());
        }
        r
    }

    /// The index holding `key`, if any.
    fn find(&self, key: u128) -> (r: Option<usize>)
        requires
            self.wf(),
        ensures
            match r {
                Some(i) => i < self.entries@.len() && self.entries@[i as int].0 == key
                    && self@.contains_key(key) && self@[key] == self.entries@[i as int].1,
                None => !self@.contains_key(key),
            },
    {
        let mut i: usize = 0;
        while i < self.entries.len()
            invariant
                self.wf(),
                i <= self.entries@.len(),
                forall|x: int| 0 <= x < i ==> self.entries@[x].0 != key,
            decreases self.entries@.len() - i,
        {
            if self.entries[i].0 == key {
                proof {
                    let w = choose|w: int|
                        0 <= w < self.entries@.len() && self.entries@[w].0 == key;
                    assert(w == i);
                }
                return Some(i);
            }
            i = i + 1;
        }
        proof {
            if self@.contains_key(key) {
                let w = choose|w: int| 0 <= w < self.entries@.len() && self.entries@[w].0 == key;
                assert(false);
            }
        }
        None
    }

    /// Stores `value` under `key`, handing back what was there before.
    pub fn insert(&mut self, key: u128, value: V) -> (r: Option<V>)
        requires
            old(self).wf(),
        ensures
            final(self).wf(),
            final(self)@ == old(self)@.insert(key, value),
            match r {
                Some(prev) => old(self)@.contains_key(key) && prev == old(self)@[key],
                None => !old(self)@.contains_key(key),
            },
    {
        let found = self.find(key);
        match found {
            Some(i) => {
                let ghost prev_entries = self.entries@;
                let mut entry = self.entries.remove(i);
                let prev = entry.1;
                entry.1 = value;
                self.entries.insert(i, entry);
                proof {
                    assert(self.entries@ =~= prev_entries.update(
                        i as int,
                        (prev_entries[i as int].0, value),
                    ));
                    assert(forall|x: int|
                        0 <= x < self.entries@.len() && x != i ==> self.entries@[x]
                            == prev_entries[x]);
                    assert(final(self).wf());
                    assert(final(self)@ =~= old(self)@.insert(key, value)) by {
                        assert forall|k: u128| #[trigger] final(self)@.contains_key(k) == old(
                            self,
                        )@.insert(key, value).contains_key(k) by {
                            if k == key {
                                assert(self.entries@[i as int].0 == k);
                            } else {
                                assert(forall|x: int|
                                    0 <= x < self.entries@.len() ==> (#[trigger] self.entries@[x].0
                                        == k <==> prev_entries[x].0 == k));
                            }
                        }
                        assert forall|k: u128|
                            final(self)@.contains_key(k) implies #[trigger] final(self)@[k] == old(
                            self,
                        )@.insert(key, value)[k] by {
                            let w = choose|w: int|
                                0 <= w < self.entries@.len() && self.entries@[w].0 == k;
                            if k == key {
                                assert(w == i);
                            } else {
                                let w0 = choose|w0: int|
                                    0 <= w0 < prev_entries.len() && prev_entries[w0].0 == k;
                                assert(self.entries@[w0].0 == k);
                                assert(w == w0);
                            }
                        }
                    }
                }
                Some(prev)
            },
            None => {
                let ghost prev_entries = self.entries@;
                self.entries.push((key, value));
                proof {
                    assert(forall|x: int|
                        0 <= x < prev_entries.len() ==> self.entries@[x] == prev_entries[x]);
                    assert(self.entries@[prev_entries.len() as int].1 == value);
                    assert(final(self).wf());
                    assert(final(self)@ =~= old(self)@.insert(key, value)) by {
                        assert forall|k: u128|
                            final(self)@.contains_key(k) implies #[trigger] final(self)@[k] == old(
                            self,
                        )@.insert(key, value)[k] by {
                            let w = choose|w: int|
                                0 <= w < self.entries@.len() && self.entries@[w].0 == k;
                            if k == key {
                                assert(w == prev_entries.len());
                            } else {
                                assert(w < prev_entries.len());
                                let w0 = choose|w0: int|
                                    0 <= w0 < prev_entries.len() && prev_entries[w0].0 == k;
                                assert(self.entries@[w0].0 == k);
                                assert(w == w0);
                            }
                        }
                    }
                }
                None
            },
        }
    }

    /// Takes the entry under `key` out of the store, atomically: after
    /// this returns, the key is gone, whoever asks next.
    pub fn remove(&mut self, key: u128) -> (r: Option<V>)
        requires
            old(self).wf(),
        ensures
            final(self).wf(),
            final(self)@ == old(self)@.remove(key),
            match r {
                Some(v) => old(self)@.contains_key(key) && v == old(self)@[key],
                None => !old(self)@.contains_key(key),
            },
    {
        let found = self.find(key);
        match found {
            Some(i) => {
                let ghost prev_entries = self.entries@;
                let entry = self.entries.remove(i);
                proof {
                    assert(self.entries@ =~= prev_entries.remove(i as int));
                    assert(forall|x: int|
                        0 <= x < self.entries@.len() ==> self.entries@[x] == (if x < i {
                            prev_entries[x]
                        } else {
                            prev_entries[x + 1]
                        }));
                    assert(final(self).wf());
                    assert(final(self)@ =~= old(self)@.remove(key)) by {
                        assert forall|k: u128| #[trigger] final(self)@.contains_key(k) == old(
                            self,
                        )@.remove(key).contains_key(k) by {
                            if k != key {
                                if old(self)@.contains_key(k) {
                                    let w0 = choose|w0: int|
                                        0 <= w0 < prev_entries.len() && prev_entries[w0].0 == k;
                                    if w0 < i {
                                        assert(self.entries@[w0].0 == k);
                                    } else {
                                        assert(w0 > i);
                                        assert(self.entries@[w0 - 1].0 == k);
                                    }
                                }
                            } else {
                                if final(self)@.contains_key(k) {
                                    let w = choose|w: int|
                                        0 <= w < self.entries@.len() && self.entries@[w].0 == k;
                                    if w < i {
                                        assert(prev_entries[w].0 == key);
                                    } else {
                                        assert(prev_entries[w + 1].0 == key);
                                    }
                                    assert(false);
                                }
                            }
                        }
                        assert forall|k: u128|
                            final(self)@.contains_key(k) implies #[trigger] final(self)@[k] == old(
                            self,
                        )@.remove(key)[k] by {
                            let w = choose|w: int|
                                0 <= w < self.entries@.len() && self.entries@[w].0 == k;
                            let w0 = choose|w0: int|
                                0 <= w0 < prev_entries.len() && prev_entries[w0].0 == k;
                            if w < i {
                                assert(prev_entries[w].0 == k);
                                assert(w == w0);
                            } else {
                                assert(prev_entries[w + 1].0 == k);
                                assert(w + 1 == w0);
                            }
                        }
                    }
                }
                Some(entry.1)
            },
            None => {
                proof {
                    assert(final(self)@ =~= old(self)@.remove(key));
                }
                None
            },
        }
    }
}

/// Law: a challenge key is consumed at most once. Once a `remove` has
/// taken the entry for `k` — leaving the map as `m.remove(k)` — the key
/// is absent, so any later `remove(k)`, from whichever caller lost the
/// race for the lock, returns nothing and the caller fails with an
/// invalid-challenge error. Of two racing consumers exactly one can
/// succeed.
pub proof fn lemma_remove_consumes_name<V>(m: Map<Seq<char>, V>, k: Seq<char>)
    ensures
        !m.remove(k).contains_key(k),
        forall|k2: Seq<char>| k2 != k && m.contains_key(k2) ==> m.remove(k).contains_key(k2),
{
}

/// Law: as [`lemma_remove_consumes_name`], for the id-keyed maps.
pub proof fn lemma_remove_consumes_id<V>(m: Map<u128, V>, k: u128)
    ensures
        !m.remove(k).contains_key(k),
        forall|k2: u128| k2 != k && m.contains_key(k2) ==> m.remove(k).contains_key(k2),
{
}

} // verus!
