//! A map from byte-string keys to values, kept as a vector of entries with
//! unique keys.

use vstd::prelude::*;

verus! {

/// A key of a [`Table`]: a value identified by a byte string.
pub trait TableKey: Sized {
    /// The byte string that identifies the key.
    spec fn key(&self) -> Seq<u8>;

    /// Whether two keys identify the same entry.
    fn same_key(&self, other: &Self) -> (r: bool)
        ensures
            r == (self.key() == other.key());
}

/// A finite map from keys to values, in insertion order.
pub struct Table<K: TableKey, V: View> {
    entries: Vec<(K, V)>,
    model: Ghost<Map<Seq<u8>, V::V>>,
}

impl<K: TableKey, V: View> View for Table<K, V> {
    type V = Map<Seq<u8>, V::V>;

    closed spec fn view(&self) -> Map<Seq<u8>, V::V> {
        self.model@
    }
}

impl<K: TableKey, V: View> Table<K, V> {
    /// The entries and the model agree, and no key occurs twice.
    pub closed spec fn wf(&self) -> bool {
        &&& forall|i: int|
            0 <= i < self.entries@.len() ==> {
                let e = #[trigger] self.entries@[i];
                &&& self.model@.contains_key(e.0.key())
                &&& self.model@[e.0.key()] == e.1@
            }
        &&& forall|k: Seq<u8>|
            #[trigger] self.model@.contains_key(k) ==> exists|i: int|
                0 <= i < self.entries@.len() && (#[trigger] self.entries@[i]).0.key() == k
        &&& forall|i: int, j: int|
            0 <= i < j < self.entries@.len() ==> (#[trigger] self.entries@[i]).0.key() != (
            #[trigger] self.entries@[j]).0.key()
    }

    /// An empty table.
    pub fn new() -> (r: Self)
        ensures
            r.wf(),
            r@ == Map::<Seq<u8>, V::V>::empty(),
    {
        Table { entries: Vec::new(), model: Ghost(Map::empty()) }
    }

    /// The position of the entry for `k`, if there is one.
    fn position(&self, k: &K) -> (r: Option<usize>)
        requires
            self.wf(),
        ensures
            match r {
                Some(i) => i < self.entries@.len() && self.entries@[i as int].0.key() == k.key(),
                None => !self@.contains_key(k.key()),
            },
    {
        let mut i: usize = 0;
        while i < self.entries.len()
            invariant
                i <= self.entries@.len(),
                forall|j: int| 0 <= j < i ==> (#[trigger] self.entries@[j]).0.key() != k.key(),
            decreases self.entries@.len() - i,
        {
            if self.entries[i].0.same_key(k) {
                return Some(i);
            }
            i = i + 1;
        }
        None
    }

    /// The value stored under `k`, if any.
    pub fn get(&self, k: &K) -> (r: Option<&V>)
        requires
            self.wf(),
        ensures
            r is Some <==> self@.contains_key(k.key()),
            r is Some ==> r->0@ == self@[k.key()],
    {
        match self.position(k) {
            Some(i) => Some(&self.entries[i].1),
            None => None,
        }
    }

    /// Stores `v` under `k`, replacing any value stored there.
    pub fn insert(&mut self, k: K, v: V)
        requires
            old(self).wf(),
        ensures
            final(self).wf(),
            final(self)@ == old(self)@.insert(k.key(), v@),
    {
        let ghost key = k.key();
        let ghost vv = v@;
        let ghost m = self.model@.insert(key, vv);
        match self.position(&k) {
            Some(i) => {
                let mut entries = Vec::new();
                std::mem::swap(&mut entries, &mut self.entries);
                entries.set(i, (k, v));
                proof {
                    assert forall|k2: Seq<u8>| #[trigger] m.contains_key(k2) implies exists|j: int|
                        0 <= j < entries@.len() && (#[trigger] entries@[j]).0.key() == k2 by {
                        if k2 != key {
                            assert(old(self).model@.contains_key(k2));
                            let j = choose|j: int|
                                0 <= j < old(self).entries@.len() && (#[trigger] old(
                                    self,
                                ).entries@[j]).0.key() == k2;
                            assert(entries@[j] == old(self).entries@[j]);
                        } else {
                            assert(entries@[i as int].0.key() == k2);
                        }
                    }
                    assert forall|a: int|
                        0 <= a < entries@.len() implies m.contains_key(
                        (#[trigger] entries@[a]).0.key(),
                    ) && m[entries@[a].0.key()] == entries@[a].1@ by {
                        if a != i {
                            assert(entries@[a] == old(self).entries@[a]);
                            assert(old(self).entries@[a].0.key() != old(self).entries@[i as int].0.key());
                        }
                    }
                    assert forall|a: int, b: int|
                        0 <= a < b < entries@.len() implies (#[trigger] entries@[a]).0.key() != (
                        #[trigger] entries@[b]).0.key() by {
                        assert(old(self).entries@[a].0.key() != old(self).entries@[b].0.key());
                    }
                }
                *self = Table { entries, model: Ghost(m) };
                assert(self.wf());
            },
            None => {
                let mut entries = Vec::new();
                std::mem::swap(&mut entries, &mut self.entries);
                let ghost n = entries@.len();
                entries.push((k, v));
                proof {
                    assert forall|k2: Seq<u8>| #[trigger] m.contains_key(k2) implies exists|j: int|
                        0 <= j < entries@.len() && (#[trigger] entries@[j]).0.key() == k2 by {
                        if k2 != key {
                            assert(old(self).model@.contains_key(k2));
                            let j = choose|j: int|
                                0 <= j < old(self).entries@.len() && (#[trigger] old(
                                    self,
                                ).entries@[j]).0.key() == k2;
                            assert(entries@[j] == old(self).entries@[j]);
                        } else {
                            assert(entries@[n as int].0.key() == k2);
                        }
                    }
                    assert forall|a: int|
                        0 <= a < entries@.len() implies m.contains_key(
                        (#[trigger] entries@[a]).0.key(),
                    ) && m[entries@[a].0.key()] == entries@[a].1@ by {
                        if a != n {
                            assert(entries@[a] == old(self).entries@[a]);
                        }
                    }
                    assert forall|a: int, b: int|
                        0 <= a < b < entries@.len() implies (#[trigger] entries@[a]).0.key() != (
                        #[trigger] entries@[b]).0.key() by {
                        assert(entries@[a] == old(self).entries@[a]);
                        if b == n {
                            assert(old(self).model@.contains_key(old(self).entries@[a].0.key()));
                        } else {
                            assert(entries@[b] == old(self).entries@[b]);
                        }
                    }
                }
                *self = Table { entries, model: Ghost(m) };
                assert(self.wf());
            },
        }
    }

    /// Removes the entry for `k` and returns its value, if there was one.
    pub fn remove(&mut self, k: &K) -> (r: Option<V>)
        requires
            old(self).wf(),
        ensures
            final(self).wf(),
            final(self)@ == old(self)@.remove(k.key()),
            r is Some <==> old(self)@.contains_key(k.key()),
            r is Some ==> r->0@ == old(self)@[k.key()],
    {
        match self.position(k) {
            Some(i) => {
                let ghost key = k.key();
                let ghost m = self.model@.remove(key);
                let mut entries = Vec::new();
                std::mem::swap(&mut entries, &mut self.entries);
                let ghost before = entries@;
                let e = entries.remove(i);
                proof {
                    assert forall|k2: Seq<u8>| #[trigger] m.contains_key(k2) implies exists|j: int|
                        0 <= j < entries@.len() && (#[trigger] entries@[j]).0.key() == k2 by {
                        assert(old(self).model@.contains_key(k2));
                        let j = choose|j: int|
                            0 <= j < old(self).entries@.len() && (#[trigger] old(
                                self,
                            ).entries@[j]).0.key() == k2;
                        assert(before[j] == old(self).entries@[j]);
                        if j < i {
                            assert(entries@[j] == before[j]);
                        } else {
                            assert(entries@[j - 1] == before[j]);
                        }
                    }
                    assert forall|a: int|
                        0 <= a < entries@.len() implies m.contains_key(
                        (#[trigger] entries@[a]).0.key(),
                    ) && m[entries@[a].0.key()] == entries@[a].1@ by {
                        if a < i {
                            assert(entries@[a] == before[a]);
                        } else {
                            assert(entries@[a] == before[a + 1]);
                        }
                    }
                    assert forall|a: int, b: int|
                        0 <= a < b < entries@.len() implies (#[trigger] entries@[a]).0.key() != (
                        #[trigger] entries@[b]).0.key() by {
                        let a0 = if a < i {
                            a
                        } else {
                            a + 1
                        };
                        let b0 = if b < i {
                            b
                        } else {
                            b + 1
                        };
                        assert(entries@[a] == before[a0]);
                        assert(entries@[b] == before[b0]);
                    }
                }
                *self = Table { entries, model: Ghost(m) };
                assert(self.wf());
                Some(e.1)
            },
            None => {
                assert(old(self)@.remove(k.key()) =~= old(self)@);
                None
            },
        }
    }
}

} // verus!
