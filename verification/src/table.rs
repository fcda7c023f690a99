//! A map from strings to values, as a list without repeated keys.

use vstd::prelude::*;

verus! {

/// One key with its value.
#[derive(Debug)]
struct Entry<V> {
    key: String,
    value: V,
}

/// A finite map keyed by strings, held as a list in which no key occurs twice.
#[derive(Debug)]
pub struct Table<V> {
    entries: Vec<Entry<V>>,
}

impl<V> Table<V> {
    /// Whether position `i` holds the key `k`.
    pub closed spec fn has_key_at(&self, k: Seq<char>, i: int) -> bool {
        0 <= i < self.entries@.len() && self.entries@[i].key@ == k
    }

    /// No key occurs twice.
    pub closed spec fn wf(&self) -> bool {
        forall|i: int, j: int|
            0 <= i < j < self.entries@.len() ==> self.entries@[i].key@ != self.entries@[j].key@
    }

    /// The map that the table stands for.
    pub closed spec fn view(&self) -> Map<Seq<char>, V> {
        Map::new(
            |k: Seq<char>| exists|i: int| self.has_key_at(k, i),
            |k: Seq<char>| self.entries@[choose|i: int| self.has_key_at(k, i)].value,
        )
    }

    proof fn lemma_entry(&self, i: int)
        requires
            self.wf(),
            0 <= i < self.entries@.len(),
        ensures
            self@.contains_key(self.entries@[i].key@),
            self@[self.entries@[i].key@] == self.entries@[i].value,
    {
        let k = self.entries@[i].key@;
        assert(self.has_key_at(k, i));
        let j = choose|j: int| self.has_key_at(k, j);
        assert(j == i);
    }

    /// The empty table.
    pub fn new() -> (t: Table<V>)
        ensures
            t.wf(),
            t@ == Map::<Seq<char>, V>::empty(),
    {
        let t = Table { entries: Vec::new() };
        proof {
            assert(t@ =~= Map::<Seq<char>, V>::empty());
        }
        t
    }

    /// The number of keys.
    pub fn len(&self) -> (n: usize)
        requires
            self.wf(),
        ensures
            n == self@.len(),
            self@.dom().finite(),
    {
        proof {
            self.lemma_size(self.entries@.len() as int);
            assert(self.prefix_keys(self.entries@.len() as int) =~= self@.dom());
        }
        self.entries.len()
    }

    spec fn prefix_keys(&self, n: int) -> Set<Seq<char>> {
        Set::new(|k: Seq<char>| exists|i: int| 0 <= i < n && self.has_key_at(k, i))
    }

    proof fn lemma_size(&self, n: int)
        requires
            self.wf(),
            0 <= n <= self.entries@.len(),
        ensures
            self.prefix_keys(n).finite(),
            self.prefix_keys(n).len() == n,
        decreases n,
    {
        if n == 0 {
            assert(self.prefix_keys(0) =~= Set::<Seq<char>>::empty());
        } else {
            self.lemma_size(n - 1);
            let k = self.entries@[n - 1].key@;
            assert(self.has_key_at(k, n - 1));
            assert(self.prefix_keys(n) =~= self.prefix_keys(n - 1).insert(k));
            assert(!self.prefix_keys(n - 1).contains(k));
        }
    }

    fn find(&self, key: &String) -> (r: Option<usize>)
        ensures
            match r {
                Some(i) => self.has_key_at(key@, i as int),
                None => !self@.contains_key(key@),
            },
    {
        let mut i: usize = 0;
        while i < self.entries.len()
            invariant
                i <= self.entries@.len(),
                forall|j: int| 0 <= j < i ==> !self.has_key_at(key@, j),
            decreases self.entries@.len() - i,
        {
            if self.entries[i].key == *key {
                return Some(i);
            }
            i += 1;
        }
        None
    }

    /// Whether the key is present.
    pub fn contains(&self, key: &String) -> (present: bool)
        ensures
            present == self@.contains_key(key@),
    {
        match self.find(key) {
            Some(_) => true,
            None => false,
        }
    }

    /// The value under the key, if there is one.
    pub fn get(&self, key: &String) -> (r: Option<&V>)
        requires
            self.wf(),
        ensures
            match r {
                Some(v) => self@.contains_key(key@) && *v == self@[key@],
                None => !self@.contains_key(key@),
            },
    {
        match self.find(key) {
            Some(i) => {
                proof {
                    self.lemma_entry(i as int);
                }
                Some(&self.entries[i].value)
            },
            None => None,
        }
    }

    /// Inserts the value under the key, replacing what was there.
    pub fn put(&mut self, key: String, value: V)
        requires
            old(self).wf(),
        ensures
            final(self).wf(),
            final(self)@ == old(self)@.insert(key@, value),
    {
        let ghost before = *self;
        let ghost k = key@;
        match self.find(&key) {
            Some(i) => {
                self.entries.set(i, Entry { key, value });
                proof {
                    assert forall|x: Seq<char>, j: int|
                        self.has_key_at(x, j) == before.has_key_at(x, j) by {}
                    assert(self.wf());
                    assert(before.has_key_at(k, i as int));
                    assert forall|x: Seq<char>| #[trigger]
                        self@.contains_key(x) == before@.insert(k, value).contains_key(x) by {
                        if self@.contains_key(x) {
                            let j = choose|j: int| self.has_key_at(x, j);
                            assert(before.has_key_at(x, j));
                        }
                        if before@.contains_key(x) {
                            let j = choose|j: int| before.has_key_at(x, j);
                            assert(self.has_key_at(x, j));
                        }
                        if x == k {
                            assert(self.has_key_at(x, i as int));
                        }
                    }
                    assert forall|x: Seq<char>| #[trigger]
                        self@.contains_key(x) implies self@[x] == before@.insert(k, value)[x] by {
                        let j = choose|j: int| self.has_key_at(x, j);
                        self.lemma_entry(j);
                        before.lemma_entry(j);
                    }
                    assert(self@ =~= before@.insert(k, value));
                }
            },
            None => {
                self.entries.push(Entry { key, value });
                proof {
                    let n = before.entries@.len() as int;
                    assert forall|x: Seq<char>, j: int|
                        self.has_key_at(x, j) == (before.has_key_at(x, j) || (j == n && x == k)) by {}
                    assert(self.wf()) by {
                        assert forall|i: int, j: int|
                            0 <= i < j < self.entries@.len() implies self.entries@[i].key@
                            != self.entries@[j].key@ by {
                            if j == n {
                                assert(before.has_key_at(self.entries@[i].key@, i));
                            }
                        }
                    }
                    assert(self.has_key_at(k, n));
                    assert forall|x: Seq<char>| #[trigger]
                        self@.contains_key(x) == before@.insert(k, value).contains_key(x) by {
                        if self@.contains_key(x) {
                            let j = choose|j: int| self.has_key_at(x, j);
                            if j < n {
                                assert(before.has_key_at(x, j));
                            }
                        }
                        if before@.contains_key(x) {
                            let j = choose|j: int| before.has_key_at(x, j);
                            assert(self.has_key_at(x, j));
                        }
                    }
                    assert forall|x: Seq<char>| #[trigger]
                        self@.contains_key(x) implies self@[x] == before@.insert(k, value)[x] by {
                        let j = choose|j: int| self.has_key_at(x, j);
                        self.lemma_entry(j);
                        if j < n {
                            before.lemma_entry(j);
                        }
                    }
                    assert(self@ =~= before@.insert(k, value));
                }
            },
        }
    }

    /// Removes the key and hands out what was under it.
    pub fn take(&mut self, key: &String) -> (r: Option<V>)
        requires
            old(self).wf(),
        ensures
            final(self).wf(),
            final(self)@ == old(self)@.remove(key@),
            match r {
                Some(v) => old(self)@.contains_key(key@) && v == old(self)@[key@],
                None => !old(self)@.contains_key(key@),
            },
    {
        let ghost before = *self;
        let ghost k = key@;
        match self.find(key) {
            Some(i) => {
                let entry = self.entries.remove(i);
                proof {
                    before.lemma_entry(i as int);
                    assert forall|x: Seq<char>, j: int|
                        self.has_key_at(x, j) == (if j < i {
                            before.has_key_at(x, j)
                        } else {
                            before.has_key_at(x, j + 1)
                        }) by {}
                    assert(self.wf());
                    assert forall|x: Seq<char>| #[trigger]
                        self@.contains_key(x) == before@.remove(k).contains_key(x) by {
                        if self@.contains_key(x) {
                            let j = choose|j: int| self.has_key_at(x, j);
                            if j < i {
                                assert(before.has_key_at(x, j));
                            } else {
                                assert(before.has_key_at(x, j + 1));
                            }
                        }
                        if before@.remove(k).contains_key(x) {
                            let j = choose|j: int| before.has_key_at(x, j);
                            if j < i {
                                assert(self.has_key_at(x, j));
                            } else {
                                assert(self.has_key_at(x, j - 1));
                            }
                        }
                    }
                    assert forall|x: Seq<char>| #[trigger]
                        self@.contains_key(x) implies self@[x] == before@.remove(k)[x] by {
                        let j = choose|j: int| self.has_key_at(x, j);
                        self.lemma_entry(j);
                        if j < i {
                            before.lemma_entry(j);
                        } else {
                            before.lemma_entry(j + 1);
                        }
                    }
                    assert(self@ =~= before@.remove(k));
                }
                Some(entry.value)
            },
            None => {
                proof {
                    assert(self@ =~= before@.remove(k));
                }
                None
            },
        }
    }
}

} // verus!
