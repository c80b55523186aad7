//! A map from texts to values that can be walked from one end to the other.

use vstd::prelude::*;

use crate::text::same_text;

verus! {

/// One key with its value.
pub struct Entry<V> {
    pub key: String,
    pub value: V,
}

/// A map from texts to values; each key occurs once.
pub struct Table<V> {
    entries: Vec<Entry<V>>,
}

impl<V> View for Table<V> {
    type V = Map<Seq<char>, V>;

    closed spec fn view(&self) -> Map<Seq<char>, V> {
        Map::new(
            |k: Seq<char>| exists|i: int| self.holds(i, k),
            |k: Seq<char>| self.entries@[choose|i: int| self.holds(i, k)].value,
        )
    }
}

impl<V> Table<V> {
    /// Whether the entry at this place has this key.
    pub closed spec fn holds(&self, i: int, k: Seq<char>) -> bool {
        0 <= i < self.entries@.len() && self.entries@[i].key@ == k
    }

    /// Whether no key occurs twice.
    pub closed spec fn wf(&self) -> bool {
        forall|i: int, j: int|
            0 <= i < j < self.entries@.len() ==> (#[trigger] self.entries@[i]).key@ != (
            #[trigger] self.entries@[j]).key@
    }

    /// The value of the entry at place `i` is the one that the map has for its key.
    proof fn lemma_entry(&self, i: int)
        requires
            self.wf(),
            0 <= i < self.entries@.len(),
        ensures
            self@.contains_key(self.entries@[i].key@),
            self@[self.entries@[i].key@] == self.entries@[i].value,
    {
        let k = self.entries@[i].key@;
        assert(self.holds(i, k));
        let j = choose|j: int| self.holds(j, k);
        assert(self.holds(j, k));
        assert(j == i);
    }

    /// Whether the tables have the same keys, and the same values but at one place.
    spec fn changed_at(a: Self, b: Self, i: int) -> bool {
        &&& 0 <= i < a.entries@.len() == b.entries@.len()
        &&& forall|j: int|
            0 <= j < a.entries@.len() ==> (#[trigger] b.entries@[j]).key@ == a.entries@[j].key@
        &&& forall|j: int|
            0 <= j < a.entries@.len() && j != i ==> (#[trigger] b.entries@[j]).value
                == a.entries@[j].value
    }

    /// Changing the value at one place changes what the map has for that key.
    proof fn lemma_changed(a: Self, b: Self, i: int)
        requires
            a.wf(),
            Self::changed_at(a, b, i),
        ensures
            b.wf(),
            b@ == a@.insert(a.entries@[i].key@, b.entries@[i].value),
    {
        let k = a.entries@[i].key@;
        b.lemma_entry(i);
        assert forall|q: Seq<char>| b@.contains_key(q) == a@.contains_key(q) by {
            if b@.contains_key(q) {
                let j = choose|j: int| b.holds(j, q);
                assert(a.holds(j, q));
            }
            if a@.contains_key(q) {
                let j = choose|j: int| a.holds(j, q);
                assert(b.holds(j, q));
            }
        }
        a.lemma_entry(i);
        assert forall|q: Seq<char>| #[trigger] b@.contains_key(q) && q != k implies b@[q]
            == a@[q] by {
            let j = choose|j: int| b.holds(j, q);
            assert(j != i);
            b.lemma_entry(j);
            a.lemma_entry(j);
        }
        assert(b@ =~= a@.insert(k, b.entries@[i].value));
    }

    /// A table without entries.
    pub fn new() -> (res: Self)
        ensures
            res.wf(),
            res@ == Map::<Seq<char>, V>::empty(),
    {
        let res = Table { entries: Vec::new() };
        assert forall|k: Seq<char>| !res@.contains_key(k) by {
            assert(forall|i: int| !res.holds(i, k));
        }
        assert(res@ =~= Map::<Seq<char>, V>::empty());
        res
    }

    /// The place of a key.
    fn place(&self, key: &str) -> (res: Option<usize>)
        ensures
            match res {
                Some(i) => self.holds(i as int, key@),
                None => forall|i: int| !self.holds(i, key@),
            },
    {
        let mut i: usize = 0;
        while i < self.entries.len()
            invariant
                i <= self.entries@.len(),
                forall|j: int| 0 <= j < i ==> !self.holds(j, key@),
            decreases self.entries.len() - i,
        {
            if same_text(self.entries[i].key.as_str(), key) {
                return Some(i);
            }
            i = i + 1;
        }
        None
    }

    /// Whether there is an entry for the key.
    pub fn contains_key(&self, key: &str) -> (res: bool)
        ensures
            res == self@.contains_key(key@),
    {
        match self.place(key) {
            Some(i) => {
                assert(self.holds(i as int, key@));
                true
            },
            None => false,
        }
    }

    /// The value for the key.
    pub fn get(&self, key: &str) -> (res: Option<&V>)
        requires
            self.wf(),
        ensures
            match res {
                Some(v) => self@.contains_key(key@) && self@[key@] == *v,
                None => !self@.contains_key(key@),
            },
    {
        match self.place(key) {
            Some(i) => {
                proof {
                    self.lemma_entry(i as int);
                }
                Some(&self.entries[i].value)
            },
            None => None,
        }
    }

    /// Puts a value under a key, in place of the one that was there.
    pub fn insert(&mut self, key: String, value: V)
        requires
            old(self).wf(),
        ensures
            final(self).wf(),
            final(self)@ == old(self)@.insert(key@, value),
    {
        let ghost k = key@;
        let ghost n = self.entries@.len();
        match self.place(key.as_str()) {
            Some(i) => {
                self.entries.set(i, Entry { key, value });
                proof {
                    Self::lemma_changed(*old(self), *self, i as int);
                }
            },
            None => {
                self.entries.push(Entry { key, value });
                proof {
                    assert(forall|j: int|
                        0 <= j < n ==> (#[trigger] self.entries@[j]) == old(self).entries@[j]);
                    assert forall|i: int, j: int| 0 <= i < j < self.entries@.len() implies (
                    #[trigger] self.entries@[i]).key@ != (#[trigger] self.entries@[j]).key@ by {
                        assert(!old(self).holds(i, k));
                    }
                    assert(self.wf());
                    self.lemma_entry(n as int);
                    assert forall|q: Seq<char>| self@.contains_key(q) == (old(self)@.contains_key(q)
                        || q == k) by {
                        if self@.contains_key(q) {
                            let j = choose|j: int| self.holds(j, q);
                            assert(q == k || old(self).holds(j, q));
                        }
                        if old(self)@.contains_key(q) {
                            let j = choose|j: int| old(self).holds(j, q);
                            assert(self.holds(j, q));
                        }
                    }
                    assert forall|q: Seq<char>| #[trigger]
                        self@.contains_key(q) && q != k implies self@[q] == old(self)@[q] by {
                        let j = choose|j: int| self.holds(j, q);
                        assert(j != n);
                        self.lemma_entry(j);
                        old(self).lemma_entry(j);
                    }
                }
            },
        }
        assert(self@ =~= old(self)@.insert(k, value));
    }

    /// Takes the entry for a key out and hands its value back.
    pub fn remove(&mut self, key: &str) -> (res: Option<V>)
        requires
            old(self).wf(),
        ensures
            final(self).wf(),
            final(self)@ == old(self)@.remove(key@),
            match res {
                Some(v) => old(self)@.contains_key(key@) && old(self)@[key@] == v,
                None => !old(self)@.contains_key(key@),
            },
    {
        match self.place(key) {
            Some(i) => {
                proof {
                    self.lemma_entry(i as int);
                }
                let entry: Entry<V> = self.entries.remove(i);
                proof {
                    let was = old(self).entries@;
                    assert(self.entries@ == was.remove(i as int));
                    assert forall|j: int| 0 <= j < self.entries@.len() implies (#[trigger]
                    self.entries@[j]) == was[if j < i {
                        j
                    } else {
                        j + 1
                    }] by {}
                    assert(self.wf());
                    assert forall|q: Seq<char>| self@.contains_key(q) == (old(self)@.contains_key(q)
                        && q != key@) by {
                        if self@.contains_key(q) {
                            let j = choose|j: int| self.holds(j, q);
                            let p = if j < i {
                                j
                            } else {
                                j + 1
                            };
                            assert(old(self).holds(p, q));
                        }
                        if old(self)@.contains_key(q) && q != key@ {
                            let p = choose|p: int| old(self).holds(p, q);
                            let j = if p < i {
                                p
                            } else {
                                p - 1
                            };
                            assert(self.holds(j, q));
                        }
                    }
                    assert forall|q: Seq<char>| #[trigger] self@.contains_key(q) implies self@[q]
                        == old(self)@[q] by {
                        let j = choose|j: int| self.holds(j, q);
                        let p = if j < i {
                            j
                        } else {
                            j + 1
                        };
                        self.lemma_entry(j);
                        old(self).lemma_entry(p);
                    }
                    assert(self@ =~= old(self)@.remove(key@));
                }
                Some(entry.value)
            },
            None => {
                assert(self@ =~= old(self)@.remove(key@));
                None
            },
        }
    }

    /// Lends the value for the key out to be changed.
    pub fn get_mut(&mut self, key: &str) -> (res: Option<&mut V>)
        requires
            old(self).wf(),
        ensures
            final(self).wf(),
            match res {
                Some(v) => {
                    &&& old(self)@.contains_key(key@)
                    &&& *v == old(self)@[key@]
                    &&& final(self)@ == old(self)@.insert(key@, *final(v))
                },
                None => {
                    &&& !old(self)@.contains_key(key@)
                    &&& final(self)@ == old(self)@
                },
            },
    {
        match self.place(key) {
            Some(i) => {
                proof {
                    self.lemma_entry(i as int);
                    let a = *self;
                    assert forall|b: Self|
                        #![trigger b.wf()]
                        #![trigger b@]
                        Self::changed_at(a, b, i as int) implies b.wf() && b@ == a@.insert(
                        key@,
                        b.entries@[i as int].value,
                    ) by {
                        Self::lemma_changed(a, b, i as int);
                    }
                }
                Some(&mut self.entries[i].value)
            },
            None => None,
        }
    }

    /// The keys in the order in which the table is walked.
    pub closed spec fn keys(&self) -> Seq<Seq<char>> {
        Seq::new(self.entries@.len(), |i: int| self.entries@[i].key@)
    }

    /// How many entries there are.
    pub fn len(&self) -> (res: usize)
        ensures
            res == self.keys().len(),
    {
        self.entries.len()
    }

    /// The entry at a place.
    pub fn at(&self, i: usize) -> (res: &Entry<V>)
        requires
            self.wf(),
            i < self.keys().len(),
        ensures
            res.key@ == self.keys()[i as int],
            self@.contains_key(res.key@),
            self@[res.key@] == res.value,
    {
        proof {
            self.lemma_entry(i as int);
        }
        &self.entries[i]
    }

    /// A walk over the table comes to every key, and to each only once.
    pub proof fn law_each_key_once(&self)
        requires
            self.wf(),
        ensures
            self.keys().no_duplicates(),
            forall|k: Seq<char>| self@.contains_key(k) <==> #[trigger] self.keys().contains(k),
    {
        assert forall|k: Seq<char>| self@.contains_key(k) == #[trigger] self.keys().contains(k) by {
            if self@.contains_key(k) {
                let i = choose|i: int| self.holds(i, k);
                assert(self.keys()[i] == k);
            }
            if self.keys().contains(k) {
                let i = choose|i: int| 0 <= i < self.keys().len() && self.keys()[i] == k;
                assert(self.holds(i, k));
            }
        }
    }
}

} // verus!
