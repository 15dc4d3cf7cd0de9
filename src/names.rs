use vstd::prelude::*;

verus! {

/// A map from names to values that keeps its entries in insertion order; each
/// name appears once.
#[derive(Debug)]
pub struct NameMap<V> {
    entries: Vec<(String, V)>,
}

/// The name of the `i`-th entry.
pub open spec fn key_at<V>(entries: Seq<(String, V)>, i: int) -> Seq<char> {
    entries[i].0@
}

/// No name appears twice.
pub open spec fn unique_keys<V>(entries: Seq<(String, V)>) -> bool {
    forall|i: int, j: int|
        0 <= i < entries.len() && 0 <= j < entries.len() && i != j ==> key_at(entries, i)
            != key_at(entries, j)
}

/// Some entry has this name.
pub open spec fn has_key<V>(entries: Seq<(String, V)>, k: Seq<char>) -> bool {
    exists|i: int| 0 <= i < entries.len() && key_at(entries, i) == k
}

impl<V> NameMap<V> {
    pub closed spec fn entries(&self) -> Seq<(String, V)> {
        self.entries@
    }

    pub open spec fn wf(&self) -> bool {
        unique_keys(self.entries())
    }

    /// The map from each name to its value.
    pub open spec fn view(&self) -> Map<Seq<char>, V> {
        Map::new(
            |k: Seq<char>| has_key(self.entries(), k),
            |k: Seq<char>|
                self.entries()[choose|i: int|
                    0 <= i < self.entries().len() && key_at(self.entries(), i) == k].1,
        )
    }

    pub fn new() -> (r: NameMap<V>)
        ensures
            r.wf(),
            r@ == Map::<Seq<char>, V>::empty(),
            r.entries().len() == 0,
    {
        let r = NameMap { entries: Vec::new() };
        assert(r@ =~= Map::<Seq<char>, V>::empty());
        r
    }

    pub fn len(&self) -> (r: usize)
        ensures
            r == self.entries().len(),
    {
        self.entries.len()
    }

    /// The map has one key per entry.
    pub proof fn lemma_len(&self)
        requires
            self.wf(),
        ensures
            self@.len() == self.entries().len(),
            self@.dom().finite(),
    {
        let keys = Seq::new(self.entries().len(), |i: int| key_at(self.entries(), i));
        assert(keys.no_duplicates());
        assert forall|k: Seq<char>| #[trigger] self@.dom().contains(k) == keys.to_set().contains(k) by {
            if has_key(self.entries(), k) {
                let j = choose|j: int| 0 <= j < self.entries().len() && key_at(self.entries(), j) == k;
                assert(keys[j] == k);
            }
            if keys.to_set().contains(k) {
                let j = choose|j: int| 0 <= j < keys.len() && keys[j] == k;
                assert(key_at(self.entries(), j) == k);
            }
        }
        assert(self@.dom() =~= keys.to_set());
        keys.unique_seq_to_set();
    }

    /// Position of the entry named `key`, if there is one.
    pub fn position(&self, key: &str) -> (r: Option<usize>)
        requires
            self.wf(),
        ensures
            r is Some <==> self@.contains_key(key@),
            r is Some ==> r.unwrap() < self.entries().len() && key_at(
                self.entries(),
                r.unwrap() as int,
            ) == key@ && self@[key@] == self.entries()[r.unwrap() as int].1,
    {
        let wanted: String = key.to_owned();
        let mut i: usize = 0;
        while i < self.entries.len()
            invariant
                0 <= i <= self.entries@.len(),
                self.wf(),
                wanted@ == key@,
                forall|j: int| 0 <= j < i ==> key_at(self.entries(), j) != key@,
            decreases self.entries@.len() - i,
        {
            if self.entries[i].0 == wanted {
                proof {
                    self.lemma_value_at(i as int);
                }
                return Some(i);
            }
            i += 1;
        }
        None
    }

    /// The value at an index is what the map gives for its name.
    pub proof fn lemma_value_at(&self, i: int)
        requires
            self.wf(),
            0 <= i < self.entries().len(),
        ensures
            self@.contains_key(key_at(self.entries(), i)),
            self@[key_at(self.entries(), i)] == self.entries()[i].1,
    {
        let k = key_at(self.entries(), i);
        assert(has_key(self.entries(), k));
        let j = choose|j: int| 0 <= j < self.entries().len() && key_at(self.entries(), j) == k;
        assert(i == j);
    }

    pub fn get(&self, key: &str) -> (r: Option<&V>)
        requires
            self.wf(),
        ensures
            r is Some <==> self@.contains_key(key@),
            r is Some ==> *r.unwrap() == self@[key@],
    {
        match self.position(key) {
            Some(i) => Some(&self.entries[i].1),
            None => None,
        }
    }

    pub fn contains_key(&self, key: &str) -> (r: bool)
        requires
            self.wf(),
        ensures
            r == self@.contains_key(key@),
    {
        self.position(key).is_some()
    }

    /// The entry at an index.
    pub fn entry_at(&self, i: usize) -> (r: (&String, &V))
        requires
            i < self.entries().len(),
        ensures
            *r.0 == self.entries()[i as int].0,
            *r.1 == self.entries()[i as int].1,
    {
        let e = &self.entries[i];
        (&e.0, &e.1)
    }

    /// Sets the value of a name; an entry that had the name before is replaced
    /// in place.
    pub fn insert(&mut self, name: String, value: V)
        requires
            old(self).wf(),
        ensures
            final(self).wf(),
            final(self)@ == old(self)@.insert(name@, value),
    {
        let ghost before = self.entries@;
        match self.position(name.as_str()) {
            Some(i) => {
                self.entries.set(i, (name, value));
                proof {
                    assert forall|j: int| 0 <= j < before.len() implies #[trigger] key_at(
                        self.entries(),
                        j,
                    ) == key_at(before, j) by {}
                    assert(self.wf());
                    assert(has_key(before, name@)) by {
                        assert(key_at(before, i as int) == name@);
                    }
                    assert forall|k: Seq<char>| #[trigger] self@.contains_key(k)
                        == old(self)@.insert(name@, value).contains_key(k) by {
                        if has_key(before, k) {
                            let j = choose|j: int|
                                0 <= j < before.len() && key_at(before, j) == k;
                            assert(key_at(self.entries(), j) == k);
                        }
                        if has_key(self.entries(), k) {
                            let j = choose|j: int|
                                0 <= j < self.entries().len() && key_at(self.entries(), j) == k;
                            assert(key_at(before, j) == k);
                        }
                    }
                    assert forall|k: Seq<char>| #[trigger]
                        self@.contains_key(k) implies self@[k] == old(self)@.insert(
                        name@,
                        value,
                    )[k] by {
                        let j = choose|j: int|
                            0 <= j < self.entries().len() && key_at(self.entries(), j) == k;
                        self.lemma_value_at(j);
                        if j != i {
                            old(self).lemma_value_at(j);
                        }
                    }
                    assert(self@ =~= old(self)@.insert(name@, value));
                }
            },
            None => {
                self.entries.push((name, value));
                proof {
                    let n = before.len() as int;
                    assert forall|i: int, j: int|
                        0 <= i < self.entries().len() && 0 <= j < self.entries().len() && i
                            != j implies key_at(self.entries(), i) != key_at(
                        self.entries(),
                        j,
                    ) by {
                        if i == n {
                            assert(key_at(before, j) != name@);
                        } else if j == n {
                            assert(key_at(before, i) != name@);
                        } else {
                            assert(key_at(before, i) != key_at(before, j));
                        }
                    }
                    assert forall|k: Seq<char>| #[trigger] self@.contains_key(k)
                        == old(self)@.insert(name@, value).contains_key(k) by {
                        if has_key(before, k) {
                            let j = choose|j: int|
                                0 <= j < before.len() && key_at(before, j) == k;
                            assert(key_at(self.entries(), j) == k);
                        }
                        if k == name@ {
                            assert(key_at(self.entries(), n) == k);
                        }
                        if has_key(self.entries(), k) && k != name@ {
                            let j = choose|j: int|
                                0 <= j < self.entries().len() && key_at(self.entries(), j) == k;
                            assert(key_at(before, j) == k);
                        }
                    }
                    assert forall|k: Seq<char>| #[trigger]
                        self@.contains_key(k) implies self@[k] == old(self)@.insert(
                        name@,
                        value,
                    )[k] by {
                        let j = choose|j: int|
                            0 <= j < self.entries().len() && key_at(self.entries(), j) == k;
                        self.lemma_value_at(j);
                        if j != n {
                            old(self).lemma_value_at(j);
                        }
                    }
                    assert(self@ =~= old(self)@.insert(name@, value));
                }
            },
        }
    }

    /// Removes the entry named `key`, if there is one; the others keep their
    /// order.
    pub fn remove(&mut self, key: &str)
        requires
            old(self).wf(),
        ensures
            final(self).wf(),
            final(self)@ == old(self)@.remove(key@),
    {
        match self.position(key) {
            Some(i) => {
                let ghost before = self.entries@;
                let _ = self.entries.remove(i);
                proof {
                    let after = self.entries@;
                    assert(after == before.remove(i as int));
                    assert forall|a: int| 0 <= a < after.len() implies #[trigger] key_at(after, a)
                        == key_at(before, if a < i { a } else { a + 1 }) by {}
                    assert forall|a: int, b: int|
                        0 <= a < after.len() && 0 <= b < after.len() && a != b implies key_at(
                        after,
                        a,
                    ) != key_at(after, b) by {
                        assert(key_at(after, a) == key_at(before, if a < i { a } else { a + 1 }));
                        assert(key_at(after, b) == key_at(before, if b < i { b } else { b + 1 }));
                    }
                    assert forall|k: Seq<char>| #[trigger] self@.contains_key(k)
                        == old(self)@.remove(key@).contains_key(k) by {
                        if has_key(after, k) {
                            let a = choose|a: int| 0 <= a < after.len() && key_at(after, a) == k;
                            let src = if a < i { a } else { a + 1 };
                            assert(key_at(before, src) == k);
                            assert(src != i);
                        }
                        if has_key(before, k) && k != key@ {
                            let a = choose|a: int| 0 <= a < before.len() && key_at(before, a) == k;
                            assert(a != i);
                            let dst = if a < i { a } else { a - 1 };
                            assert(key_at(after, dst) == k);
                        }
                    }
                    assert forall|k: Seq<char>| #[trigger]
                        self@.contains_key(k) implies self@[k] == old(self)@.remove(key@)[k] by {
                        let a = choose|a: int| 0 <= a < after.len() && key_at(after, a) == k;
                        self.lemma_value_at(a);
                        let src = if a < i { a } else { a + 1 };
                        old(self).lemma_value_at(src);
                    }
                    assert(self@ =~= old(self)@.remove(key@));
                }
            },
            None => {
                assert(self@ =~= old(self)@.remove(key@));
            },
        }
    }
}

} // verus!
