//! A map from names to values that keeps its entries in the order in which
//! their names were first inserted.

use vstd::prelude::*;

verus! {

/// A map from names to values.
pub struct NameMap<V> {
    keys: Vec<String>,
    values: Vec<V>,
}

impl<V> NameMap<V> {
    /// The names in the order of the entries.
    pub closed spec fn names(&self) -> Seq<Seq<char>> {
        Seq::new(self.keys.len() as nat, |i: int| self.keys[i]@)
    }

    /// The values in the order of the entries.
    pub closed spec fn values(&self) -> Seq<V> {
        self.values@
    }

    /// There is a value for every name, and no name occurs twice.
    pub open spec fn wf(&self) -> bool {
        &&& self.names().len() == self.values().len()
        &&& self.names().no_duplicates()
    }

    /// The map is well formed, and holds `name`.
    pub open spec fn contains(&self, name: Seq<char>) -> bool {
        self.names().contains(name)
    }

    /// The value of `name`, if the map holds it.
    pub open spec fn value(&self, name: Seq<char>) -> V {
        self.values()[self.names().index_of(name)]
    }

    /// The entries as a mathematical map.
    pub open spec fn view(&self) -> Map<Seq<char>, V> {
        Map::new(|name: Seq<char>| self.contains(name), |name: Seq<char>| self.value(name))
    }

    /// In a well formed map every entry is found under its name.
    pub proof fn lemma_entry(&self, i: int)
        requires
            self.wf(),
            0 <= i < self.names().len(),
        ensures
            self.contains(self.names()[i]),
            self.names().index_of(self.names()[i]) == i,
            self.value(self.names()[i]) == self.values()[i],
            self@.contains_key(self.names()[i]),
            self@[self.names()[i]] == self.values()[i],
    {
        let name = self.names()[i];
        let j = self.names().index_of(name);
        assert(0 <= j < self.names().len() && self.names()[j] == name);
    }

    /// A name that the map holds stands at one index.
    pub proof fn lemma_index(&self, name: Seq<char>)
        requires
            self.wf(),
            self.contains(name),
        ensures
            0 <= self.names().index_of(name) < self.names().len(),
            self.names()[self.names().index_of(name)] == name,
    {
    }

    /// A map that differs from a well formed map `before` in the value of
    /// one entry is well formed and maps the entry's name to the new value.
    pub proof fn lemma_update(&self, before: Self, i: int)
        requires
            before.wf(),
            0 <= i < before.names().len(),
            self.names() == before.names(),
            self.values() == before.values().update(i, self.values()[i]),
        ensures
            self.wf(),
            self@ == before@.insert(before.names()[i], self.values()[i]),
    {
        assert(self.values().len() == before.values().len());
        assert forall|k: Seq<char>| #[trigger] self.contains(k) implies self.value(k) == before@.insert(
            before.names()[i],
            self.values()[i],
        )[k] by {
            before.lemma_index(k);
            before.lemma_entry(i);
        }
        before.lemma_entry(i);
        assert(self@ =~= before@.insert(before.names()[i], self.values()[i]));
    }

    /// A map without entries.
    pub fn new() -> (m: Self)
        ensures
            m.wf(),
            m.names() == Seq::<Seq<char>>::empty(),
            m.values() == Seq::<V>::empty(),
            m@ == Map::<Seq<char>, V>::empty(),
    {
        let m = Self { keys: Vec::new(), values: Vec::new() };
        assert(m.names() =~= Seq::<Seq<char>>::empty());
        assert(m@ =~= Map::<Seq<char>, V>::empty());
        m
    }

    /// The number of entries.
    pub fn len(&self) -> (n: usize)
        requires
            self.wf(),
        ensures
            n == self.names().len(),
    {
        self.keys.len()
    }

    /// The name of the entry with index `i`.
    pub fn name_at(&self, i: usize) -> (name: &String)
        requires
            self.wf(),
            i < self.names().len(),
        ensures
            name@ == self.names()[i as int],
    {
        &self.keys[i]
    }

    /// The value of the entry with index `i`.
    pub fn value_at(&self, i: usize) -> (v: &V)
        requires
            self.wf(),
            i < self.names().len(),
        ensures
            *v == self.values()[i as int],
    {
        &self.values[i]
    }

    /// The value of the entry with index `i`, to be changed in place.
    pub fn value_mut(&mut self, i: usize) -> (v: &mut V)
        requires
            old(self).wf(),
            i < old(self).names().len(),
        ensures
            *v == old(self).values()[i as int],
            final(self).wf(),
            final(self).names() == old(self).names(),
            final(self).values() == old(self).values().update(i as int, *final(v)),
    {
        &mut self.values[i]
    }

    /// The index of the entry with the name `name`, if there is one.
    pub fn find(&self, name: &str) -> (r: Option<usize>)
        requires
            self.wf(),
        ensures
            match r {
                Some(i) => i < self.names().len() && self.names()[i as int] == name@,
                None => !self.contains(name@),
            },
    {
        let key = name.to_owned();
        let mut i: usize = 0;
        while i < self.keys.len()
            invariant
                i <= self.keys.len(),
                key@ == name@,
                forall|j: int| 0 <= j < i ==> self.keys[j]@ != name@,
            decreases self.keys.len() - i,
        {
            if self.keys[i] == key {
                return Some(i);
            }
            i += 1;
        }
        None
    }

    /// Whether the map holds `name`.
    pub fn contains_key(&self, name: &str) -> (b: bool)
        requires
            self.wf(),
        ensures
            b == self@.contains_key(name@),
    {
        self.find(name).is_some()
    }

    /// The value of `name`, if the map holds it.
    pub fn get(&self, name: &str) -> (r: Option<&V>)
        requires
            self.wf(),
        ensures
            match r {
                Some(v) => self@.contains_key(name@) && *v == self@[name@],
                None => !self@.contains_key(name@),
            },
    {
        match self.find(name) {
            Some(i) => {
                proof {
                    self.lemma_entry(i as int);
                }
                Some(&self.values[i])
            },
            None => None,
        }
    }

    /// Puts `v` under `name`, and gives back the value that `name` had. A
    /// new name goes behind the other names; a name that the map holds
    /// keeps its place.
    pub fn insert(&mut self, name: &str, v: V) -> (r: Option<V>)
        requires
            old(self).wf(),
        ensures
            final(self).wf(),
            final(self)@ == old(self)@.insert(name@, v),
            match r {
                Some(before) => {
                    &&& old(self)@.contains_key(name@)
                    &&& before == old(self)@[name@]
                    &&& final(self).names() == old(self).names()
                    &&& final(self).values() == old(self).values().update(
                        old(self).names().index_of(name@),
                        v,
                    )
                },
                None => {
                    &&& !old(self)@.contains_key(name@)
                    &&& final(self).names() == old(self).names().push(name@)
                    &&& final(self).values() == old(self).values().push(v)
                },
            },
    {
        match self.find(name) {
            Some(i) => {
                proof {
                    self.lemma_entry(i as int);
                }
                let ghost given = v;
                let mut v = v;
                core::mem::swap(&mut self.values[i], &mut v);
                proof {
                    assert(self.names() =~= old(self).names());
                    assert forall|k: Seq<char>| #[trigger] self.contains(k) implies self.value(k) == old(
                        self,
                    )@.insert(name@, given)[k] by {
                        old(self).lemma_index(k);
                    }
                    assert(self@ =~= old(self)@.insert(name@, given));
                }
                Some(v)
            },
            None => {
                self.keys.push(name.to_owned());
                self.values.push(v);
                proof {
                    assert(self.names() =~= old(self).names().push(name@));
                    assert forall|k: Seq<char>| #[trigger] self.contains(k) implies self.value(k) == old(
                        self,
                    )@.insert(name@, v)[k] by {
                        let j = self.names().index_of(k);
                        if k != name@ {
                            assert(old(self).names()[j] == k);
                            old(self).lemma_entry(j);
                        }
                    }
                    assert forall|k: Seq<char>| old(self)@.insert(name@, v).contains_key(k) implies self.contains(
                        k,
                    ) by {
                        if k != name@ {
                            old(self).lemma_index(k);
                            assert(self.names()[old(self).names().index_of(k)] == k);
                        } else {
                            assert(self.names()[self.names().len() - 1] == k);
                        }
                    }
                    assert(self@ =~= old(self)@.insert(name@, v));
                }
                None
            },
        }
    }

    /// Takes the entry of `name` out of the map, and gives its value. The
    /// other entries keep their order.
    pub fn remove(&mut self, name: &str) -> (r: Option<V>)
        requires
            old(self).wf(),
        ensures
            final(self).wf(),
            final(self)@ == old(self)@.remove(name@),
            match r {
                Some(v) => {
                    &&& old(self)@.contains_key(name@)
                    &&& v == old(self)@[name@]
                    &&& final(self).names() == old(self).names().remove(old(self).names().index_of(name@))
                    &&& final(self).values() == old(self).values().remove(old(self).names().index_of(name@))
                },
                None => !old(self)@.contains_key(name@) && *final(self) == *old(self),
            },
    {
        match self.find(name) {
            Some(i) => {
                proof {
                    self.lemma_entry(i as int);
                }
                self.keys.remove(i);
                let v = self.values.remove(i);
                proof {
                    assert(self.names() =~= old(self).names().remove(i as int));
                    assert forall|k: Seq<char>| #[trigger] self.contains(k) implies old(self).contains(k) && k
                        != name@ && self.value(k) == old(self).value(k) by {
                        let j = self.names().index_of(k);
                        let jj = if j < i {
                            j
                        } else {
                            j + 1
                        };
                        assert(old(self).names()[jj] == k);
                        old(self).lemma_entry(jj);
                    }
                    assert forall|k: Seq<char>| old(self).contains(k) && k != name@ implies self.contains(k) by {
                        old(self).lemma_index(k);
                        let j = old(self).names().index_of(k);
                        let jj = if j < i {
                            j
                        } else {
                            j - 1
                        };
                        assert(self.names()[jj] == k);
                    }
                    assert(self@ =~= old(self)@.remove(name@));
                }
                Some(v)
            },
            None => None,
        }
    }
}

} // verus!
