//! A table from agent names to values: at most one entry per name.

use vstd::prelude::*;

verus! {

/// Entries in no particular order; no name occurs twice.
pub struct NameTable<V> {
    entries: Vec<(String, V)>,
}

impl<V> NameTable<V> {
    /// No two entries have the same name.
    pub closed spec fn wf(&self) -> bool {
        forall|i: int, j: int|
            0 <= i < self.entries@.len() && 0 <= j < self.entries@.len()
                && #[trigger] self.entries@[i].0@ == #[trigger] self.entries@[j].0@ ==> i == j
    }

    spec fn holds(&self, name: Seq<char>, i: int) -> bool {
        0 <= i < self.entries@.len() && self.entries@[i].0@ == name
    }
}

impl<V> View for NameTable<V> {
    type V = Map<Seq<char>, V>;

    closed spec fn view(&self) -> Map<Seq<char>, V> {
        Map::new(
            |name: Seq<char>| exists|i: int| self.holds(name, i),
            |name: Seq<char>| self.entries@[choose|i: int| self.holds(name, i)].1,
        )
    }
}

impl<V> NameTable<V> {
    proof fn lemma_at(&self, i: int)
        requires
            self.wf(),
            0 <= i < self.entries@.len(),
        ensures
            self@.contains_key(self.entries@[i].0@),
            self@[self.entries@[i].0@] == self.entries@[i].1,
    {
        let name = self.entries@[i].0@;
        assert(self.holds(name, i));
        let j = choose|j: int| self.holds(name, j);
        assert(self.holds(name, j));
        assert(self.entries@[i].0@ == self.entries@[j].0@);
    }

    proof fn lemma_absent(&self, name: Seq<char>)
        requires
            forall|i: int| 0 <= i < self.entries@.len() ==> #[trigger] self.entries@[i].0@ != name,
        ensures
            !self@.contains_key(name),
    {
        assert(forall|i: int| !self.holds(name, i));
    }

    /// An empty table.
    pub fn new() -> (table: Self)
        ensures
            table.wf(),
            table@ == Map::<Seq<char>, V>::empty(),
    {
        let table = NameTable { entries: Vec::new() };
        assert(table@ =~= Map::<Seq<char>, V>::empty());
        table
    }

    fn find(&self, name: &str) -> (found: Option<usize>)
        requires
            self.wf(),
        ensures
            match found {
                Some(i) => i < self.entries@.len() && self.entries@[i as int].0@ == name@,
                None => forall|i: int|
                    0 <= i < self.entries@.len() ==> #[trigger] self.entries@[i].0@ != name@,
            },
    {
        let wanted = name.to_string();
        let mut i: usize = 0;
        while i < self.entries.len()
            invariant
                i <= self.entries@.len(),
                wanted@ == name@,
                forall|j: int| 0 <= j < i ==> #[trigger] self.entries@[j].0@ != name@,
            decreases self.entries@.len() - i,
        {
            if self.entries[i].0 == wanted {
                return Some(i);
            }
            i = i + 1;
        }
        None
    }

    /// The value under `name`, if there is one.
    pub fn get(&self, name: &str) -> (value: Option<&V>)
        requires
            self.wf(),
        ensures
            match value {
                Some(v) => self@.contains_key(name@) && *v == self@[name@],
                None => !self@.contains_key(name@),
            },
    {
        match self.find(name) {
            Some(i) => {
                proof {
                    self.lemma_at(i as int);
                }
                Some(&self.entries[i].1)
            },
            None => {
                proof {
                    self.lemma_absent(name@);
                }
                None
            },
        }
    }

    /// Removes the entry under `name` and returns its value.
    pub fn take(&mut self, name: &str) -> (value: Option<V>)
        requires
            old(self).wf(),
        ensures
            final(self).wf(),
            final(self)@ == old(self)@.remove(name@),
            match value {
                Some(v) => old(self)@.contains_key(name@) && v == old(self)@[name@],
                None => !old(self)@.contains_key(name@),
            },
    {
        match self.find(name) {
            Some(i) => {
                let ghost before = *self;
                proof {
                    self.lemma_at(i as int);
                }
                let entry = self.entries.remove(i);
                proof {
                    let after = *self;
                    assert forall|a: int, b: int|
                        0 <= a < after.entries@.len() && 0 <= b < after.entries@.len()
                            && #[trigger] after.entries@[a].0@ == #[trigger] after.entries@[b].0@
                        implies a == b by {
                        let a0 = if a < i { a } else { a + 1 };
                        let b0 = if b < i { b } else { b + 1 };
                        assert(before.entries@[a0].0@ == before.entries@[b0].0@);
                    }
                    assert(after.wf());
                    assert forall|key: Seq<char>|
                        {
                            &&& #[trigger] after@.dom().contains(key) <==> before@.dom().contains(key) && key
                                != name@
                            &&& after@.dom().contains(key) ==> after@[key] == before@[key]
                        } by {
                        if after@.contains_key(key) {
                            let j = choose|j: int| after.holds(key, j);
                            assert(after.holds(key, j));
                            after.lemma_at(j);
                            let j0 = if j < i { j } else { j + 1 };
                            before.lemma_at(j0);
                            assert(before.entries@[j0].0@ == key);
                            if key == name@ {
                                assert(before.entries@[j0].0@ == before.entries@[i as int].0@);
                            }
                        }
                        if before@.contains_key(key) && key != name@ {
                            let j0 = choose|j: int| before.holds(key, j);
                            assert(before.holds(key, j0));
                            let j = if j0 < i { j0 } else { j0 - 1 };
                            assert(after.entries@[j] == before.entries@[j0]);
                            after.lemma_at(j);
                        }
                    }
                    assert(after@ =~= before@.remove(name@));
                }
                Some(entry.1)
            },
            None => {
                proof {
                    self.lemma_absent(name@);
                    assert(self@.remove(name@) =~= self@);
                }
                None
            },
        }
    }

    /// Puts `value` under `name`, in place of what was there.
    pub fn insert(&mut self, name: String, value: V)
        requires
            old(self).wf(),
        ensures
            final(self).wf(),
            final(self)@ == old(self)@.insert(name@, value),
    {
        let ghost start = self@;
        let _ = self.take(name.as_str());
        let ghost before = *self;
        let ghost key_added = name@;
        self.entries.push((name, value));
        proof {
            let after = *self;
            let last = before.entries@.len() as int;
            assert forall|i: int| 0 <= i < last implies #[trigger] before.entries@[i].0@
                != key_added by {
                before.lemma_at(i);
            }
            assert forall|a: int, b: int|
                0 <= a < after.entries@.len() && 0 <= b < after.entries@.len()
                    && #[trigger] after.entries@[a].0@ == #[trigger] after.entries@[b].0@
                implies a == b by {
                if a < last {
                    assert(after.entries@[a] == before.entries@[a]);
                }
                if b < last {
                    assert(after.entries@[b] == before.entries@[b]);
                }
            }
            assert(after.wf());
            after.lemma_at(last);
            assert forall|key: Seq<char>|
                {
                    &&& #[trigger] after@.dom().contains(key) <==> before@.dom().contains(key) || key
                        == key_added
                    &&& after@.dom().contains(key) && key != key_added ==> after@[key]
                        == before@[key]
                } by {
                if after@.contains_key(key) {
                    let j = choose|j: int| after.holds(key, j);
                    assert(after.holds(key, j));
                    after.lemma_at(j);
                    if j < last {
                        before.lemma_at(j);
                    }
                }
                if before@.contains_key(key) {
                    let j = choose|j: int| before.holds(key, j);
                    assert(before.holds(key, j));
                    assert(after.entries@[j] == before.entries@[j]);
                    after.lemma_at(j);
                }
            }
            assert(after@ =~= start.insert(key_added, value));
        }
    }

    /// The names that have an entry, each once, in no particular order.
    pub fn names(&self) -> (names: Vec<String>)
        requires
            self.wf(),
        ensures
            forall|name: Seq<char>| #[trigger]
                self@.contains_key(name) <==> exists|i: int|
                    0 <= i < names@.len() && (#[trigger] names@[i])@ == name,
            forall|i: int, j: int|
                0 <= i < j < names@.len() ==> (#[trigger] names@[i])@ != (#[trigger] names@[j])@,
    {
        let mut names: Vec<String> = Vec::new();
        let mut i: usize = 0;
        while i < self.entries.len()
            invariant
                i <= self.entries@.len(),
                names@.len() == i,
                forall|j: int| 0 <= j < i ==> (#[trigger] names@[j])@ == self.entries@[j].0@,
            decreases self.entries@.len() - i,
        {
            names.push(self.entries[i].0.clone());
            i = i + 1;
        }
        proof {
            assert forall|name: Seq<char>| #[trigger] self@.contains_key(name) implies exists|k: int|
                0 <= k < names@.len() && (#[trigger] names@[k])@ == name by {
                let k = choose|k: int| self.holds(name, k);
                assert(names@[k]@ == name);
            }
            assert forall|name: Seq<char>|
                (exists|k: int| 0 <= k < names@.len() && (#[trigger] names@[k])@ == name) implies
                #[trigger] self@.contains_key(name) by {
                let k = choose|k: int| 0 <= k < names@.len() && (#[trigger] names@[k])@ == name;
                assert(self.holds(name, k));
            }
        }
        names
    }
}

} // verus!
