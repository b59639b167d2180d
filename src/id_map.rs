//! A map keyed by 64-bit ids that can be walked in insertion order.

use vstd::prelude::*;

verus! {

/// A map from ids to values that keeps its entries in insertion order, so
/// that it can be walked by position.
pub struct IdMap<V> {
    entries: Vec<(u64, V)>,
}

impl<V> IdMap<V> {
    /// The entries, in the order in which their ids were first inserted.
    pub closed spec fn entries(&self) -> Seq<(u64, V)> {
        self.entries@
    }

    /// The map that the entries describe.
    pub open spec fn view(&self) -> Map<u64, V> {
        Map::new(
            |k: u64| exists|i: int| 0 <= i < self.entries().len() && (#[trigger] self.entries()[i]).0 == k,
            |k: u64|
                self.entries()[choose|i: int|
                    0 <= i < self.entries().len() && (#[trigger] self.entries()[i]).0 == k].1,
        )
    }

    /// No id occurs twice.
    pub open spec fn wf(&self) -> bool {
        forall|i: int, j: int|
            0 <= i < self.entries().len() && 0 <= j < self.entries().len() && i != j ==> (#[trigger] self.entries()[i]).0
                != (#[trigger] self.entries()[j]).0
    }

    /// The value of the entry at position `i` is the map's value for its id.
    pub proof fn lemma_entry(&self, i: int)
        requires
            self.wf(),
            0 <= i < self.entries().len(),
        ensures
            self.view().contains_key(self.entries()[i].0),
            self.view()[self.entries()[i].0] == self.entries()[i].1,
    {
        let k = self.entries()[i].0;
        assert(self.view().contains_key(k));
        let j = choose|j: int| 0 <= j < self.entries().len() && (#[trigger] self.entries()[j]).0 == k;
        assert(j == i);
    }

    /// An empty map.
    pub fn new() -> (r: IdMap<V>)
        ensures
            r.wf(),
            r.entries() == Seq::<(u64, V)>::empty(),
            r.view() == Map::<u64, V>::empty(),
    {
        let r = IdMap { entries: Vec::new() };
        assert(r.view() =~= Map::<u64, V>::empty());
        r
    }

    /// The number of entries.
    pub fn len(&self) -> (r: usize)
        ensures
            r == self.entries().len(),
    {
        self.entries.len()
    }

    /// The entry at a position.
    pub fn entry_at(&self, i: usize) -> (r: (u64, &V))
        requires
            i < self.entries().len(),
        ensures
            r.0 == self.entries()[i as int].0,
            *r.1 == self.entries()[i as int].1,
    {
        let e = &self.entries[i];
        (e.0, &e.1)
    }

    /// Position of an id among the entries.
    fn find(&self, k: u64) -> (r: Option<usize>)
        ensures
            match r {
                Some(i) => i < self.entries().len() && self.entries()[i as int].0 == k,
                None => forall|i: int| 0 <= i < self.entries().len() ==> (#[trigger] self.entries()[i]).0 != k,
            },
    {
        let mut i: usize = 0;
        while i < self.entries.len()
            invariant
                i <= self.entries().len(),
                forall|j: int| 0 <= j < i ==> (#[trigger] self.entries()[j]).0 != k,
            decreases self.entries().len() - i,
        {
            if self.entries[i].0 == k {
                return Some(i);
            }
            i += 1;
        }
        None
    }

    /// The value of an id, if present.
    pub fn get(&self, k: u64) -> (r: Option<&V>)
        requires
            self.wf(),
        ensures
            match r {
                Some(v) => self.view().contains_key(k) && *v == self.view()[k],
                None => !self.view().contains_key(k),
            },
    {
        match self.find(k) {
            Some(i) => {
                proof {
                    self.lemma_entry(i as int);
                }
                Some(&self.entries[i].1)
            },
            None => None,
        }
    }

    /// Whether an id is present.
    pub fn contains_key(&self, k: u64) -> (r: bool)
        ensures
            r == self.view().contains_key(k),
    {
        match self.find(k) {
            Some(i) => true,
            None => false,
        }
    }

    /// Sets the value of an id, replacing any earlier value.
    pub fn insert(&mut self, k: u64, v: V)
        requires
            old(self).wf(),
        ensures
            final(self).wf(),
            final(self).view() == old(self).view().insert(k, v),
            old(self).view().contains_key(k) ==> final(self).entries().len() == old(self).entries().len(),
            !old(self).view().contains_key(k) ==> final(self).entries() == old(self).entries().push((k, v)),
    {
        match self.find(k) {
            Some(i) => {
                self.entries.set(i, (k, v));
                assert forall|key: u64| #[trigger] self.view().contains_key(key) == old(self).view().insert(k, v).contains_key(key)
                    by {
                    if old(self).view().contains_key(key) {
                        let j = choose|j: int| 0 <= j < old(self).entries().len() && (#[trigger] old(self).entries()[j]).0 == key;
                        assert(self.entries()[j].0 == key);
                    }
                }
                assert forall|key: u64| #[trigger] self.view().contains_key(key) implies self.view()[key]
                    == old(self).view().insert(k, v)[key] by {
                    let j = choose|j: int| 0 <= j < self.entries().len() && (#[trigger] self.entries()[j]).0 == key;
                    self.lemma_entry(j);
                    if j != i {
                        old(self).lemma_entry(j);
                    }
                }
                assert(self.view() =~= old(self).view().insert(k, v));
            },
            None => {
                self.entries.push((k, v));
                let ghost n = old(self).entries().len() as int;
                assert forall|key: u64| #[trigger] self.view().contains_key(key) == old(self).view().insert(k, v).contains_key(key)
                    by {
                    if old(self).view().contains_key(key) {
                        let j = choose|j: int| 0 <= j < old(self).entries().len() && (#[trigger] old(self).entries()[j]).0 == key;
                        assert(self.entries()[j].0 == key);
                    }
                    if key == k {
                        assert(self.entries()[n].0 == key);
                    }
                }
                assert forall|key: u64| #[trigger] self.view().contains_key(key) implies self.view()[key]
                    == old(self).view().insert(k, v)[key] by {
                    let j = choose|j: int| 0 <= j < self.entries().len() && (#[trigger] self.entries()[j]).0 == key;
                    self.lemma_entry(j);
                    if j != n {
                        old(self).lemma_entry(j);
                    }
                }
                assert(self.view() =~= old(self).view().insert(k, v));
            },
        }
    }
}

} // verus!
