//! One location's records, keyed by normalized record name.

use vstd::prelude::*;
use crate::assoc::{akeys_unique, amap, lemma_amap_at, lemma_amap_dom, lemma_amap_push,
    lemma_amap_remove, lemma_amap_update};
use crate::record::{Record, RecordV};

verus! {

/// The records of one location. Names are unique within a namespace.
pub struct Namespace {
    pub entries: Vec<(String, Record)>,
}

impl View for Namespace {
    type V = Seq<(Seq<char>, RecordV)>;

    open spec fn view(&self) -> Seq<(Seq<char>, RecordV)> {
        Seq::new(self.entries@.len(), |i: int| (self.entries@[i].0@, self.entries@[i].1@))
    }
}

impl Namespace {
    /// Names are distinct: the invariant every operation preserves.
    pub open spec fn wf(&self) -> bool {
        akeys_unique(self@)
    }

    /// The mapping from name to record that this namespace denotes.
    pub open spec fn as_map(&self) -> Map<Seq<char>, RecordV> {
        amap(self@)
    }

    /// An empty namespace.
    pub fn new() -> (r: Namespace)
        ensures
            r@.len() == 0,
            r.wf(),
            r.as_map() == Map::<Seq<char>, RecordV>::empty(),
    {
        let r = Namespace { entries: Vec::new() };
        proof {
            assert(r@ =~= Seq::<(Seq<char>, RecordV)>::empty());
        }
        r
    }

    /// Index of the entry carrying `name`, if any.
    fn find(&self, name: &String) -> (r: Option<usize>)
        ensures
            match r {
                Some(i) => i < self.entries.len() && self@[i as int].0 == name@,
                None => forall|j: int| 0 <= j < self@.len() ==> (#[trigger] self@[j]).0 != name@,
            },
    {
        let mut i: usize = 0;
        while i < self.entries.len()
            invariant
                i <= self.entries.len(),
                forall|j: int| 0 <= j < i ==> (#[trigger] self@[j]).0 != name@,
            decreases self.entries.len() - i,
        {
            if self.entries[i].0 == *name {
                assert(self@[i as int].0 == name@);
                return Some(i);
            }
            assert(self@[i as int].0 != name@);
            i = i + 1;
        }
        None
    }

    /// Whether a record of this name is present.
    pub fn contains_rec(&self, name: &String) -> (r: bool)
        requires
            self.wf(),
        ensures
            r == self.as_map().contains_key(name@),
    {
        proof {
            lemma_amap_dom(self@);
        }
        match self.find(name) {
            Some(i) => {
                proof {
                    lemma_amap_at(self@, i as int);
                }
                true
            },
            None => {
                proof {
                    if self.as_map().contains_key(name@) {
                        let w = choose|w: int| 0 <= w < self@.len() && (#[trigger] self@[w]).0
                            == name@;
                    }
                }
                false
            },
        }
    }

    /// The record stored under `name`, if any.
    pub fn get_rec(&self, name: &String) -> (r: Option<&Record>)
        requires
            self.wf(),
        ensures
            match r {
                Some(rec) => self.as_map().contains_key(name@) && rec@ == self.as_map()[name@],
                None => !self.as_map().contains_key(name@),
            },
    {
        proof {
            lemma_amap_dom(self@);
        }
        match self.find(name) {
            Some(i) => {
                proof {
                    lemma_amap_at(self@, i as int);
                }
                Some(&self.entries[i].1)
            },
            None => {
                proof {
                    if self.as_map().contains_key(name@) {
                        let w = choose|w: int| 0 <= w < self@.len() && (#[trigger] self@[w]).0
                            == name@;
                    }
                }
                None
            },
        }
    }

    /// Stores `rec` under `name`, replacing any record of that name.
    pub fn insert_rec(&mut self, name: String, rec: Record)
        requires
            old(self).wf(),
        ensures
            final(self).wf(),
            final(self).as_map() == old(self).as_map().insert(name@, rec@),
    {
        let ghost oldv = self@;
        match self.find(&name) {
            Some(i) => {
                proof {
                    lemma_amap_update(oldv, i as int, rec@);
                }
                self.entries.set(i, (name, rec));
                proof {
                    assert(self@ =~= oldv.update(i as int, (oldv[i as int].0, rec@)));
                }
            },
            None => {
                proof {
                    lemma_amap_push(oldv, name@, rec@);
                }
                self.entries.push((name, rec));
                proof {
                    assert(self@ =~= oldv.push((name@, rec@)));
                }
            },
        }
    }

    /// Removes the record stored under `name`, if any. Removing an
    /// absent name leaves the namespace unchanged.
    pub fn remove_rec(&mut self, name: &String)
        requires
            old(self).wf(),
        ensures
            final(self).wf(),
            final(self).as_map() == old(self).as_map().remove(name@),
    {
        let ghost oldv = self@;
        match self.find(name) {
            Some(i) => {
                proof {
                    lemma_amap_remove(oldv, i as int);
                }
                self.entries.remove(i);
                proof {
                    assert(self@ =~= oldv.remove(i as int));
                }
            },
            None => {
                proof {
                    lemma_amap_dom(oldv);
                    if amap(oldv).contains_key(name@) {
                        let w = choose|w: int| 0 <= w < oldv.len() && (#[trigger] oldv[w]).0
                            == name@;
                    }
                    assert(amap(oldv).remove(name@) =~= amap(oldv));
                }
            },
        }
    }

    /// The names stored in this namespace, in entry order.
    pub fn names(&self) -> (r: Vec<String>)
        ensures
            r@.len() == self@.len(),
            forall|i: int| 0 <= i < r@.len() ==> (#[trigger] r@[i])@ == self@[i].0,
    {
        let mut r: Vec<String> = Vec::new();
        let mut i: usize = 0;
        while i < self.entries.len()
            invariant
                i <= self.entries.len(),
                r@.len() == i,
                forall|j: int| 0 <= j < i ==> (#[trigger] r@[j])@ == self@[j].0,
            decreases self.entries.len() - i,
        {
            r.push(self.entries[i].0.clone());
            i = i + 1;
        }
        r
    }

    /// Checks the name-uniqueness invariant (used when a namespace is
    /// rebuilt from a parsed file).
    pub fn check_wf(&self) -> (r: bool)
        ensures
            r == self.wf(),
    {
        let n = self.entries.len();
        let mut i: usize = 0;
        while i < n
            invariant
                i <= n,
                n == self.entries.len(),
                forall|a: int, b: int| 0 <= a < b < self@.len() && a < i ==> (#[trigger] self@[a]).0
                    != (#[trigger] self@[b]).0,
            decreases n - i,
        {
            let mut j: usize = i + 1;
            while j < n
                invariant
                    i < j <= n,
                    n == self.entries.len(),
                    forall|b: int| i < b < j ==> self@[i as int].0 != (#[trigger] self@[b]).0,
                decreases n - j,
            {
                if self.entries[i].0 == self.entries[j].0 {
                    assert(self@[i as int].0 == self@[j as int].0);
                    return false;
                }
                assert(self@[i as int].0 != self@[j as int].0);
                j = j + 1;
            }
            i = i + 1;
        }
        true
    }
}

impl Namespace {
    /// A copy with the same view.
    pub fn duplicate(&self) -> (r: Namespace)
        ensures
            r@ == self@,
    {
        let mut entries: Vec<(String, Record)> = Vec::new();
        let mut i: usize = 0;
        while i < self.entries.len()
            invariant
                i <= self.entries.len(),
                entries@.len() == i,
                forall|j: int| 0 <= j < i ==> (#[trigger] entries@[j]).0@ == self@[j].0
                    && entries@[j].1@ == self@[j].1,
            decreases self.entries.len() - i,
        {
            let e = &self.entries[i];
            entries.push((e.0.clone(), e.1.duplicate()));
            i = i + 1;
        }
        let r = Namespace { entries };
        proof {
            assert(r@ =~= self@);
        }
        r
    }
}

} // verus!
