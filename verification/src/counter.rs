//! The store that counts how often each command has run.
//!
//! The store is an owned value. Whoever holds it mutably has exclusive access,
//! so no increment is lost or applied twice; a host that shares it between
//! tasks keeps it behind a lock.

use vstd::prelude::*;
use vstd::string::*;
use crate::text::same_text;

verus! {

/// The count that `counts` records for `name`: zero until it is first seen.
pub open spec fn count_in(counts: Map<Seq<char>, nat>, name: Seq<char>) -> nat {
    if counts.contains_key(name) {
        counts[name]
    } else {
        0
    }
}

/// Command names with the number of times each has run.
#[derive(Debug)]
pub struct CounterStore {
    names: Vec<String>,
    counts: Vec<u64>,
}

impl CounterStore {
    /// Each name is held once, with one count.
    pub closed spec fn wf(&self) -> bool {
        &&& self.names.len() == self.counts.len()
        &&& forall|i: int, j: int|
            0 <= i < j < self.names.len() ==> self.names[i]@ != self.names[j]@
    }

    spec fn holds(&self, name: Seq<char>) -> bool {
        exists|i: int| 0 <= i < self.names.len() && #[trigger] self.names[i]@ == name
    }

    spec fn slot(&self, name: Seq<char>) -> int {
        choose|i: int| 0 <= i < self.names.len() && #[trigger] self.names[i]@ == name
    }

    /// The store as a map from each name seen so far to its count.
    pub closed spec fn view(&self) -> Map<Seq<char>, nat> {
        Map::new(|name: Seq<char>| self.holds(name), |name: Seq<char>| self.counts[self.slot(name)] as nat)
    }

    /// The count recorded for `name`, zero if it was never seen.
    pub open spec fn count_of(&self, name: Seq<char>) -> nat {
        count_in(self@, name)
    }

    proof fn lemma_slot(&self, i: int)
        requires
            self.wf(),
            0 <= i < self.names.len(),
        ensures
            self.holds(self.names[i]@),
            self.slot(self.names[i]@) == i,
            self@.contains_key(self.names[i]@),
            self@[self.names[i]@] == self.counts[i] as nat,
    {
        assert(self.names[i]@ == self.names[i]@);
    }

    /// A store that has seen no command.
    pub fn new() -> (store: CounterStore)
        ensures
            store.wf(),
            store@ == Map::<Seq<char>, nat>::empty(),
    {
        let store = CounterStore { names: Vec::new(), counts: Vec::new() };
        assert(store@ =~= Map::<Seq<char>, nat>::empty());
        store
    }

    fn find(&self, name: &str) -> (at: Option<usize>)
        requires
            self.wf(),
        ensures
            at is Some <==> self@.contains_key(name@),
            at is Some ==> at->0 < self.names.len() && self.names[at->0 as int]@ == name@
                && self@[name@] == self.counts[at->0 as int] as nat,
            at is None ==> forall|i: int| 0 <= i < self.names.len() ==> self.names[i]@ != name@,
    {
        let mut i: usize = 0;
        while i < self.names.len()
            invariant
                self.wf(),
                i <= self.names.len(),
                forall|k: int| 0 <= k < i ==> self.names[k]@ != name@,
            decreases self.names.len() - i,
        {
            if same_text(self.names[i].as_str(), name) {
                proof {
                    self.lemma_slot(i as int);
                }
                return Some(i);
            }
            i += 1;
        }
        None
    }

    /// The number of times `name` has been counted.
    pub fn count(&self, name: &str) -> (n: u64)
        requires
            self.wf(),
        ensures
            n == self.count_of(name@),
    {
        match self.find(name) {
            Some(i) => self.counts[i],
            None => 0,
        }
    }

    /// The number of distinct names seen.
    pub fn len(&self) -> (n: usize)
        requires
            self.wf(),
        ensures
            n == self.entries().len(),
    {
        self.names.len()
    }

    /// The names and counts in the order in which the names were first seen.
    pub closed spec fn entries(&self) -> Seq<(Seq<char>, u64)> {
        Seq::new(self.names.len() as nat, |i: int| (self.names[i]@, self.counts[i]))
    }

    /// The entries list each name of the map once, with its count.
    pub proof fn lemma_entries(&self)
        requires
            self.wf(),
        ensures
            forall|i: int|
                0 <= i < self.entries().len() ==> self@.contains_key(
                    (#[trigger] self.entries()[i]).0,
                ) && self@[self.entries()[i].0] == self.entries()[i].1 as nat,
            forall|i: int, j: int|
                0 <= i < j < self.entries().len() ==> self.entries()[i].0 != self.entries()[j].0,
            forall|name: Seq<char>|
                self@.contains_key(name) ==> exists|i: int|
                    0 <= i < self.entries().len() && (#[trigger] self.entries()[i]).0 == name,
    {
        assert forall|i: int| 0 <= i < self.entries().len() implies self@.contains_key(
            (#[trigger] self.entries()[i]).0,
        ) && self@[self.entries()[i].0] == self.entries()[i].1 as nat by {
            self.lemma_slot(i);
        }
        assert forall|name: Seq<char>| self@.contains_key(name) implies exists|i: int|
            0 <= i < self.entries().len() && (#[trigger] self.entries()[i]).0 == name by {
            let i = self.slot(name);
            assert(self.entries()[i].0 == name);
        }
    }

    /// Counts one more run of `name`. A name not seen before enters at zero
    /// and is then counted; every other count stays as it was.
    pub fn increment(&mut self, name: &str)
        requires
            old(self).wf(),
            old(self).count_of(name@) < u64::MAX,
        ensures
            final(self).wf(),
            final(self)@ == old(self)@.insert(name@, old(self).count_of(name@) + 1),
            final(self).count_of(name@) == old(self).count_of(name@) + 1,
    {
        let ghost before = *self;
        match self.find(name) {
            Some(i) => {
                let n: u64 = self.counts[i];
                self.counts.set(i, n + 1);
                proof {
                    assert(self.wf());
                    assert forall|k: Seq<char>| self.holds(k) == before.holds(k) by {}
                    assert forall|k: Seq<char>| self.slot(k) == before.slot(k) by {}
                    before.lemma_slot(i as int);
                    assert(self@ =~= before@.insert(name@, (n + 1) as nat)) by {
                        assert forall|k: Seq<char>| #[trigger] self@.contains_key(k) implies self@[k]
                            == before@.insert(name@, (n + 1) as nat)[k] by {
                            let j = before.slot(k);
                            before.lemma_slot(j);
                        }
                    }
                }
            },
            None => {
                self.names.push(String::from_str(name));
                self.counts.push(1);
                proof {
                    let last = before.names.len() as int;
                    assert(self.names[last]@ == name@);
                    assert(self.wf());
                    self.lemma_slot(last);
                    assert forall|k: Seq<char>| self.holds(k) == (before.holds(k) || k == name@) by {
                        if before.holds(k) {
                            let j = before.slot(k);
                            assert(self.names[j]@ == k);
                        }
                        if self.holds(k) && k != name@ {
                            let j = self.slot(k);
                            assert(before.names[j]@ == k);
                        }
                    }
                    assert(self@ =~= before@.insert(name@, 1nat)) by {
                        assert forall|k: Seq<char>| #[trigger]
                            self@.contains_key(k) && k != name@ implies self@[k] == before@[k] by {
                            let j = self.slot(k);
                            assert(before.names[j]@ == k);
                            let j0 = before.slot(k);
                            before.lemma_slot(j0);
                            assert(self.names[j0]@ == k);
                        }
                    }
                }
            },
        }
    }

    /// A copy of the names and their counts, in the order of [`Self::entries`].
    pub fn snapshot(&self) -> (copy: Vec<(String, u64)>)
        requires
            self.wf(),
        ensures
            copy.len() == self.entries().len(),
            forall|i: int|
                0 <= i < copy.len() ==> (#[trigger] copy[i]).0@ == self.entries()[i].0 && copy[i].1
                    == self.entries()[i].1,
    {
        let mut copy: Vec<(String, u64)> = Vec::new();
        let mut i: usize = 0;
        while i < self.names.len()
            invariant
                self.wf(),
                i <= self.names.len(),
                copy.len() == i,
                forall|k: int|
                    0 <= k < i ==> (#[trigger] copy[k]).0@ == self.entries()[k].0 && copy[k].1
                        == self.entries()[k].1,
            decreases self.names.len() - i,
        {
            copy.push((self.names[i].clone(), self.counts[i]));
            i += 1;
        }
        copy
    }
}

} // verus!
