//! The table of keys that a mutation is in progress on.

use vstd::prelude::*;
use vstd::string::*;

verus! {

/// The set of busy keys. A key is in the table from the moment a mutation
/// acquires it until that mutation releases it.
pub struct LockTable {
    keys: Vec<String>,
}

impl View for LockTable {
    type V = Set<Seq<char>>;

    closed spec fn view(&self) -> Set<Seq<char>> {
        self.keys.deep_view().to_set()
    }
}

impl LockTable {
    /// Whether the table holds each busy key once.
    pub closed spec fn wf(&self) -> bool {
        self.keys.deep_view().no_duplicates()
    }

    /// A table with no busy key.
    pub fn new() -> (table: Self)
        ensures
            table.wf(),
            table@ == Set::<Seq<char>>::empty(),
    {
        let table = LockTable { keys: Vec::new() };
        assert(table.keys.deep_view() =~= Seq::empty());
        assert(table@ =~= Set::<Seq<char>>::empty());
        table
    }

    /// Where `key` stands in the table, if it is busy.
    fn position(&self, key: &String) -> (found: Option<usize>)
        ensures
            match found {
                Some(i) => i < self.keys@.len() && self.keys.deep_view()[i as int] == key@,
                None => !self@.contains(key@),
            },
    {
        let mut i: usize = 0;
        while i < self.keys.len()
            invariant
                i <= self.keys@.len(),
                forall|j: int| 0 <= j < i ==> #[trigger] self.keys.deep_view()[j] != key@,
            decreases self.keys@.len() - i,
        {
            if self.keys[i] == *key {
                return Some(i);
            }
            i += 1;
        }
        None
    }

    /// Whether `key` is busy.
    pub fn contains(&self, key: &str) -> (busy: bool)
        ensures
            busy == self@.contains(key@),
    {
        let owned = String::from_str(key);
        match self.position(&owned) {
            Some(i) => {
                assert(self.keys.deep_view().contains(key@));
                true
            },
            None => false,
        }
    }

    /// Marks `key` as busy, unless it is busy already; says whether the
    /// caller now holds the key.
    pub fn try_acquire(&mut self, key: &str) -> (acquired: bool)
        requires
            old(self).wf(),
        ensures
            final(self).wf(),
            acquired == !old(self)@.contains(key@),
            final(self)@ == old(self)@.insert(key@),
    {
        let owned = String::from_str(key);
        match self.position(&owned) {
            Some(i) => {
                assert(self.keys.deep_view().contains(key@));
                assert(self@ =~= self@.insert(key@));
                false
            },
            None => {
                let ghost before = self.keys.deep_view();
                self.keys.push(owned);
                proof {
                    let after = self.keys.deep_view();
                    assert(after =~= before.push(key@));
                    assert forall|k: Seq<char>| after.contains(k) <==> before.to_set().insert(
                        key@,
                    ).contains(k) by {
                        if after.contains(k) {
                            let i = choose|i: int| 0 <= i < after.len() && after[i] == k;
                            if i < before.len() {
                                assert(before[i] == k);
                            }
                        }
                        if before.contains(k) {
                            let i = choose|i: int| 0 <= i < before.len() && before[i] == k;
                            assert(after[i] == k);
                        }
                        if k == key@ {
                            assert(after[before.len() as int] == k);
                        }
                    }
                    assert(after.to_set() =~= before.to_set().insert(key@));
                    assert forall|i: int, j: int|
                        0 <= i < after.len() && 0 <= j < after.len() && i != j implies after[i]
                        != after[j] by {
                        if i < before.len() {
                            assert(before.contains(before[i]));
                        }
                        if j < before.len() {
                            assert(before.contains(before[j]));
                        }
                    }
                }
                true
            },
        }
    }

    /// Marks `key` as no longer busy.
    pub fn release(&mut self, key: &str)
        requires
            old(self).wf(),
        ensures
            final(self).wf(),
            final(self)@ == old(self)@.remove(key@),
    {
        let owned = String::from_str(key);
        match self.position(&owned) {
            Some(i) => {
                let ghost before = self.keys.deep_view();
                self.keys.remove(i);
                proof {
                    let after = self.keys.deep_view();
                    assert(after =~= before.remove(i as int));
                    assert forall|k: Seq<char>| after.contains(k) <==> before.to_set().remove(
                        key@,
                    ).contains(k) by {
                        if after.contains(k) {
                            let j = choose|j: int| 0 <= j < after.len() && after[j] == k;
                            if j < i {
                                assert(before[j] == k);
                            } else {
                                assert(before[j + 1] == k);
                            }
                        }
                        if before.contains(k) && k != key@ {
                            let j = choose|j: int| 0 <= j < before.len() && before[j] == k;
                            if j < i {
                                assert(after[j] == k);
                            } else {
                                assert(after[j - 1] == k);
                            }
                        }
                    }
                    assert(after.to_set() =~= before.to_set().remove(key@));
                }
            },
            None => {
                assert(self@ =~= self@.remove(key@));
            },
        }
    }
}

} // verus!
