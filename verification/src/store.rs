//! The data of one session: text values under text keys.

use vstd::prelude::*;

verus! {

/// The values of one session, each under its own key.
pub struct SessionData {
    entries: Vec<(String, String)>,
}

impl View for SessionData {
    type V = Map<Seq<char>, Seq<char>>;

    /// The values by key.
    closed spec fn view(&self) -> Map<Seq<char>, Seq<char>> {
        Self::values(self.entries@)
    }
}

impl SessionData {
    /// No key occurs twice.
    #[verifier::type_invariant]
    spec fn well_formed(&self) -> bool {
        Self::distinct(self.entries@)
    }

    spec fn distinct(entries: Seq<(String, String)>) -> bool {
        forall|i: int, j: int|
            0 <= i < j < entries.len() ==> (#[trigger] entries[i]).0@ != (#[trigger] entries[j]).0@
    }

    spec fn holds(entries: Seq<(String, String)>, key: Seq<char>, i: int) -> bool {
        0 <= i < entries.len() && entries[i].0@ == key
    }

    spec fn values(entries: Seq<(String, String)>) -> Map<Seq<char>, Seq<char>> {
        Map::new(
            |key: Seq<char>| exists|i: int| Self::holds(entries, key, i),
            |key: Seq<char>| entries[choose|i: int| Self::holds(entries, key, i)].1@,
        )
    }

    /// Where keys are distinct, the value under the key of an entry is the
    /// value of that entry.
    proof fn lemma_values_at(entries: Seq<(String, String)>, i: int)
        requires
            Self::distinct(entries),
            0 <= i < entries.len(),
        ensures
            Self::values(entries).contains_key(entries[i].0@),
            Self::values(entries)[entries[i].0@] == entries[i].1@,
    {
        let key = entries[i].0@;
        assert(Self::holds(entries, key, i));
        let chosen = choose|j: int| Self::holds(entries, key, j);
        assert(Self::holds(entries, key, chosen));
        if chosen < i {
            assert(entries[chosen].0@ != entries[i].0@);
        } else if i < chosen {
            assert(entries[i].0@ != entries[chosen].0@);
        }
    }

    /// Session data without any value.
    pub fn new() -> (data: Self)
        ensures
            data@ == Map::<Seq<char>, Seq<char>>::empty(),
    {
        let data = SessionData { entries: Vec::new() };
        assert(data@ =~= Map::<Seq<char>, Seq<char>>::empty());
        data
    }

    /// Moves the entries out, to be changed and put back.
    fn take_entries(&mut self) -> (entries: Vec<(String, String)>)
        ensures
            entries == old(self).entries,
            final(self).entries@.len() == 0,
    {
        let mut entries: Vec<(String, String)> = Vec::new();
        core::mem::swap(&mut self.entries, &mut entries);
        entries
    }

    /// The position of the entry with this key.
    fn position(&self, key: &String) -> (at: Option<usize>)
        ensures
            match at {
                Some(i) => Self::holds(self.entries@, key@, i as int),
                None => forall|j: int| !Self::holds(self.entries@, key@, j),
            },
    {
        let mut i: usize = 0;
        while i < self.entries.len()
            invariant
                i <= self.entries.len(),
                forall|j: int| 0 <= j < i ==> !Self::holds(self.entries@, key@, j),
            decreases self.entries.len() - i,
        {
            if self.entries[i].0 == *key {
                return Some(i);
            }
            i += 1;
        }
        None
    }

    /// The value under `key`, if there is one.
    pub fn get(&self, key: &str) -> (value: Option<&String>)
        ensures
            match value {
                Some(text) => self@.contains_key(key@) && self@[key@] == text@,
                None => !self@.contains_key(key@),
            },
    {
        let wanted = key.to_owned();
        match self.position(&wanted) {
            Some(i) => {
                proof {
                    use_type_invariant(self);
                    Self::lemma_values_at(self.entries@, i as int);
                }
                Some(&self.entries[i].1)
            },
            None => None,
        }
    }

    /// Puts `value` under `key` and hands back what was there before.
    /// Nothing else changes.
    pub fn insert(&mut self, key: String, value: String) -> (previous: Option<String>)
        ensures
            final(self)@ == old(self)@.insert(key@, value@),
            match previous {
                Some(text) => old(self)@.contains_key(key@) && old(self)@[key@] == text@,
                None => !old(self)@.contains_key(key@),
            },
    {
        proof {
            use_type_invariant(&*self);
        }
        let ghost before = self.entries@;
        match self.position(&key) {
            Some(i) => {
                let previous = self.entries[i].1.clone();
                proof {
                    Self::lemma_values_at(before, i as int);
                    let after = before.update(i as int, (key, value));
                    assert(Self::distinct(after)) by {
                        assert forall|a: int, b: int| 0 <= a < b < after.len() implies (
                        #[trigger] after[a]).0@ != (#[trigger] after[b]).0@ by {
                            assert(before[a].0@ != before[b].0@);
                        }
                    }
                    assert(Self::values(after) =~= Self::values(before).insert(key@, value@)) by {
                        assert forall|k: Seq<char>| #[trigger]
                            Self::values(after).contains_key(k) == Self::values(before).insert(
                                key@,
                                value@,
                            ).contains_key(k) by {
                            if Self::values(after).contains_key(k) {
                                let j = choose|j: int| Self::holds(after, k, j);
                                assert(Self::holds(before, k, j));
                            }
                            if Self::values(before).contains_key(k) {
                                let j = choose|j: int| Self::holds(before, k, j);
                                assert(Self::holds(after, k, j));
                            }
                            assert(Self::holds(after, key@, i as int));
                        }
                        assert forall|k: Seq<char>| #[trigger]
                            Self::values(after).contains_key(k) implies Self::values(after)[k]
                            == Self::values(before).insert(key@, value@)[k] by {
                            let j = choose|j: int| Self::holds(after, k, j);
                            Self::lemma_values_at(after, j);
                            if j != i {
                                Self::lemma_values_at(before, j);
                            }
                        }
                    }
                }
                let mut entries = self.take_entries();
                entries.set(i, (key, value));
                self.entries = entries;
                Some(previous)
            },
            None => {
                proof {
                    let after = before.push((key, value));
                    assert(Self::distinct(after)) by {
                        assert forall|a: int, b: int| 0 <= a < b < after.len() implies (
                        #[trigger] after[a]).0@ != (#[trigger] after[b]).0@ by {
                            if b == before.len() {
                                assert(!Self::holds(before, key@, a));
                            } else {
                                assert(before[a].0@ != before[b].0@);
                            }
                        }
                    }
                    assert(Self::values(after) =~= Self::values(before).insert(key@, value@)) by {
                        assert forall|k: Seq<char>| #[trigger]
                            Self::values(after).contains_key(k) == Self::values(before).insert(
                                key@,
                                value@,
                            ).contains_key(k) by {
                            if Self::values(after).contains_key(k) {
                                let j = choose|j: int| Self::holds(after, k, j);
                                if j < before.len() {
                                    assert(Self::holds(before, k, j));
                                }
                            }
                            if Self::values(before).contains_key(k) {
                                let j = choose|j: int| Self::holds(before, k, j);
                                assert(Self::holds(after, k, j));
                            }
                            assert(Self::holds(after, key@, before.len() as int));
                        }
                        assert forall|k: Seq<char>| #[trigger]
                            Self::values(after).contains_key(k) implies Self::values(after)[k]
                            == Self::values(before).insert(key@, value@)[k] by {
                            let j = choose|j: int| Self::holds(after, k, j);
                            Self::lemma_values_at(after, j);
                            if j < before.len() {
                                Self::lemma_values_at(before, j);
                            }
                        }
                    }
                }
                let mut entries = self.take_entries();
                entries.push((key, value));
                self.entries = entries;
                None
            },
        }
    }

    /// Takes away the value under `key` and hands it back, if there was
    /// one. Nothing else changes.
    pub fn remove(&mut self, key: &str) -> (previous: Option<String>)
        ensures
            final(self)@ == old(self)@.remove(key@),
            match previous {
                Some(text) => old(self)@.contains_key(key@) && old(self)@[key@] == text@,
                None => !old(self)@.contains_key(key@),
            },
    {
        proof {
            use_type_invariant(&*self);
        }
        let ghost before = self.entries@;
        let wanted = key.to_owned();
        match self.position(&wanted) {
            Some(i) => {
                proof {
                    Self::lemma_values_at(before, i as int);
                    let after = before.remove(i as int);
                    assert(Self::distinct(after)) by {
                        assert forall|a: int, b: int| 0 <= a < b < after.len() implies (
                        #[trigger] after[a]).0@ != (#[trigger] after[b]).0@ by {
                            let a0 = if a < i { a } else { a + 1 };
                            let b0 = if b < i { b } else { b + 1 };
                            assert(before[a0].0@ != before[b0].0@);
                        }
                    }
                    assert(Self::values(after) =~= Self::values(before).remove(key@)) by {
                        assert forall|k: Seq<char>| #[trigger]
                            Self::values(after).contains_key(k) == Self::values(before).remove(
                                key@,
                            ).contains_key(k) by {
                            if Self::values(after).contains_key(k) {
                                let j = choose|j: int| Self::holds(after, k, j);
                                let j0 = if j < i { j } else { j + 1 };
                                assert(Self::holds(before, k, j0));
                                if j0 < i {
                                    assert(before[j0].0@ != before[i as int].0@);
                                } else {
                                    assert(before[i as int].0@ != before[j0].0@);
                                }
                            }
                            if Self::values(before).contains_key(k) && k != key@ {
                                let j = choose|j: int| Self::holds(before, k, j);
                                let j1 = if j < i { j } else { j - 1 };
                                assert(Self::holds(after, k, j1));
                            }
                        }
                        assert forall|k: Seq<char>| #[trigger]
                            Self::values(after).contains_key(k) implies Self::values(after)[k]
                            == Self::values(before).remove(key@)[k] by {
                            let j = choose|j: int| Self::holds(after, k, j);
                            let j0 = if j < i { j } else { j + 1 };
                            Self::lemma_values_at(after, j);
                            Self::lemma_values_at(before, j0);
                        }
                    }
                }
                let mut entries = self.take_entries();
                let entry = entries.remove(i);
                self.entries = entries;
                Some(entry.1)
            },
            None => {
                assert(Self::values(before) =~= Self::values(before).remove(key@));
                None
            },
        }
    }
}

} // verus!
