//! A small map from column names to values.

use vstd::prelude::*;
use vstd::std_specs::cmp::PartialEqSpec;

verus! {

/// A map keyed by column name. No name occurs twice.
#[derive(Debug)]
pub struct Columns<T> {
    entries: Vec<(String, T)>,
}

impl<T> View for Columns<T> {
    type V = Map<Seq<char>, T>;

    closed spec fn view(&self) -> Map<Seq<char>, T> {
        Map::new(
            |name: Seq<char>| self.names().contains(name),
            |name: Seq<char>| self.entries@[self.names().index_of(name)].1,
        )
    }
}

impl<T> Columns<T> {
    /// The names in storage order.
    pub closed spec fn names(&self) -> Seq<Seq<char>> {
        self.entries@.map_values(|e: (String, T)| e.0@)
    }

    #[verifier::type_invariant]
    spec fn distinct_names(&self) -> bool {
        self.names().no_duplicates()
    }

    /// How the storage order relates to the map.
    pub proof fn lemma_names(&self)
        requires
            self.names().no_duplicates(),
        ensures
            self.names().to_set() == self@.dom(),
            self@.dom().finite(),
            self@.len() == self.names().len(),
    {
        self.names().unique_seq_to_set();
    }

    /// A map without any column.
    pub fn new() -> (columns: Self)
        ensures
            columns@ == Map::<Seq<char>, T>::empty(),
    {
        let columns = Columns { entries: Vec::new() };
        columns
    }

    /// The number of columns.
    pub fn len(&self) -> (n: usize)
        ensures
            n == self.names().len(),
            n == self@.len(),
            self.names().no_duplicates(),
            self.names().to_set() == self@.dom(),
    {
        proof {
            use_type_invariant(self);
            self.lemma_names();
        }
        self.entries.len()
    }

    /// Whether there is no column.
    pub fn is_empty(&self) -> (empty: bool)
        ensures
            empty == (self@ == Map::<Seq<char>, T>::empty()),
    {
        proof {
            use_type_invariant(self);
            if self.entries@.len() == 0 {
                assert(self@ =~= Map::<Seq<char>, T>::empty());
            } else {
                assert(self@.dom().contains(self.names()[0]));
            }
        }
        self.entries.len() == 0
    }

    /// Where `name` is stored, if it is.
    fn position(&self, name: &String) -> (at: Option<usize>)
        ensures
            match at {
                Some(i) => i < self.names().len() && self.names()[i as int] == name@,
                None => !self.names().contains(name@),
            },
    {
        let mut i: usize = 0;
        while i < self.entries.len()
            invariant
                i <= self.entries@.len(),
                forall|j: int| 0 <= j < i ==> self.names()[j] != name@,
            decreases self.entries@.len() - i,
        {
            if self.entries[i].0 == *name {
                return Some(i);
            }
            i += 1;
        }
        None
    }

    /// The value stored under `name`.
    pub fn get_column(&self, name: &String) -> (value: Option<&T>)
        ensures
            match value {
                Some(v) => self@.contains_key(name@) && *v == self@[name@],
                None => !self@.contains_key(name@),
            },
    {
        proof {
            use_type_invariant(self);
        }
        match self.position(name) {
            Some(i) => {
                proof {
                    self.names().index_of_first_ensures(name@);
                }
                Some(&self.entries[i].1)
            },
            None => None,
        }
    }

    /// The value stored under `name`, for a name that is at hand as a string
    /// slice.
    pub fn get(&self, name: &str) -> (value: Option<&T>)
        ensures
            match value {
                Some(v) => self@.contains_key(name@) && *v == self@[name@],
                None => !self@.contains_key(name@),
            },
    {
        let owned = name.to_owned();
        self.get_column(&owned)
    }

    /// Whether a value is stored under `name`.
    pub fn contains_key(&self, name: &str) -> (found: bool)
        ensures
            found == self@.contains_key(name@),
    {
        self.get(name).is_some()
    }

    /// The `i`-th column in storage order.
    pub fn entry(&self, i: usize) -> (entry: Option<(&String, &T)>)
        ensures
            self.names().no_duplicates(),
            self.names().to_set() == self@.dom(),
            match entry {
                Some((name, value)) => i < self.names().len() && name@ == self.names()[i as int]
                    && self@.contains_key(name@) && *value == self@[name@],
                None => i >= self.names().len(),
            },
    {
        proof {
            use_type_invariant(self);
            self.lemma_names();
        }
        if i < self.entries.len() {
            proof {
                let name = self.names()[i as int];
                self.names().index_of_first_ensures(name);
            }
            Some((&self.entries[i].0, &self.entries[i].1))
        } else {
            None
        }
    }
    /// Stores `value` under `name`, replacing what was there.
    pub fn insert(&mut self, name: String, value: T)
        ensures
            final(self)@ == old(self)@.insert(name@, value),
    {
        proof {
            use_type_invariant(&*self);
        }
        let ghost before = *self;
        let at = self.position(&name);
        let mut entries: Vec<(String, T)> = Vec::new();
        core::mem::swap(&mut self.entries, &mut entries);
        let ghost wanted = before@.insert(name@, value);
        match at {
            Some(i) => {
                entries.set(i, (name, value));
            },
            None => {
                entries.push((name, value));
            },
        }
        let ghost after = Columns { entries };
        proof {
            match at {
                Some(i) => {
                    before.names().index_of_first_ensures(name@);
                    assert(after.names() =~= before.names());
                    assert forall|n: Seq<char>| after@.dom().contains(n) implies #[trigger] after@[n]
                        == wanted[n] by {
                        before.names().index_of_first_ensures(n);
                    }
                },
                None => {
                    assert(after.names() =~= before.names().push(name@));
                    assert forall|n: Seq<char>| after@.dom().contains(n) implies #[trigger] after@[n]
                        == wanted[n] by {
                        after.names().index_of_first_ensures(n);
                        if n != name@ {
                            before.names().index_of_first_ensures(n);
                        }
                    }
                    assert forall|n: Seq<char>| wanted.dom().contains(n) implies after@.dom().contains(
                        n,
                    ) by {
                        if n != name@ {
                            let j = before.names().index_of(n);
                            before.names().index_of_first_ensures(n);
                            assert(after.names()[j] == n);
                        } else {
                            assert(after.names()[before.names().len() as int] == n);
                        }
                    }
                },
            }
        }
        core::mem::swap(&mut self.entries, &mut entries);
    }

    /// Takes one column out, or returns `None` when there is none left.
    pub fn pop(&mut self) -> (entry: Option<(String, T)>)
        ensures
            match entry {
                Some((name, value)) => old(self)@.contains_key(name@) && old(self)@[name@] == value
                    && final(self)@ == old(self)@.remove(name@) && final(self)@.len() + 1 == old(
                    self,
                )@.len(),
                None => old(self)@ == Map::<Seq<char>, T>::empty() && final(self)@ == old(self)@,
            },
    {
        proof {
            use_type_invariant(&*self);
        }
        let ghost before = *self;
        let mut entries: Vec<(String, T)> = Vec::new();
        core::mem::swap(&mut self.entries, &mut entries);
        let entry = entries.pop();
        let ghost after = Columns { entries };
        proof {
            match &entry {
                Some(popped) => {
                    let name = popped.0;
                    let last = before.names().len() - 1;
                    assert(after.names() =~= before.names().take(last));
                    assert(before.names()[last] == name@);
                    before.names().index_of_first_ensures(name@);
                    assert forall|n: Seq<char>| after@.dom().contains(n) implies n != name@
                        && before@.dom().contains(n) && #[trigger] after@[n] == before@[n] by {
                        after.names().index_of_first_ensures(n);
                        let j = after.names().index_of(n);
                        before.names().index_of_first_ensures(n);
                    }
                    assert forall|n: Seq<char>| before@.dom().contains(n) && n != name@
                        implies after@.dom().contains(n) by {
                        before.names().index_of_first_ensures(n);
                        let j = before.names().index_of(n);
                        assert(after.names()[j] == n);
                    }
                    before.lemma_names();
                    after.lemma_names();
                },
                None => {
                },
            }
        }
        core::mem::swap(&mut self.entries, &mut entries);
        entry
    }
}

impl<T: PartialEq> Columns<T> {
    /// Every column of `self` is in `other` with an equal value.
    pub open spec fn within(&self, other: &Self) -> bool {
        forall|name: Seq<char>| #[trigger]
            self@.contains_key(name) ==> other@.contains_key(name) && self@[name].eq_spec(
                &other@[name],
            )
    }

    fn is_within(&self, other: &Self) -> (all: bool)
        ensures
            T::obeys_eq_spec() ==> all == self.within(other),
    {
        proof {
            use_type_invariant(self);
            use_type_invariant(other);
        }
        let mut i: usize = 0;
        while i < self.entries.len()
            invariant
                i <= self.entries@.len(),
                self.names().no_duplicates(),
                T::obeys_eq_spec() ==> forall|j: int|
                    0 <= j < i ==> other@.contains_key(#[trigger] self.names()[j])
                        && self.entries@[j].1.eq_spec(&other@[self.names()[j]]),
            decreases self.entries@.len() - i,
        {
            let ghost name = self.names()[i as int];
            proof {
                self.names().index_of_first_ensures(name);
            }
            match other.get_column(&self.entries[i].0) {
                None => {
                    assert(self@.contains_key(name));
                    return false;
                },
                Some(theirs) => {
                    if !(self.entries[i].1 == *theirs) {
                        assert(self@[name] == self.entries@[i as int].1);
                        return false;
                    }
                },
            }
            i += 1;
        }
        proof {
            assert forall|name: Seq<char>| #[trigger]
                self@.contains_key(name) && T::obeys_eq_spec() implies other@.contains_key(name)
                && self@[name].eq_spec(&other@[name]) by {
                self.names().index_of_first_ensures(name);
                let j = self.names().index_of(name);
            }
        }
        true
    }
}

impl<T: PartialEq> PartialEq for Columns<T> {
    fn eq(&self, other: &Self) -> (same: bool) {
        self.is_within(other) && other.is_within(self)
    }
}

impl<T: PartialEq> vstd::std_specs::cmp::PartialEqSpecImpl for Columns<T> {
    open spec fn obeys_eq_spec() -> bool {
        T::obeys_eq_spec()
    }

    open spec fn eq_spec(&self, other: &Self) -> bool {
        self.within(other) && other.within(self)
    }
}

impl<T: Eq> Eq for Columns<T> {

}

impl<T: Clone> Clone for Columns<T> {
    fn clone(&self) -> (copy: Self)
        ensures
            copy@.dom() == self@.dom(),
            forall|name: Seq<char>| #[trigger]
                copy@.contains_key(name) ==> cloned(self@[name], copy@[name]),
    {
        proof {
            use_type_invariant(self);
        }
        let mut entries: Vec<(String, T)> = Vec::new();
        let mut i: usize = 0;
        while i < self.entries.len()
            invariant
                i <= self.entries@.len(),
                entries@.len() == i,
                forall|j: int|
                    0 <= j < i ==> (#[trigger] entries@[j]).0@ == self.entries@[j].0@ && cloned(
                        self.entries@[j].1,
                        entries@[j].1,
                    ),
            decreases self.entries@.len() - i,
        {
            let name = self.entries[i].0.clone();
            let value = self.entries[i].1.clone();
            entries.push((name, value));
            i += 1;
        }
        proof {
            assert(entries@.map_values(|e: (String, T)| e.0@) =~= self.names());
        }
        let copy = Columns { entries };
        copy
    }
}

} // verus!
