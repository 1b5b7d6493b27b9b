//! A table from names to values, in which no name occurs twice.

use vstd::prelude::*;

verus! {

/// A table from names to values. Entries stand in the order in which their
/// names first came; a value put under a name that is there already takes
/// the place of the old one.
#[derive(Debug, PartialEq, Eq)]
pub struct Table<V> {
    entries: Vec<(String, V)>,
}

/// The map that a list of entries makes: each value under its name, a later
/// entry in place of an earlier one of the same name.
pub open spec fn spec_map<V>(entries: Seq<(String, V)>) -> Map<Seq<char>, V>
    decreases entries.len(),
{
    if entries.len() == 0 {
        Map::empty()
    } else {
        spec_map(entries.drop_last()).insert(entries.last().0@, entries.last().1)
    }
}

/// Whether no two of the entries have the same name.
pub open spec fn spec_distinct<V>(entries: Seq<(String, V)>) -> bool {
    forall|i: int, j: int|
        0 <= i < entries.len() && 0 <= j < entries.len() && i != j ==> (#[trigger] entries[i]).0@
            != (#[trigger] entries[j]).0@
}

/// The map of a list of entries has the names of the entries, and where no
/// two entries have the same name, each name has the value of its entry.
#[verifier::rlimit(40)]
pub proof fn lemma_map_entries<V>(entries: Seq<(String, V)>)
    ensures
        forall|k: Seq<char>|
            spec_map(entries).contains_key(k) <==> exists|i: int|
                0 <= i < entries.len() && (#[trigger] entries[i]).0@ == k,
        spec_distinct(entries) ==> forall|i: int|
            0 <= i < entries.len() ==> spec_map(entries)[(#[trigger] entries[i]).0@]
                == entries[i].1,
        spec_map(entries).dom().finite(),
        spec_distinct(entries) ==> spec_map(entries).dom().len() == entries.len(),
    decreases entries.len(),
{
    if entries.len() > 0 {
        let front = entries.drop_last();
        let last = entries.last();
        lemma_map_entries(front);
        assert forall|k: Seq<char>|
            spec_map(entries).contains_key(k) <==> exists|i: int|
                0 <= i < entries.len() && (#[trigger] entries[i]).0@ == k by {
            if spec_map(entries).contains_key(k) {
                if k == last.0@ {
                    assert(entries[entries.len() - 1].0@ == k);
                } else {
                    let i = choose|i: int| 0 <= i < front.len() && (#[trigger] front[i]).0@ == k;
                    assert(entries[i].0@ == k);
                }
            }
            if exists|i: int| 0 <= i < entries.len() && (#[trigger] entries[i]).0@ == k {
                let i = choose|i: int| 0 <= i < entries.len() && (#[trigger] entries[i]).0@ == k;
                if i < front.len() {
                    assert(front[i].0@ == k);
                }
            }
        }
        if spec_distinct(entries) {
            assert(spec_distinct(front)) by {
                assert forall|i: int, j: int|
                    0 <= i < front.len() && 0 <= j < front.len() && i != j implies (
                #[trigger] front[i]).0@ != (#[trigger] front[j]).0@ by {
                    assert(entries[i].0@ != entries[j].0@);
                }
            }
            assert forall|i: int| 0 <= i < entries.len() implies spec_map(entries)[(
            #[trigger] entries[i]).0@] == entries[i].1 by {
                if i < front.len() {
                    assert(front[i] == entries[i]);
                    assert(entries[i].0@ != entries[entries.len() - 1].0@);
                }
            }
            assert(!spec_map(front).contains_key(last.0@)) by {
                if spec_map(front).contains_key(last.0@) {
                    let i = choose|i: int|
                        0 <= i < front.len() && (#[trigger] front[i]).0@ == last.0@;
                    assert(entries[i].0@ == entries[entries.len() - 1].0@);
                }
            }
        }
    }
}

impl<V: Clone> Clone for Table<V> {
    fn clone(&self) -> (r: Table<V>)
        ensures
            self.well_formed() ==> r.well_formed(),
            r@.dom() == self@.dom(),
    {
        let mut entries: Vec<(String, V)> = Vec::new();
        let mut i: usize = 0;
        while i < self.entries.len()
            invariant
                i <= self.entries.len(),
                entries@.len() == i,
                forall|k: int| 0 <= k < i ==> (#[trigger] entries@[k]).0@ == self.entries@[k].0@,
            decreases self.entries.len() - i,
        {
            entries.push((self.entries[i].0.clone(), self.entries[i].1.clone()));
            i = i + 1;
        }
        let r = Table { entries };
        proof {
            lemma_map_entries(self.entries@);
            lemma_map_entries(r.entries@);
            assert forall|k: Seq<char>| r@.dom().contains(k) <==> self@.dom().contains(k) by {
                if r@.contains_key(k) {
                    let j = choose|j: int|
                        0 <= j < r.entries@.len() && (#[trigger] r.entries@[j]).0@ == k;
                    assert(self.entries@[j].0@ == k);
                }
                if self@.contains_key(k) {
                    let j = choose|j: int|
                        0 <= j < self.entries@.len() && (#[trigger] self.entries@[j]).0@ == k;
                    assert(r.entries@[j].0@ == k);
                }
            }
            assert(r@.dom() =~= self@.dom());
            if self.well_formed() {
                assert forall|a: int, b: int|
                    0 <= a < r.entries@.len() && 0 <= b < r.entries@.len() && a != b implies (
                #[trigger] r.entries@[a]).0@ != (#[trigger] r.entries@[b]).0@ by {
                    assert(self.entries@[a].0@ != self.entries@[b].0@);
                }
            }
        }
        r
    }
}

impl<V> View for Table<V> {
    type V = Map<Seq<char>, V>;

    closed spec fn view(&self) -> Map<Seq<char>, V> {
        spec_map(self.entries@)
    }
}

impl<V> Table<V> {
    /// Whether no name occurs twice. Every table that `new` and `insert`
    /// make is well formed.
    pub closed spec fn well_formed(self) -> bool {
        spec_distinct(self.entries@)
    }

    /// The entries, in the order in which their names first came.
    pub closed spec fn spec_entries(self) -> Seq<(String, V)> {
        self.entries@
    }

    /// The table without entries.
    pub fn new() -> (r: Table<V>)
        ensures
            r.well_formed(),
            r@ == Map::<Seq<char>, V>::empty(),
    {
        Table { entries: Vec::new() }
    }

    /// The number of entries.
    pub fn len(&self) -> (r: usize)
        requires
            self.well_formed(),
        ensures
            r == self@.dom().len(),
            self@.dom().finite(),
    {
        proof {
            lemma_map_entries(self.entries@);
        }
        self.entries.len()
    }

    /// The entries, in the order in which their names first came.
    pub fn entries(&self) -> (r: &Vec<(String, V)>)
        ensures
            r@ == self.spec_entries(),
            self@ == spec_map(r@),
            self.well_formed() ==> spec_distinct(r@),
    {
        &self.entries
    }

    fn position(&self, name: &String) -> (r: Option<usize>)
        ensures
            match r {
                Some(i) => i < self.entries@.len() && self.entries@[i as int].0@ == name@,
                None => forall|i: int|
                    0 <= i < self.entries@.len() ==> (#[trigger] self.entries@[i]).0@ != name@,
            },
    {
        let mut i: usize = 0;
        while i < self.entries.len()
            invariant
                i <= self.entries@.len(),
                forall|k: int| 0 <= k < i ==> (#[trigger] self.entries@[k]).0@ != name@,
            decreases self.entries@.len() - i,
        {
            if self.entries[i].0 == *name {
                return Some(i);
            }
            i = i + 1;
        }
        None
    }

    /// The value under `name`, if there is one.
    pub fn get(&self, name: &str) -> (r: Option<&V>)
        requires
            self.well_formed(),
        ensures
            match r {
                Some(value) => self@.contains_key(name@) && *value == self@[name@],
                None => !self@.contains_key(name@),
            },
    {
        proof {
            lemma_map_entries(self.entries@);
        }
        let key = name.to_owned();
        match self.position(&key) {
            Some(i) => Some(&self.entries[i].1),
            None => None,
        }
    }

    /// Puts `value` under `name`, in place of what was there.
    #[verifier::rlimit(40)]
    pub fn insert(&mut self, name: String, value: V)
        requires
            old(self).well_formed(),
        ensures
            final(self).well_formed(),
            final(self)@ == old(self)@.insert(name@, value),
    {
        proof {
            lemma_map_entries(self.entries@);
        }
        let ghost before = self.entries@;
        match self.position(&name) {
            Some(i) => {
                self.entries[i] = (name, value);
                proof {
                    let after = self.entries@;
                    assert(spec_distinct(after)) by {
                        assert forall|a: int, b: int|
                            0 <= a < after.len() && 0 <= b < after.len() && a != b implies (
                        #[trigger] after[a]).0@ != (#[trigger] after[b]).0@ by {
                            assert(before[a].0@ != before[b].0@);
                        }
                    }
                    lemma_map_entries(after);
                    assert forall|k: Seq<char>|
                        spec_map(after).contains_key(k) <==> spec_map(before).insert(
                            name@,
                            value,
                        ).contains_key(k) by {
                        if spec_map(after).contains_key(k) {
                            let j = choose|j: int|
                                0 <= j < after.len() && (#[trigger] after[j]).0@ == k;
                            assert(before[j].0@ == k);
                        }
                        if spec_map(before).contains_key(k) {
                            let j = choose|j: int|
                                0 <= j < before.len() && (#[trigger] before[j]).0@ == k;
                            assert(after[j].0@ == k);
                        }
                        if k == name@ {
                            assert(after[i as int].0@ == k);
                        }
                    }
                    assert forall|k: Seq<char>| spec_map(after).contains_key(k) implies spec_map(
                        after,
                    )[k] == spec_map(before).insert(name@, value)[k] by {
                        let j = choose|j: int|
                            0 <= j < after.len() && (#[trigger] after[j]).0@ == k;
                        if j != i {
                            assert(after[j] == before[j]);
                            assert(before[j].0@ != before[i as int].0@);
                        }
                    }
                    assert(spec_map(after) =~= spec_map(before).insert(name@, value));
                }
            },
            None => {
                self.entries.push((name, value));
                proof {
                    let after = self.entries@;
                    assert(after.drop_last() =~= before);
                    assert(spec_distinct(after)) by {
                        assert forall|a: int, b: int|
                            0 <= a < after.len() && 0 <= b < after.len() && a != b implies (
                        #[trigger] after[a]).0@ != (#[trigger] after[b]).0@ by {
                            if a < before.len() && b < before.len() {
                                assert(before[a].0@ != before[b].0@);
                            } else if a < before.len() {
                                assert(before[a].0@ != name@);
                            } else {
                                assert(before[b].0@ != name@);
                            }
                        }
                    }
                }
            },
        }
    }
}

} // verus!
