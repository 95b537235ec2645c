//! A map from names to values, kept as a vector of entries.
use vstd::prelude::*;

verus! {

/// A finite map keyed by strings. No name is held twice, so a name has at
/// most one index.
pub struct Table<V> {
    entries: Vec<(String, V)>,
}

/// Whether entry `i` is keyed by `name`.
pub open spec fn found_at<V>(entries: Seq<(String, V)>, name: Seq<char>, i: int) -> bool {
    0 <= i < entries.len() && entries[i].0@ == name
}

/// An index of `name` among the entries, where it occurs.
pub open spec fn index_of<V>(entries: Seq<(String, V)>, name: Seq<char>) -> int {
    choose|i: int| found_at(entries, name, i)
}

/// Whether no two entries are keyed alike.
pub open spec fn distinct<V>(entries: Seq<(String, V)>) -> bool {
    forall|i: int, j: int| 0 <= i < j < entries.len() ==> entries[i].0@ != entries[j].0@
}

/// The map that the entries stand for.
pub open spec fn table_map<V>(entries: Seq<(String, V)>) -> Map<Seq<char>, V> {
    Map::new(
        |name: Seq<char>| exists|i: int| found_at(entries, name, i),
        |name: Seq<char>| entries[index_of(entries, name)].1,
    )
}

/// Where no name is held twice, a name has one index.
pub proof fn lemma_index_unique<V>(entries: Seq<(String, V)>, name: Seq<char>, i: int)
    requires
        distinct(entries),
        found_at(entries, name, i),
    ensures
        index_of(entries, name) == i,
{
    let j = index_of(entries, name);
    assert(found_at(entries, name, j));
    if j < i {
        assert(entries[j].0@ != entries[i].0@);
    } else if i < j {
        assert(entries[i].0@ != entries[j].0@);
    }
}

impl<V> View for Table<V> {
    type V = Map<Seq<char>, V>;

    closed spec fn view(&self) -> Map<Seq<char>, V> {
        table_map(self.entries@)
    }
}

impl<V> Table<V> {
    #[verifier::type_invariant]
    spec fn no_name_twice(&self) -> bool {
        distinct(self.entries@)
    }

    /// A table without entries.
    pub fn new() -> (r: Self)
        ensures
            r@ == Map::<Seq<char>, V>::empty(),
    {
        let r = Table { entries: Vec::new() };
        assert(r@ =~= Map::<Seq<char>, V>::empty());
        r
    }

    /// The index of `name`, if the table holds it.
    fn position(&self, name: &str) -> (r: Option<usize>)
        ensures
            match r {
                Some(i) => found_at(self.entries@, name@, i as int),
                None => forall|i: int| !found_at(self.entries@, name@, i),
            },
    {
        let wanted = name.to_owned();
        let mut i: usize = 0;
        while i < self.entries.len()
            invariant
                i <= self.entries@.len(),
                wanted@ == name@,
                forall|j: int| 0 <= j < i ==> self.entries@[j].0@ != name@,
            decreases self.entries@.len() - i,
        {
            if self.entries[i].0 == wanted {
                return Some(i);
            }
            i = i + 1;
        }
        None
    }

    /// Whether `name` is bound.
    pub fn contains_key(&self, name: &str) -> (r: bool)
        ensures
            r == self@.contains_key(name@),
    {
        self.position(name).is_some()
    }

    /// The value that `name` is bound to, if any.
    pub fn get(&self, name: &str) -> (r: Option<&V>)
        ensures
            match r {
                Some(v) => self@.contains_key(name@) && *v == self@[name@],
                None => !self@.contains_key(name@),
            },
    {
        match self.position(name) {
            Some(i) => {
                proof {
                    use_type_invariant(self);
                    lemma_index_unique(self.entries@, name@, i as int);
                }
                Some(&self.entries[i].1)
            },
            None => None,
        }
    }

    /// Binds `name` to `value`, over any earlier binding of `name`.
    pub fn insert(&mut self, name: String, value: V)
        ensures
            final(self)@ == old(self)@.insert(name@, value),
    {
        let ghost before = self.entries@;
        let ghost key = name@;
        proof {
            use_type_invariant(&*self);
        }
        let found = self.position(name.as_str());
        let mut entries: Vec<(String, V)> = Vec::new();
        std::mem::swap(&mut entries, &mut self.entries);
        match found {
            Some(i) => {
                entries[i] = (name, value);
                proof {
                    let after = entries@;
                    assert forall|a: int, b: int| 0 <= a < b < after.len() implies after[a].0@
                        != after[b].0@ by {
                        assert(before[a].0@ != before[b].0@);
                    }
                    assert forall|k: Seq<char>| #[trigger]
                        table_map(after).contains_key(k) implies table_map(before).insert(
                        key,
                        value,
                    ).contains_key(k) && table_map(after)[k] == table_map(before).insert(
                        key,
                        value,
                    )[k] by {
                        let j = index_of(after, k);
                        assert(found_at(after, k, j));
                        assert(found_at(before, k, j));
                        lemma_index_unique(after, k, j);
                        lemma_index_unique(before, k, j);
                    }
                    assert forall|k: Seq<char>| #[trigger]
                        table_map(before).insert(key, value).contains_key(k) implies table_map(
                        after,
                    ).contains_key(k) by {
                        if k == key {
                            assert(found_at(after, k, i as int));
                        } else {
                            let j = index_of(before, k);
                            assert(found_at(before, k, j));
                            assert(found_at(after, k, j));
                        }
                    }
                    assert(table_map(after) =~= table_map(before).insert(key, value));
                }
            },
            None => {
                let ghost n = before.len() as int;
                entries.push((name, value));
                proof {
                    let after = entries@;
                    assert(found_at(after, key, n));
                    assert forall|a: int, b: int| 0 <= a < b < after.len() implies after[a].0@
                        != after[b].0@ by {
                        if b == n {
                            assert(!found_at(before, key, a));
                        } else {
                            assert(before[a].0@ != before[b].0@);
                        }
                    }
                    assert forall|k: Seq<char>| #[trigger]
                        table_map(before).insert(key, value).contains_key(k) implies table_map(
                        after,
                    ).contains_key(k) by {
                        if k != key {
                            let j = index_of(before, k);
                            assert(found_at(before, k, j));
                            assert(found_at(after, k, j));
                        }
                    }
                    assert forall|k: Seq<char>| #[trigger]
                        table_map(after).contains_key(k) implies (table_map(before).insert(
                        key,
                        value,
                    ).contains_key(k) && table_map(after)[k] == table_map(before).insert(
                        key,
                        value,
                    )[k]) by {
                        let j = index_of(after, k);
                        assert(found_at(after, k, j));
                        lemma_index_unique(after, k, j);
                        if j == n {
                            assert(k == key);
                        } else {
                            assert(found_at(before, k, j));
                            lemma_index_unique(before, k, j);
                        }
                    }
                    assert(table_map(after) =~= table_map(before).insert(key, value));
                }
            },
        }
        self.entries = entries;
    }
}

} // verus!
