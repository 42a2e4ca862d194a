//! A table from names to values: the environment of variables and the table
//! of functions.
use vstd::prelude::*;

verus! {

/// The map that a list of entries with distinct names describes: each name
/// to the value of its entry.
pub open spec fn entries_map<V: View>(es: Seq<(String, V)>) -> Map<Seq<char>, V::V>
    decreases es.len(),
{
    if es.len() == 0 {
        Map::empty()
    } else {
        entries_map(es.drop_last()).insert(es.last().0@, es.last().1@)
    }
}

/// No two entries share a name.
pub open spec fn distinct_names<V>(es: Seq<(String, V)>) -> bool {
    forall|i: int, j: int|
        0 <= i < es.len() && 0 <= j < es.len() && i != j ==> (#[trigger] es[i]).0@ != (
        #[trigger] es[j]).0@
}

/// With distinct names, the map holds a name exactly when an entry has it,
/// with that entry's value.
pub proof fn lemma_entries_map<V: View>(es: Seq<(String, V)>)
    requires
        distinct_names(es),
    ensures
        forall|i: int|
            0 <= i < es.len() ==> entries_map(es).contains_key((#[trigger] es[i]).0@)
                && entries_map(es)[es[i].0@] == es[i].1@,
        forall|k: Seq<char>|
            entries_map(es).contains_key(k) ==> exists|i: int|
                0 <= i < es.len() && (#[trigger] es[i]).0@ == k,
    decreases es.len(),
{
    if es.len() > 0 {
        let init = es.drop_last();
        assert(distinct_names(init)) by {
            assert forall|i: int, j: int|
                0 <= i < init.len() && 0 <= j < init.len() && i != j implies (
                #[trigger] init[i]).0@ != (#[trigger] init[j]).0@ by {
                assert(init[i] == es[i]);
                assert(init[j] == es[j]);
            }
        }
        lemma_entries_map(init);
        assert forall|i: int|
            0 <= i < es.len() implies entries_map(es).contains_key((#[trigger] es[i]).0@)
            && entries_map(es)[es[i].0@] == es[i].1@ by {
            if i < es.len() - 1 {
                assert(init[i] == es[i]);
                assert(es[i].0@ != es[es.len() - 1].0@);
            }
        }
        assert forall|k: Seq<char>| entries_map(es).contains_key(k) implies exists|i: int|
            0 <= i < es.len() && (#[trigger] es[i]).0@ == k by {
            if k != es.last().0@ {
                assert(entries_map(init).contains_key(k));
                let i = choose|i: int| 0 <= i < init.len() && (#[trigger] init[i]).0@ == k;
                assert(es[i] == init[i]);
            } else {
                assert(es[es.len() - 1].0@ == k);
            }
        }
    }
}

/// Replacing the value of an entry replaces the value of its name.
pub proof fn lemma_entries_map_update<V: View>(es: Seq<(String, V)>, i: int, v: V)
    requires
        distinct_names(es),
        0 <= i < es.len(),
    ensures
        distinct_names(es.update(i, (es[i].0, v))),
        entries_map(es.update(i, (es[i].0, v))) == entries_map(es).insert(es[i].0@, v@),
{
    let es2 = es.update(i, (es[i].0, v));
    assert(distinct_names(es2)) by {
        assert forall|a: int, b: int|
            0 <= a < es2.len() && 0 <= b < es2.len() && a != b implies (#[trigger] es2[a]).0@
            != (#[trigger] es2[b]).0@ by {
            assert(es2[a].0@ == es[a].0@);
            assert(es2[b].0@ == es[b].0@);
        }
    }
    lemma_entries_map(es);
    lemma_entries_map(es2);
    let m1 = entries_map(es2);
    let m2 = entries_map(es).insert(es[i].0@, v@);
    assert forall|k: Seq<char>| #[trigger] m1.contains_key(k) <==> m2.contains_key(k) by {
        if m1.contains_key(k) {
            let j = choose|j: int| 0 <= j < es2.len() && (#[trigger] es2[j]).0@ == k;
            assert(es[j].0@ == k);
        }
        if m2.contains_key(k) && k != es[i].0@ {
            let j = choose|j: int| 0 <= j < es.len() && (#[trigger] es[j]).0@ == k;
            assert(es2[j].0@ == k);
        }
        if k == es[i].0@ {
            assert(es2[i].0@ == k);
        }
    }
    assert forall|k: Seq<char>| #[trigger] m1.contains_key(k) implies m1[k] == m2[k] by {
        let j = choose|j: int| 0 <= j < es2.len() && (#[trigger] es2[j]).0@ == k;
        if j == i {
        } else {
            assert(es2[j] == es[j]);
        }
    }
    assert(m1 =~= m2);
}

/// A table from names to values, with distinct names.
pub struct Table<V> {
    entries: Vec<(String, V)>,
}

impl<V: View> View for Table<V> {
    type V = Map<Seq<char>, V::V>;

    closed spec fn view(&self) -> Map<Seq<char>, V::V> {
        entries_map(self.entries@)
    }
}

impl<V> Table<V> {
    #[verifier::type_invariant]
    spec fn names_are_distinct(&self) -> bool {
        distinct_names(self.entries@)
    }
}

impl<V: View> Table<V> {
    /// An empty table.
    pub fn new() -> (t: Table<V>)
        ensures
            t@ == Map::<Seq<char>, V::V>::empty(),
    {
        Table { entries: Vec::new() }
    }

    /// The position of the entry named `key`, if there is one.
    fn find(&self, key: &String) -> (r: Option<usize>)
        ensures
            match r {
                Some(i) => i < self.entries.len() && self.entries@[i as int].0@ == key@,
                None => forall|i: int|
                    0 <= i < self.entries.len() ==> (#[trigger] self.entries@[i]).0@ != key@,
            },
    {
        let mut i: usize = 0;
        while i < self.entries.len()
            invariant
                i <= self.entries.len(),
                forall|j: int| 0 <= j < i ==> (#[trigger] self.entries@[j]).0@ != key@,
            decreases self.entries.len() - i,
        {
            if self.entries[i].0 == *key {
                return Some(i);
            }
            i = i + 1;
        }
        None
    }

    /// The value of `key`, if the table holds it.
    pub fn get(&self, key: &String) -> (r: Option<&V>)
        ensures
            match r {
                Some(v) => self@.contains_key(key@) && self@[key@] == v@,
                None => !self@.contains_key(key@),
            },
    {
        proof {
            use_type_invariant(self);
            lemma_entries_map(self.entries@);
        }
        match self.find(key) {
            Some(i) => Some(&self.entries[i].1),
            None => None,
        }
    }

    /// Sets the value of `key`, replacing any earlier one.
    pub fn insert(&mut self, key: String, value: V)
        ensures
            final(self)@ == old(self)@.insert(key@, value@),
    {
        proof {
            use_type_invariant(&*self);
        }
        match self.find(&key) {
            Some(i) => {
                proof {
                    lemma_entries_map_update(self.entries@, i as int, value);
                }
                let ghost es = self.entries@;
                let name = self.entries[i].0.clone();
                let mut entries = Vec::new();
                std::mem::swap(&mut entries, &mut self.entries);
                entries.set(i, (name, value));
                assert(entries@ =~= es.update(i as int, (es[i as int].0, value)));
                self.entries = entries;
            },
            None => {
                let ghost es = self.entries@;
                let mut entries = Vec::new();
                std::mem::swap(&mut entries, &mut self.entries);
                entries.push((key, value));
                proof {
                    assert(entries@.drop_last() =~= es);
                    assert(distinct_names(entries@)) by {
                        assert forall|a: int, b: int|
                            0 <= a < entries@.len() && 0 <= b < entries@.len() && a
                                != b implies (#[trigger] entries@[a]).0@ != (
                        #[trigger] entries@[b]).0@ by {
                            if a < es.len() && b < es.len() {
                                assert(entries@[a] == es[a]);
                                assert(entries@[b] == es[b]);
                            } else if a < es.len() {
                                assert(entries@[a] == es[a]);
                            } else {
                                assert(entries@[b] == es[b]);
                            }
                        }
                    }
                }
                self.entries = entries;
            },
        }
    }

    /// The entries, one per name.
    pub fn entries(&self) -> (r: &Vec<(String, V)>)
        ensures
            entries_map(r@) == self@,
            distinct_names(r@),
    {
        proof {
            use_type_invariant(self);
        }
        &self.entries
    }
}

} // verus!
