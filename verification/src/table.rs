//! A map from text to values that remembers the order of first insertion.

use vstd::hash_map::StringHashMap;
use vstd::prelude::*;

verus! {

/// A finite map with text keys. Lookup goes through a hash map; the entries
/// themselves stand in a vector, in the order in which their keys first
/// came, so that they can be walked.
pub struct StringTable<V> {
    index: StringHashMap<usize>,
    entries: Vec<(String, V)>,
}

impl<V> View for StringTable<V> {
    type V = Map<Seq<char>, V>;

    closed spec fn view(&self) -> Map<Seq<char>, V> {
        Map::new(
            |k: Seq<char>| self.index@.dom().contains(k),
            |k: Seq<char>| self.entries@[self.index@[k] as int].1,
        )
    }
}

/// The entries of `m` whose value satisfies `p`.
pub open spec fn restricted<V>(m: Map<Seq<char>, V>, p: spec_fn(V) -> bool) -> Map<Seq<char>, V> {
    Map::new(|k: Seq<char>| m.contains_key(k) && p(m[k]), |k: Seq<char>| m[k])
}

impl<V> StringTable<V> {
    /// The index points from each key to its entry and from nothing else.
    #[verifier::type_invariant]
    spec fn consistent(self) -> bool {
        &&& forall|k: Seq<char>| #[trigger]
            self.index@.dom().contains(k) ==> self.index@[k] < self.entries@.len()
                && self.entries@[self.index@[k] as int].0@ == k
        &&& forall|i: int|
            0 <= i < self.entries@.len() ==> self.index@.dom().contains(
                (#[trigger] self.entries@[i]).0@,
            ) && self.index@[self.entries@[i].0@] == i
    }

    /// The keys in the order in which they first came.
    pub closed spec fn keys(&self) -> Seq<Seq<char>> {
        Seq::new(self.entries@.len(), |i: int| self.entries@[i].0@)
    }

    /// An empty table.
    pub fn new() -> (table: Self)
        ensures
            table@ == Map::<Seq<char>, V>::empty(),
            table.keys() == Seq::<Seq<char>>::empty(),
    {
        let table = StringTable { index: StringHashMap::new(), entries: Vec::new() };
        assert(table@ =~= Map::<Seq<char>, V>::empty());
        assert(table.keys() =~= Seq::<Seq<char>>::empty());
        table
    }

    /// Number of keys. The keys are exactly those of the map, each once.
    pub fn len(&self) -> (n: usize)
        ensures
            n == self@.len(),
            n == self.keys().len(),
            self@.dom().finite(),
            self@.dom() == self.keys().to_set(),
            self.keys().no_duplicates(),
    {
        proof {
            use_type_invariant(self);
            self.lemma_keys();
            self.lemma_len();
        }
        self.entries.len()
    }

    /// The value under `key`.
    pub fn get(&self, key: &str) -> (value: Option<&V>)
        ensures
            match value {
                Some(v) => self@.contains_key(key@) && *v == self@[key@],
                None => !self@.contains_key(key@),
            },
    {
        proof {
            use_type_invariant(self);
        }
        match self.index.get(key) {
            Some(i) => Some(&self.entries[*i].1),
            None => None,
        }
    }

    /// Whether `key` has a value.
    pub fn contains_key(&self, key: &str) -> (yes: bool)
        ensures
            yes == self@.contains_key(key@),
    {
        self.index.contains_key(key)
    }

    /// The key at position `i` of [`Self::keys`].
    pub fn key_at(&self, i: usize) -> (key: &String)
        requires
            i < self.keys().len(),
        ensures
            key@ == self.keys()[i as int],
    {
        &self.entries[i].0
    }

    /// The value under the key at position `i` of [`Self::keys`].
    pub fn value_at(&self, i: usize) -> (value: &V)
        requires
            i < self.keys().len(),
        ensures
            self@.contains_key(self.keys()[i as int]),
            *value == self@[self.keys()[i as int]],
    {
        proof {
            use_type_invariant(self);
        }
        &self.entries[i].1
    }

    /// Puts `value` under `key`, in place of what was there.
    pub fn insert(&mut self, key: String, value: V)
        ensures
            final(self)@ == old(self)@.insert(key@, value),
            final(self).keys() == if old(self)@.contains_key(key@) {
                old(self).keys()
            } else {
                old(self).keys().push(key@)
            },
    {
        proof {
            use_type_invariant(&*self);
        }
        let ghost before = *self;
        let mut taken: StringTable<V> = StringTable::new();
        std::mem::swap(self, &mut taken);
        let StringTable { mut index, mut entries } = taken;
        let ghost k = key@;
        let place: Option<usize> = match index.get(key.as_str()) {
            Some(i) => Some(*i),
            None => None,
        };
        match place {
            Some(i) => {
                entries.set(i, (key, value));
            },
            None => {
                let n: usize = entries.len();
                index.insert(key.clone(), n);
                entries.push((key, value));
            },
        }
        assert(StringTable { index, entries }.consistent());
        *self = StringTable { index, entries };
        assert(self@ =~= before@.insert(k, value));
        assert(self.keys() =~= if before@.contains_key(k) {
            before.keys()
        } else {
            before.keys().push(k)
        });
    }

    /// Keeps the entries whose value satisfies `keep`, which decides by `p`.
    pub(crate) fn retain<F: Fn(&V) -> bool>(&mut self, keep: F, Ghost(p): Ghost<spec_fn(V) -> bool>)
        requires
            forall|v: V| #[trigger] call_requires(keep, (&v,)),
            forall|v: V, b: bool| #[trigger] call_ensures(keep, (&v,), b) ==> b == p(v),
        ensures
            final(self)@ == restricted(old(self)@, p),
    {
        proof {
            use_type_invariant(&*self);
        }
        let ghost before = *self;
        let mut taken: StringTable<V> = StringTable::new();
        std::mem::swap(self, &mut taken);
        let StringTable { index: _, mut entries } = taken;
        let mut kept: StringTable<V> = StringTable::new();
        let ghost all = entries@;
        // Entries leave from the back, so they are gathered and then put back
        // in their first order.
        let mut survivors: Vec<(String, V)> = Vec::new();
        while entries.len() > 0
            invariant
                entries@ == all.take(entries@.len() as int),
                entries@.len() <= all.len(),
                forall|v: V| #[trigger] call_requires(keep, (&v,)),
                forall|v: V, b: bool| #[trigger] call_ensures(keep, (&v,), b) ==> b == p(v),
                forall|i: int|
                    entries@.len() <= i < all.len() && p((#[trigger] all[i]).1)
                        ==> survivors@.contains(all[i]),
                forall|i: int|
                    0 <= i < survivors@.len() ==> all.contains(#[trigger] survivors@[i]) && p(
                        survivors@[i].1,
                    ),
            decreases entries@.len(),
        {
            let ghost n = entries@.len() as int;
            let ghost old_survivors = survivors@;
            let entry = entries.pop().unwrap();
            assert(entry == all[n - 1]);
            if keep(&entry.1) {
                survivors.push(entry);
                assert(survivors@[old_survivors.len() as int] == entry);
            }
            assert forall|i: int|
                n - 1 <= i < all.len() && p(
                    (#[trigger] all[i]).1,
                ) implies survivors@.contains(all[i]) by {
                if i > n - 1 {
                    let j = choose|j: int|
                        0 <= j < old_survivors.len() && old_survivors[j] == all[i];
                    assert(survivors@[j] == all[i]);
                }
            }
        }
        let ghost found = survivors@;
        while survivors.len() > 0
            invariant
                survivors@ == found.take(survivors@.len() as int),
                survivors@.len() <= found.len(),
                forall|i: int|
                    survivors@.len() <= i < found.len() ==> kept@.contains_key(
                        (#[trigger] found[i]).0@,
                    ),
                forall|k: Seq<char>| #[trigger] kept@.contains_key(k) ==> exists|i: int|
                    0 <= i < found.len() && (#[trigger] found[i]).0@ == k && kept@[k] == found[i].1,
            decreases survivors@.len(),
        {
            let ghost n = survivors@.len() as int;
            let ghost old_kept = kept@;
            let (key, value) = survivors.pop().unwrap();
            assert((key, value) == found[n - 1]);
            let ghost k = key@;
            kept.insert(key, value);
            assert forall|k2: Seq<char>| #[trigger] kept@.contains_key(k2) implies exists|i: int|
                0 <= i < found.len() && (#[trigger] found[i]).0@ == k2 && kept@[k2] == found[i].1 by {
                if k2 == k {
                    assert(found[n - 1].0@ == k2);
                } else {
                    assert(old_kept.contains_key(k2));
                }
            }
        }
        assert(kept@ =~= restricted(before@, p)) by {
            assert forall|k: Seq<char>|
                kept@.contains_key(k) <==> restricted(before@, p).contains_key(k) by {
                if kept@.contains_key(k) {
                    let i = choose|i: int|
                        0 <= i < found.len() && (#[trigger] found[i]).0@ == k && kept@[k] == found[i].1;
                    let j = choose|j: int| 0 <= j < all.len() && all[j] == found[i];
                    assert(before.entries@[j].0@ == k);
                }
                if restricted(before@, p).contains_key(k) {
                    let j = before.index@[k] as int;
                    assert(all[j].0@ == k && p(all[j].1));
                    let i = choose|i: int| 0 <= i < found.len() && found[i] == all[j];
                    assert(kept@.contains_key(found[i].0@));
                }
            }
            assert forall|k: Seq<char>| kept@.contains_key(k) implies kept@[k] == before@[k] by {
                let i = choose|i: int|
                    0 <= i < found.len() && (#[trigger] found[i]).0@ == k && kept@[k] == found[i].1;
                let j = choose|j: int| 0 <= j < all.len() && all[j] == found[i];
                assert(before.entries@[j].0@ == k);
            }
        }
        *self = kept;
    }

    /// A copy of the table, in the same order.
    pub fn duplicate(&self) -> (copy: Self) where V: Copy
        ensures
            copy@ == self@,
            copy.keys() == self.keys(),
    {
        proof {
            use_type_invariant(self);
            self.lemma_keys();
        }
        let mut copy: StringTable<V> = StringTable::new();
        let n: usize = self.entries.len();
        for i in 0..n
            invariant
                n == self.entries@.len() == self.keys().len(),
                self.consistent(),
                self.keys().no_duplicates(),
                copy.keys() == self.keys().take(i as int),
                forall|k: Seq<char>| #[trigger]
                    copy@.contains_key(k) ==> self@.contains_key(k) && copy@[k] == self@[k],
                forall|k: Seq<char>| #[trigger]
                    copy@.contains_key(k) ==> self.keys().take(i as int).contains(k),
                forall|j: int| 0 <= j < i ==> copy@.contains_key(#[trigger] self.keys()[j]),
        {
            let ghost k = self.entries@[i as int].0@;
            assert(self.keys()[i as int] == k);
            assert(!copy@.contains_key(k)) by {
                if copy@.contains_key(k) {
                    let j = choose|j: int| 0 <= j < i && self.keys().take(i as int)[j] == k;
                    assert(self.keys()[j] == self.keys()[i as int]);
                }
            }
            assert(self@.contains_key(k) && self@[k] == self.entries@[i as int].1);
            copy.insert(self.entries[i].0.clone(), self.entries[i].1);
            assert(self.keys().take(i + 1) =~= self.keys().take(i as int).push(k));
            assert forall|x: Seq<char>| #[trigger] copy@.contains_key(x) implies self.keys().take(
                i + 1,
            ).contains(x) by {
                if x == k {
                    assert(self.keys().take(i + 1)[i as int] == x);
                } else {
                    let j = choose|j: int| 0 <= j < i && self.keys().take(i as int)[j] == x;
                    assert(self.keys().take(i + 1)[j] == x);
                }
            }
        }
        assert(self.keys().take(n as int) =~= self.keys());
        assert(copy@ =~= self@);
        copy
    }

    proof fn lemma_keys(self)
        requires
            self.consistent(),
        ensures
            forall|i: int|
                0 <= i < self.keys().len() ==> self@.contains_key(#[trigger] self.keys()[i]),
            forall|k: Seq<char>| #[trigger] self@.contains_key(k) ==> self.keys().contains(k),
            self.keys().no_duplicates(),
    {
        assert forall|k: Seq<char>| #[trigger] self@.contains_key(k) implies self.keys().contains(
            k,
        ) by {
            assert(self.keys()[self.index@[k] as int] == k);
        }
    }

    proof fn lemma_len(self)
        requires
            self.consistent(),
        ensures
            self@.dom().finite(),
            self@.dom() == self.keys().to_set(),
            self@.len() == self.keys().len(),
    {
        self.lemma_keys();
        assert(self@.dom() =~= self.keys().to_set());
        self.keys().unique_seq_to_set();
    }
}

} // verus!
