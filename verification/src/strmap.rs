//! A small map from strings to values that keeps keys in insertion order.
use vstd::prelude::*;

verus! {

/// A map keyed by strings. Entries are kept in the order in which their key
/// was first inserted; inserting an existing key replaces its value in place.
pub struct StrMap<V> {
    entries: Vec<(String, V)>,
    map: Ghost<Map<Seq<char>, V>>,
}

impl<V> View for StrMap<V> {
    type V = Map<Seq<char>, V>;

    closed spec fn view(&self) -> Map<Seq<char>, V> {
        self.map@
    }
}

/// Keys are distinct, and the map holds exactly the entries.
spec fn entries_match<V>(entries: Seq<(String, V)>, map: Map<Seq<char>, V>) -> bool {
    &&& forall|i: int, j: int| 0 <= i < j < entries.len() ==> entries[i].0@ != entries[j].0@
    &&& forall|i: int|
        0 <= i < entries.len() ==> map.contains_key(#[trigger] entries[i].0@) && map[entries[i].0@]
            == entries[i].1
    &&& forall|k: Seq<char>|
        #[trigger] map.contains_key(k) ==> exists|i: int| 0 <= i < entries.len() && entries[i].0@ == k
}

impl<V> StrMap<V> {
    #[verifier::type_invariant]
    closed spec fn inv(self) -> bool {
        entries_match(self.entries@, self.map@)
    }

    /// The key of the entry at position `i`.
    pub closed spec fn key_at(&self, i: int) -> Seq<char> {
        self.entries@[i].0@
    }

    /// Number of entries.
    pub closed spec fn spec_len(&self) -> nat {
        self.entries@.len()
    }

    /// Every key of the map occurs at exactly one position.
    proof fn lemma_keys(&self)
        requires
            self.inv(),
        ensures
            self@.dom().len() == self.spec_len(),
            forall|i: int| 0 <= i < self.spec_len() ==> self@.contains_key(#[trigger] self.key_at(i)),
            forall|i: int, j: int|
                0 <= i < j < self.spec_len() ==> self.key_at(i) != self.key_at(j),
            forall|k: Seq<char>|
                #[trigger] self@.contains_key(k) ==> exists|i: int|
                    0 <= i < self.spec_len() && self.key_at(i) == k,
    {
        let keys = Seq::new(self.entries@.len(), |i: int| self.entries@[i].0@);
        assert forall|k: Seq<char>| self@.dom().contains(k) implies keys.to_set().contains(k) by {
            let i = choose|i: int| 0 <= i < self.entries@.len() && self.entries@[i].0@ == k;
            assert(keys[i] == k);
        }
        assert forall|k: Seq<char>| keys.to_set().contains(k) implies self@.dom().contains(k) by {
            let i = choose|i: int| 0 <= i < keys.len() && keys[i] == k;
            assert(self.map@.contains_key(self.entries@[i].0@));
        }
        assert(self@.dom() =~= keys.to_set());
        assert forall|k: Seq<char>| #[trigger] self@.contains_key(k) implies exists|i: int|
            0 <= i < self.spec_len() && self.key_at(i) == k by {
            let i = choose|i: int| 0 <= i < self.entries@.len() && self.entries@[i].0@ == k;
            assert(self.key_at(i) == k);
        }
        assert forall|i: int, j: int| 0 <= i < j < keys.len() implies keys[i] != keys[j] by {}
        keys.unique_seq_to_set();
    }

    /// An empty map.
    pub fn new() -> (m: Self)
        ensures
            m@ == Map::<Seq<char>, V>::empty(),
            m.spec_len() == 0,
    {
        StrMap { entries: Vec::new(), map: Ghost(Map::empty()) }
    }

    /// Number of entries.
    pub fn len(&self) -> (n: usize)
        ensures
            n == self.spec_len(),
            n == self@.dom().len(),
    {
        proof {
            use_type_invariant(self);
            self.lemma_keys();
        }
        self.entries.len()
    }

    /// Insert `value` under `key`, replacing any previous value of that key.
    pub fn insert(&mut self, key: String, value: V)
        ensures
            final(self)@ == old(self)@.insert(key@, value),
    {
        proof {
            use_type_invariant(&*self);
        }
        let found = self.position(&key);
        let ghost new_map = self.map@.insert(key@, value);
        let ghost pre_entries = self.entries@;
        let ghost pre_map = self.map@;
        let mut old_map: StrMap<V> = StrMap::new();
        std::mem::swap(&mut old_map, self);
        proof {
            use_type_invariant(&old_map);
        }
        let StrMap { entries: mut entries, map: old_ghost } = old_map;
        let ghost old_entries = entries@;
        assert(old_entries == pre_entries);
        assert(old_ghost@ == pre_map);
        let ghost kv = key@;
        let ghost pos: int;
        match found {
            Some(i) => {
                let _ = entries.remove(i);
                entries.insert(i, (key, value));
                assert(entries@ =~= old_entries.update(i as int, (entries@[i as int].0, value)));
                proof {
                    pos = i as int;
                }
            },
            None => {
                entries.push((key, value));
                proof {
                    pos = old_entries.len() as int;
                }
            },
        }
        proof {
            assert(entries@[pos].0@ == kv);
            assert forall|k: Seq<char>| #[trigger] new_map.contains_key(k) implies exists|j: int|
                0 <= j < entries@.len() && entries@[j].0@ == k by {
                if k != kv {
                    assert(old_ghost@.contains_key(k));
                    let j = choose|j: int| 0 <= j < old_entries.len() && old_entries[j].0@ == k;
                    assert(j != pos);
                    assert(entries@[j].0@ == k);
                } else {
                    assert(entries@[pos].0@ == k);
                }
            }
            assert forall|a: int, b: int| 0 <= a < b < entries@.len() implies entries@[a].0@
                != entries@[b].0@ by {
                if a != pos {
                    assert(entries@[a] == old_entries[a]);
                }
                if b != pos {
                    assert(entries@[b] == old_entries[b]);
                }
            }
            assert forall|a: int| 0 <= a < entries@.len() implies new_map.contains_key(
                #[trigger] entries@[a].0@) && new_map[entries@[a].0@] == entries@[a].1 by {
                if a != pos {
                    assert(entries@[a] == old_entries[a]);
                    assert(old_ghost@.contains_key(old_entries[a].0@));
                }
            }
        }
        proof {
            assert(forall|a: int, b: int|
                0 <= a < b < entries@.len() ==> entries@[a].0@ != entries@[b].0@);
            assert(forall|a: int|
                0 <= a < entries@.len() ==> new_map.contains_key(#[trigger] entries@[a].0@)
                    && new_map[entries@[a].0@] == entries@[a].1);
            assert(forall|k: Seq<char>|
                #[trigger] new_map.contains_key(k) ==> exists|j: int|
                    0 <= j < entries@.len() && entries@[j].0@ == k);
            assert(entries_match(entries@, new_map));
        }
        let m = StrMap { entries, map: Ghost(new_map) };
        *self = m;
    }

    /// The position of `key` among the entries.
    fn position(&self, key: &String) -> (r: Option<usize>)
        ensures
            match r {
                Some(i) => i < self.entries@.len() && self.entries@[i as int].0@ == key@,
                None => forall|j: int| 0 <= j < self.entries@.len() ==> self.entries@[j].0@ != key@,
            },
    {
        let mut i: usize = 0;
        while i < self.entries.len()
            invariant
                i <= self.entries@.len(),
                forall|j: int| 0 <= j < i ==> self.entries@[j].0@ != key@,
            decreases self.entries@.len() - i,
        {
            if self.entries[i].0 == *key {
                return Some(i);
            }
            i += 1;
        }
        None
    }

    /// Look up the value stored under `key`.
    pub fn get(&self, key: &str) -> (r: Option<&V>)
        ensures
            match r {
                Some(v) => self@.contains_key(key@) && *v == self@[key@],
                None => !self@.contains_key(key@),
            },
    {
        proof {
            use_type_invariant(self);
        }
        let k = key.to_owned();
        let mut i: usize = 0;
        while i < self.entries.len()
            invariant
                i <= self.entries@.len(),
                k@ == key@,
                forall|j: int| 0 <= j < i ==> self.entries@[j].0@ != key@,
            decreases self.entries@.len() - i,
        {
            if self.entries[i].0 == k {
                proof {
                    use_type_invariant(self);
                }
                return Some(&self.entries[i].1);
            }
            i += 1;
        }
        None
    }

    /// The entry at position `i`, in first-insertion order.
    pub fn entry(&self, i: usize) -> (r: (&String, &V))
        requires
            i < self.spec_len(),
        ensures
            r.0@ == self.key_at(i as int),
            self@.contains_key(r.0@),
            *r.1 == self@[r.0@],
    {
        proof {
            use_type_invariant(self);
        }
        (&self.entries[i].0, &self.entries[i].1)
    }
}

} // verus!
