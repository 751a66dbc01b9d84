//! A map from string keys to values, kept as a vector of entries whose keys
//! are pairwise distinct. It stands where a `HashMap<String, V>` would: its
//! view is a `Map` from the key's characters to the value.

use vstd::prelude::*;

verus! {

/// The map that a sequence of entries with distinct keys denotes.
pub open spec fn entries_map<V>(s: Seq<(String, V)>) -> Map<Seq<char>, V>
    decreases s.len(),
{
    if s.len() == 0 {
        Map::empty()
    } else {
        entries_map(s.drop_last()).insert(s.last().0@, s.last().1)
    }
}

/// The keys of a sequence of entries, in order.
pub open spec fn entry_keys<V>(s: Seq<(String, V)>) -> Seq<Seq<char>> {
    s.map_values(|e: (String, V)| e.0@)
}

/// A map from strings to values, with pairwise distinct keys.
#[derive(Debug)]
pub struct StrMap<V> {
    entries: Vec<(String, V)>,
}

proof fn lemma_entries_map<V>(s: Seq<(String, V)>)
    requires
        entry_keys(s).no_duplicates(),
    ensures
        forall|i: int|
            0 <= i < s.len() ==> #[trigger] entries_map(s).contains_key(s[i].0@) && entries_map(
                s,
            )[s[i].0@] == s[i].1,
        forall|k: Seq<char>| #[trigger]
            entries_map(s).contains_key(k) ==> entry_keys(s).contains(k),
        entries_map(s).dom().finite(),
        entries_map(s).dom().len() == s.len(),
    decreases s.len(),
{
    if s.len() > 0 {
        let p = s.drop_last();
        assert(entry_keys(p) =~= entry_keys(s).drop_last());
        lemma_entries_map(p);
        assert forall|i: int| 0 <= i < p.len() implies p[i].0@ != s.last().0@ by {
            assert(entry_keys(s)[i] == p[i].0@);
            assert(entry_keys(s)[s.len() - 1] == s.last().0@);
        }
        assert forall|k: Seq<char>| #[trigger]
            entries_map(s).contains_key(k) implies entry_keys(s).contains(k) by {
            if k == s.last().0@ {
                assert(entry_keys(s)[s.len() - 1] == k);
            } else {
                let j = choose|j: int| 0 <= j < entry_keys(p).len() && entry_keys(p)[j] == k;
                assert(entry_keys(s)[j] == k);
            }
        }
        assert forall|i: int| 0 <= i < s.len() implies #[trigger] entries_map(s).contains_key(
            s[i].0@,
        ) && entries_map(s)[s[i].0@] == s[i].1 by {
            if i < p.len() {
                assert(s[i] == p[i]);
                assert(entries_map(p).contains_key(p[i].0@));
            }
        }
        assert(!entries_map(p).contains_key(s.last().0@)) by {
            if entries_map(p).contains_key(s.last().0@) {
                let j = choose|j: int|
                    0 <= j < entry_keys(p).len() && entry_keys(p)[j] == s.last().0@;
                assert(p[j].0@ == s.last().0@);
            }
        }
    }
}

impl<V> StrMap<V> {
    #[verifier::type_invariant]
    spec fn keys_distinct(self) -> bool {
        entry_keys(self.entries@).no_duplicates()
    }

    /// The keys in the order in which they were first inserted.
    pub closed spec fn key_seq(self) -> Seq<Seq<char>> {
        entry_keys(self.entries@)
    }

    /// The map from keys to values.
    pub closed spec fn as_map(self) -> Map<Seq<char>, V> {
        entries_map(self.entries@)
    }

    /// An empty map.
    pub fn new() -> (m: Self)
        ensures
            m@ == Map::<Seq<char>, V>::empty(),
            m.key_seq() == Seq::<Seq<char>>::empty(),
    {
        let m = StrMap { entries: Vec::new() };
        assert(entry_keys(m.entries@) =~= Seq::<Seq<char>>::empty());
        m
    }

    /// The number of entries, with what that number says of the keys: they are
    /// pairwise distinct, each is in the map, and the map holds no other.
    pub fn len(&self) -> (n: usize)
        ensures
            n == self.key_seq().len(),
            n == self@.dom().len(),
            self@.dom().finite(),
            self.key_seq().no_duplicates(),
            forall|i: int|
                0 <= i < n ==> #[trigger] self@.contains_key(self.key_seq()[i]),
            forall|k: Seq<char>| #[trigger]
                self@.contains_key(k) ==> self.key_seq().contains(k),
    {
        proof {
            use_type_invariant(self);
            lemma_entries_map(self.entries@);
            assert forall|i: int| 0 <= i < self.entries@.len() implies #[trigger] self@.contains_key(
                self.key_seq()[i],
            ) by {
                assert(self.key_seq()[i] == self.entries@[i].0@);
            }
        }
        self.entries.len()
    }

    /// The key and value of the entry at position `i`, in insertion order.
    pub fn entry(&self, i: usize) -> (r: (&String, &V))
        requires
            i < self.key_seq().len(),
        ensures
            r.0@ == self.key_seq()[i as int],
            self@.contains_key(r.0@),
            *r.1 == self@[r.0@],
    {
        proof {
            use_type_invariant(self);
            lemma_entries_map(self.entries@);
        }
        let e = &self.entries[i];
        (&e.0, &e.1)
    }

    /// The position of the entry with key `key`, if there is one.
    fn position(&self, key: &String) -> (r: Option<usize>)
        ensures
            match r {
                Some(i) => i < self.entries@.len() && self.entries@[i as int].0@ == key@,
                None => forall|i: int|
                    0 <= i < self.entries@.len() ==> self.entries@[i].0@ != key@,
            },
    {
        let n = self.entries.len();
        for i in 0..n
            invariant
                n == self.entries@.len(),
                forall|j: int| 0 <= j < i ==> self.entries@[j].0@ != key@,
        {
            if self.entries[i].0 == *key {
                return Some(i);
            }
        }
        None
    }

    /// The value stored under `key`, if any.
    pub fn get(&self, key: &str) -> (r: Option<&V>)
        ensures
            match r {
                Some(v) => self@.contains_key(key@) && *v == self@[key@],
                None => !self@.contains_key(key@),
            },
    {
        proof {
            use_type_invariant(self);
            lemma_entries_map(self.entries@);
        }
        let owned = key.to_owned();
        match self.position(&owned) {
            Some(i) => {
                assert(entry_keys(self.entries@)[i as int] == self.entries@[i as int].0@);
                assert(entries_map(self.entries@).contains_key(self.entries@[i as int].0@));
                Some(&self.entries[i].1)
            },
            None => {
                proof {
                    if self@.contains_key(key@) {
                        let j = choose|j: int|
                            0 <= j < entry_keys(self.entries@).len() && entry_keys(
                                self.entries@,
                            )[j] == key@;
                        assert(self.entries@[j].0@ == key@);
                    }
                }
                None
            },
        }
    }

    /// Stores `value` under `key`, replacing what was stored there.
    pub fn insert(&mut self, key: String, value: V)
        ensures
            final(self)@ == old(self)@.insert(key@, value),
    {
        proof {
            use_type_invariant(&*self);
            lemma_entries_map(self.entries@);
        }
        let pos = self.position(&key);
        let ghost before = self.entries@;
        let mut entries: Vec<(String, V)> = Vec::new();
        std::mem::swap(&mut entries, &mut self.entries);
        assert(entries@ == before);
        match pos {
            Some(i) => {
                entries.set(i, (key, value));
                proof {
                    let after = entries@;
                    assert(entry_keys(after) =~= entry_keys(before));
                    lemma_entries_map(after);
                    assert forall|k: Seq<char>| #[trigger]
                        entries_map(after).contains_key(k) <==> entries_map(before).insert(
                            key@,
                            value,
                        ).contains_key(k) by {
                        if entries_map(before).contains_key(k) {
                            let j = choose|j: int|
                                0 <= j < entry_keys(before).len() && entry_keys(before)[j] == k;
                            assert(entry_keys(after)[j] == k);
                        }
                        if entries_map(after).contains_key(k) {
                            let j = choose|j: int|
                                0 <= j < entry_keys(after).len() && entry_keys(after)[j] == k;
                            assert(entry_keys(before)[j] == k);
                        }
                    }
                    assert forall|k: Seq<char>| #[trigger]
                        entries_map(after).contains_key(k) implies entries_map(after)[k]
                        == entries_map(before).insert(key@, value)[k] by {
                        let j = choose|j: int|
                            0 <= j < entry_keys(after).len() && entry_keys(after)[j] == k;
                        assert(after[j].0@ == k);
                        assert(entries_map(after).contains_key(after[j].0@));
                        assert(entry_keys(before)[j] == k);
                        assert(before[j].0@ == k);
                        if j != i {
                            assert(after[j] == before[j]);
                            assert(entry_keys(before)[i as int] == key@);
                            assert(entries_map(before).contains_key(before[j].0@));
                        }
                    }
                    assert(entries_map(after) =~= entries_map(before).insert(key@, value));
                }
            },
            None => {
                entries.push((key, value));
                proof {
                    let after = entries@;
                    assert(after.drop_last() =~= before);
                    assert(entry_keys(after) =~= entry_keys(before).push(key@));
                    assert forall|i: int| 0 <= i < entry_keys(before).len() implies entry_keys(
                        before,
                    )[i] != key@ by {
                        assert(before[i].0@ != key@);
                    }
                }
            },
        }
        self.entries = entries;
    }
}

impl<V> View for StrMap<V> {
    type V = Map<Seq<char>, V>;

    closed spec fn view(&self) -> Map<Seq<char>, V> {
        self.as_map()
    }
}

/// Reading a key after writing it gives the value written, and reading any
/// other key gives what it gave before: this holds of any map `after` that
/// `insert(key, value)` made from `before`.
pub proof fn lemma_read_after_write<V>(
    before: StrMap<V>,
    after: StrMap<V>,
    key: Seq<char>,
    value: V,
    other: Seq<char>,
)
    requires
        after@ == before@.insert(key, value),
    ensures
        after@.contains_key(key),
        after@[key] == value,
        other != key ==> after@.contains_key(other) == before@.contains_key(other),
        other != key && before@.contains_key(other) ==> after@[other] == before@[other],
{
}

} // verus!
