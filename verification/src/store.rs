//! A table from keys to values: the cell store, the port table and the tick
//! counts of a sheet (keyed by strings), and the port registry (keyed by a
//! url and a signature). Each key occurs at most once.

use vstd::prelude::*;

verus! {

/// A key that can be compared by its view.
pub trait TableKey: View + Sized {
    /// Whether two keys are the same key.
    fn same_key(&self, other: &Self) -> (b: bool)
        ensures
            b == (self@ == other@),
    ;
}

impl TableKey for String {
    fn same_key(&self, other: &Self) -> (b: bool) {
        *self == *other
    }
}

impl TableKey for (String, String) {
    fn same_key(&self, other: &Self) -> (b: bool) {
        self.0 == other.0 && self.1 == other.1
    }
}

/// The map that a list of entries with distinct keys stands for.
pub open spec fn entries_map<K: View, V>(s: Seq<(K, V)>) -> Map<K::V, V>
    decreases s.len(),
{
    if s.len() == 0 {
        Map::empty()
    } else {
        entries_map(s.drop_last()).insert(s.last().0@, s.last().1)
    }
}

/// No two entries share a key.
pub open spec fn keys_distinct<K: View, V>(s: Seq<(K, V)>) -> bool {
    forall|i: int, j: int| 0 <= i < s.len() && 0 <= j < s.len() && i != j ==> s[i].0@ != s[j].0@
}

/// What the map of distinct entries holds: exactly their keys, each with its value.
pub proof fn lemma_entries_map<K: View, V>(s: Seq<(K, V)>)
    requires
        keys_distinct(s),
    ensures
        forall|k: K::V|
            #[trigger] entries_map(s).contains_key(k) <==> exists|i: int|
                0 <= i < s.len() && s[i].0@ == k,
        forall|i: int| 0 <= i < s.len() ==> #[trigger] entries_map(s)[s[i].0@] == s[i].1,
    decreases s.len(),
{
    if s.len() > 0 {
        let t = s.drop_last();
        assert(keys_distinct(t));
        lemma_entries_map(t);
        assert forall|k: K::V|
            #[trigger] entries_map(s).contains_key(k) <==> exists|i: int|
                0 <= i < s.len() && s[i].0@ == k by {
            if entries_map(s).contains_key(k) {
                if k == s.last().0@ {
                    assert(s[s.len() - 1].0@ == k);
                } else {
                    assert(entries_map(t).contains_key(k));
                    let i = choose|i: int| 0 <= i < t.len() && t[i].0@ == k;
                    assert(s[i] == t[i]);
                }
            }
            if exists|i: int| 0 <= i < s.len() && s[i].0@ == k {
                let i = choose|i: int| 0 <= i < s.len() && s[i].0@ == k;
                if i < s.len() - 1 {
                    assert(t[i] == s[i]);
                    assert(entries_map(t).contains_key(k));
                }
            }
        }
        assert forall|i: int| 0 <= i < s.len() implies #[trigger] entries_map(s)[s[i].0@]
            == s[i].1 by {
            if i < s.len() - 1 {
                assert(t[i] == s[i]);
                assert(s[i].0@ != s[s.len() - 1].0@);
                assert(entries_map(t)[t[i].0@] == t[i].1);
            }
        }
    }
}

/// A table of values by key.
#[derive(Debug)]
pub struct Store<K: TableKey, V> {
    entries: Vec<(K, V)>,
}

impl<K: TableKey, V> View for Store<K, V> {
    type V = Map<K::V, V>;

    closed spec fn view(&self) -> Map<K::V, V> {
        entries_map(self.entries@)
    }
}

impl<K: TableKey, V> Store<K, V> {
    #[verifier::type_invariant]
    spec fn distinct(self) -> bool {
        keys_distinct(self.entries@)
    }

    /// The position of `key` among the entries, if it is there.
    fn find(&self, key: &K) -> (r: Option<usize>)
        ensures
            match r {
                Some(i) => i < self.entries@.len() && self.entries@[i as int].0@ == key@,
                None => !self@.contains_key(key@),
            },
    {
        proof {
            use_type_invariant(self);
            lemma_entries_map(self.entries@);
        }
        let mut i: usize = 0;
        while i < self.entries.len()
            invariant
                i <= self.entries@.len(),
                forall|j: int| 0 <= j < i ==> self.entries@[j].0@ != key@,
            decreases self.entries@.len() - i,
        {
            if self.entries[i].0.same_key(key) {
                return Some(i);
            }
            i = i + 1;
        }
        None
    }

    /// An empty table.
    pub fn new() -> (s: Self)
        ensures
            s@ == Map::<K::V, V>::empty(),
    {
        Store { entries: Vec::new() }
    }

    /// The number of keys.
    pub fn len(&self) -> (n: usize)
        ensures
            n == self@.len(),
    {
        proof {
            use_type_invariant(self);
            lemma_len(self.entries@);
        }
        self.entries.len()
    }

    /// The value stored under `key`.
    pub fn get(&self, key: &K) -> (r: Option<&V>)
        ensures
            r is Some <==> self@.contains_key(key@),
            r matches Some(v) ==> *v == self@[key@],
    {
        proof {
            use_type_invariant(self);
            lemma_entries_map(self.entries@);
        }
        match self.find(key) {
            Some(i) => Some(&self.entries[i].1),
            None => None,
        }
    }

    /// Stores `v` under `key`, replacing any earlier value.
    pub fn insert(&mut self, key: K, v: V)
        ensures
            final(self)@ == old(self)@.insert(key@, v),
    {
        proof {
            use_type_invariant(&*self);
            lemma_entries_map(self.entries@);
        }
        match self.find(&key) {
            Some(i) => {
                let ghost old_entries = self.entries@;
                let ghost k = key@;
                let ghost new_entries = old_entries.update(i as int, (key, v));
                assert(keys_distinct(new_entries));
                proof {
                    lemma_entries_map(new_entries);
                    assert(entries_map(new_entries) =~= entries_map(old_entries).insert(k, v)) by {
                        assert forall|q: K::V| #[trigger] entries_map(new_entries).contains_key(q)
                            <==> entries_map(old_entries).insert(k, v).contains_key(q) by {
                            if entries_map(old_entries).contains_key(q) {
                                let j = choose|j: int| 0 <= j < old_entries.len() && old_entries[j].0@ == q;
                                assert(new_entries[j].0@ == q);
                            }
                        }
                        assert forall|q: K::V| #[trigger] entries_map(new_entries).contains_key(q)
                            implies entries_map(new_entries)[q] == entries_map(old_entries).insert(k, v)[q] by {
                            let j = choose|j: int| 0 <= j < new_entries.len() && new_entries[j].0@ == q;
                            if j != i {
                                assert(old_entries[j] == new_entries[j]);
                            }
                        }
                    }
                }
                let mut entries: Vec<(K, V)> = Vec::new();
                std::mem::swap(&mut entries, &mut self.entries);
                entries.set(i, (key, v));
                self.entries = entries;
            },
            None => {
                let ghost old_entries = self.entries@;
                let ghost new_entries = old_entries.push((key, v));
                assert(new_entries.drop_last() =~= old_entries);
                assert(keys_distinct(new_entries)) by {
                    assert forall|j: int| 0 <= j < old_entries.len() implies old_entries[j].0@ != key@ by {
                        if old_entries[j].0@ == key@ {
                            assert(entries_map(old_entries).contains_key(key@));
                        }
                    }
                }
                let mut entries: Vec<(K, V)> = Vec::new();
                std::mem::swap(&mut entries, &mut self.entries);
                entries.push((key, v));
                self.entries = entries;
            },
        }
    }

    /// Takes the value stored under `key` out of the table.
    pub fn remove(&mut self, key: &K) -> (r: Option<V>)
        ensures
            final(self)@ == old(self)@.remove(key@),
            r is Some <==> old(self)@.contains_key(key@),
            r matches Some(v) ==> v == old(self)@[key@],
    {
        proof {
            use_type_invariant(&*self);
            lemma_entries_map(self.entries@);
        }
        match self.find(key) {
            Some(i) => {
                let ghost old_entries = self.entries@;
                let ghost new_entries = old_entries.remove(i as int);
                let ghost k = key@;
                assert(keys_distinct(new_entries)) by {
                    assert forall|a: int, b: int|
                        0 <= a < new_entries.len() && 0 <= b < new_entries.len() && a != b
                        implies new_entries[a].0@ != new_entries[b].0@ by {
                        let a2 = if a < i { a } else { a + 1 };
                        let b2 = if b < i { b } else { b + 1 };
                        assert(new_entries[a] == old_entries[a2]);
                        assert(new_entries[b] == old_entries[b2]);
                    }
                }
                proof {
                    lemma_entries_map(new_entries);
                    assert(entries_map(new_entries) =~= entries_map(old_entries).remove(k)) by {
                        assert forall|q: K::V| #[trigger] entries_map(new_entries).contains_key(q)
                            <==> entries_map(old_entries).remove(k).contains_key(q) by {
                            if entries_map(new_entries).contains_key(q) {
                                let j = choose|j: int| 0 <= j < new_entries.len() && new_entries[j].0@ == q;
                                let j2 = if j < i { j } else { j + 1 };
                                assert(new_entries[j] == old_entries[j2]);
                            }
                            if entries_map(old_entries).remove(k).contains_key(q) {
                                let j = choose|j: int| 0 <= j < old_entries.len() && old_entries[j].0@ == q;
                                assert(j != i);
                                let j2 = if j < i { j } else { j - 1 };
                                assert(new_entries[j2] == old_entries[j]);
                            }
                        }
                        assert forall|q: K::V| #[trigger] entries_map(new_entries).contains_key(q)
                            implies entries_map(new_entries)[q] == entries_map(old_entries).remove(k)[q] by {
                            let j = choose|j: int| 0 <= j < new_entries.len() && new_entries[j].0@ == q;
                            let j2 = if j < i { j } else { j + 1 };
                            assert(new_entries[j] == old_entries[j2]);
                        }
                    }
                }
                let mut entries: Vec<(K, V)> = Vec::new();
                std::mem::swap(&mut entries, &mut self.entries);
                let (_, v) = entries.remove(i);
                self.entries = entries;
                Some(v)
            },
            None => {
                assert(self@ =~= self@.remove(key@));
                None
            },
        }
    }
}

/// Law: `get` gives back what the last `insert` under the key stored, an
/// insert leaves every other key as it was, and `remove` forgets the key.
pub proof fn lemma_get_after_insert<K, V>(m: Map<K, V>, k: K, v: V, other: K)
    ensures
        m.insert(k, v).contains_key(k),
        m.insert(k, v)[k] == v,
        other != k ==> m.insert(k, v).contains_key(other) == m.contains_key(other),
        other != k && m.contains_key(other) ==> m.insert(k, v)[other] == m[other],
        !m.remove(k).contains_key(k),
{
}

/// The map of distinct entries has one key per entry.
proof fn lemma_len<K: View, V>(s: Seq<(K, V)>)
    requires
        keys_distinct(s),
    ensures
        entries_map(s).len() == s.len(),
        entries_map(s).dom().finite(),
    decreases s.len(),
{
    if s.len() > 0 {
        let t = s.drop_last();
        assert(keys_distinct(t));
        lemma_len(t);
        lemma_entries_map(t);
        if entries_map(t).contains_key(s.last().0@) {
            let j = choose|j: int| 0 <= j < t.len() && t[j].0@ == s.last().0@;
            assert(t[j] == s[j]);
        }
    }
}

} // verus!
