use vstd::prelude::*;

verus! {

/// Keys whose equality can be tested at run time and means spec equality.
pub trait KeyEq: Copy {
    fn key_eq(&self, other: &Self) -> (r: bool)
        ensures
            r == (*self == *other),
    ;
}

impl KeyEq for u64 {
    fn key_eq(&self, other: &Self) -> (r: bool) {
        *self == *other
    }
}

/// All keys of an association list are distinct.
pub open spec fn keys_distinct<K, V>(s: Seq<(K, V)>) -> bool {
    forall|i: int, j: int| 0 <= i < s.len() && 0 <= j < s.len() && i != j ==> s[i].0 != s[j].0
}

/// Index of the last entry with key `k`, or -1 when there is none.
pub open spec fn find_key<K, V>(s: Seq<(K, V)>, k: K) -> int
    decreases s.len(),
{
    if s.len() == 0 {
        -1
    } else if s.last().0 == k {
        s.len() - 1
    } else {
        find_key(s.drop_last(), k)
    }
}

/// The map that an association list stands for.
pub open spec fn assoc_map<K, V>(s: Seq<(K, V)>) -> Map<K, V> {
    Map::new(|k: K| find_key(s, k) >= 0, |k: K| s[find_key(s, k)].1)
}

pub proof fn lemma_find_key_range<K, V>(s: Seq<(K, V)>, k: K)
    ensures
        -1 <= find_key(s, k) < s.len(),
        find_key(s, k) >= 0 ==> s[find_key(s, k)].0 == k,
        find_key(s, k) == -1 <==> (forall|i: int| 0 <= i < s.len() ==> s[i].0 != k),
    decreases s.len(),
{
    if s.len() > 0 {
        lemma_find_key_range(s.drop_last(), k);
        if s.last().0 != k {
            assert forall|i: int| 0 <= i < s.len() && s[i].0 == k implies find_key(s, k) >= 0 by {
                assert(i < s.len() - 1);
                assert(s.drop_last()[i].0 == k);
            }
        }
    }
}

pub proof fn lemma_find_key_unique<K, V>(s: Seq<(K, V)>, k: K, i: int)
    requires
        keys_distinct(s),
        0 <= i < s.len(),
        s[i].0 == k,
    ensures
        find_key(s, k) == i,
    decreases s.len(),
{
    if i != s.len() - 1 {
        assert(s.last().0 != k);
        assert(s.drop_last()[i] == s[i]);
        lemma_find_key_unique(s.drop_last(), k, i);
    }
}

/// Membership and lookup in the map of a list with distinct keys.
pub proof fn lemma_assoc_map_index<K, V>(s: Seq<(K, V)>, i: int)
    requires
        keys_distinct(s),
        0 <= i < s.len(),
    ensures
        assoc_map(s).contains_key(s[i].0),
        assoc_map(s)[s[i].0] == s[i].1,
{
    lemma_find_key_unique(s, s[i].0, i);
}

pub proof fn lemma_assoc_map_absent<K, V>(s: Seq<(K, V)>, k: K)
    requires
        forall|i: int| 0 <= i < s.len() ==> s[i].0 != k,
    ensures
        !assoc_map(s).contains_key(k),
{
    lemma_find_key_range(s, k);
}

pub proof fn lemma_assoc_map_contains<K, V>(s: Seq<(K, V)>, k: K)
    requires
        keys_distinct(s),
    ensures
        assoc_map(s).contains_key(k) <==> exists|i: int| 0 <= i < s.len() && s[i].0 == k,
{
    lemma_find_key_range(s, k);
}

/// Pushing a new key extends the map by that key.
pub proof fn lemma_assoc_map_push<K, V>(s: Seq<(K, V)>, k: K, v: V)
    requires
        keys_distinct(s),
        forall|i: int| 0 <= i < s.len() ==> s[i].0 != k,
    ensures
        keys_distinct(s.push((k, v))),
        assoc_map(s.push((k, v))) == assoc_map(s).insert(k, v),
{
    let t = s.push((k, v));
    assert forall|a: int, b: int| 0 <= a < t.len() && 0 <= b < t.len() && a != b implies t[a].0 != t[b].0 by {
        if a < s.len() && b < s.len() {
            assert(t[a] == s[a] && t[b] == s[b]);
        } else if a < s.len() {
            assert(t[a] == s[a]);
        } else {
            assert(t[b] == s[b]);
        }
    }
    assert forall|key: K| #[trigger] assoc_map(t).contains_key(key) == assoc_map(s).insert(k, v).contains_key(key) by {
        lemma_assoc_map_contains(t, key);
        lemma_assoc_map_contains(s, key);
        if key != k {
            if assoc_map(t).contains_key(key) {
                let j = choose|j: int| 0 <= j < t.len() && t[j].0 == key;
                assert(j < s.len());
                assert(t[j] == s[j]);
            }
            if assoc_map(s).contains_key(key) {
                let j = choose|j: int| 0 <= j < s.len() && s[j].0 == key;
                assert(t[j] == s[j]);
            }
        } else {
            assert(t[s.len() as int].0 == k);
        }
    }
    assert forall|key: K| #[trigger] assoc_map(t).contains_key(key) implies assoc_map(t)[key] == assoc_map(s).insert(k, v)[key] by {
        if key == k {
            lemma_find_key_unique(t, k, s.len() as int);
        } else {
            lemma_find_key_range(t, key);
            let j = find_key(t, key);
            assert(t[j] == s[j]);
            lemma_find_key_unique(s, key, j);
        }
    }
    assert(assoc_map(t) =~= assoc_map(s).insert(k, v));
}

/// Replacing the value of an entry in place updates the map at that key.
pub proof fn lemma_assoc_map_update<K, V>(s: Seq<(K, V)>, i: int, v: V)
    requires
        keys_distinct(s),
        0 <= i < s.len(),
    ensures
        keys_distinct(s.update(i, (s[i].0, v))),
        assoc_map(s.update(i, (s[i].0, v))) == assoc_map(s).insert(s[i].0, v),
{
    let k = s[i].0;
    let t = s.update(i, (k, v));
    assert forall|a: int, b: int| 0 <= a < t.len() && 0 <= b < t.len() && a != b implies t[a].0 != t[b].0 by {
        assert(t[a].0 == s[a].0 && t[b].0 == s[b].0);
    }
    assert forall|key: K| #[trigger] assoc_map(t).contains_key(key) == assoc_map(s).insert(k, v).contains_key(key) by {
        lemma_assoc_map_contains(t, key);
        lemma_assoc_map_contains(s, key);
        if key == k {
            assert(t[i].0 == k);
        } else {
            if assoc_map(t).contains_key(key) {
                let j = choose|j: int| 0 <= j < t.len() && t[j].0 == key;
                assert(t[j] == s[j]);
            }
            if assoc_map(s).contains_key(key) {
                let j = choose|j: int| 0 <= j < s.len() && s[j].0 == key;
                assert(t[j] == s[j]);
            }
        }
    }
    assert forall|key: K| #[trigger] assoc_map(t).contains_key(key) implies assoc_map(t)[key] == assoc_map(s).insert(k, v)[key] by {
        if key == k {
            lemma_find_key_unique(t, k, i);
        } else {
            lemma_find_key_range(t, key);
            let j = find_key(t, key);
            assert(t[j] == s[j]);
            lemma_find_key_unique(s, key, j);
        }
    }
    assert(assoc_map(t) =~= assoc_map(s).insert(k, v));
}

/// Removing an entry removes its key from the map.
pub proof fn lemma_assoc_map_remove<K, V>(s: Seq<(K, V)>, i: int)
    requires
        keys_distinct(s),
        0 <= i < s.len(),
    ensures
        keys_distinct(s.remove(i)),
        assoc_map(s.remove(i)) == assoc_map(s).remove(s[i].0),
{
    let k = s[i].0;
    let t = s.remove(i);
    assert(forall|j: int| 0 <= j < t.len() ==> t[j] == if j < i { s[j] } else { s[j + 1] });
    assert forall|a: int, b: int| 0 <= a < t.len() && 0 <= b < t.len() && a != b implies t[a].0 != t[b].0 by {
        let a2 = if a < i { a } else { a + 1 };
        let b2 = if b < i { b } else { b + 1 };
        assert(t[a] == s[a2] && t[b] == s[b2]);
    }
    assert forall|key: K| #[trigger] assoc_map(t).contains_key(key) == assoc_map(s).remove(k).contains_key(key) by {
        lemma_find_key_range(t, key);
        lemma_find_key_range(s, key);
        if assoc_map(t).contains_key(key) {
            let j = find_key(t, key);
            let j2 = if j < i { j } else { j + 1 };
            assert(t[j] == s[j2]);
            assert(key != k);
        } else if key != k && assoc_map(s).contains_key(key) {
            let j = find_key(s, key);
            assert(j != i);
            let j2 = if j < i { j } else { j - 1 };
            assert(t[j2] == s[j]);
        }
    }
    assert forall|key: K| #[trigger] assoc_map(t).contains_key(key) implies assoc_map(t)[key] == assoc_map(s).remove(k)[key] by {
        lemma_find_key_range(t, key);
        let j = find_key(t, key);
        let j2 = if j < i { j } else { j + 1 };
        assert(t[j] == s[j2]);
        lemma_find_key_unique(s, key, j2);
    }
    assert(assoc_map(t) =~= assoc_map(s).remove(k));
}

/// An insertion-ordered map held as a list of entries with distinct keys.
/// The order of the entries is the order in which keys were first inserted.
#[derive(Clone, Debug)]
pub struct KeyedVec<K, V> {
    entries: Vec<(K, V)>,
}

impl<K: KeyEq, V> KeyedVec<K, V> {
    /// The entries, in insertion order.
    pub closed spec fn entries(&self) -> Seq<(K, V)> {
        self.entries@
    }

    /// The map the entries stand for.
    pub open spec fn view(&self) -> Map<K, V> {
        assoc_map(self.entries())
    }

    /// Keys are distinct.
    pub open spec fn wf(&self) -> bool {
        keys_distinct(self.entries())
    }

    pub fn new() -> (r: Self)
        ensures
            r.wf(),
            r.entries() == Seq::<(K, V)>::empty(),
            r@ == Map::<K, V>::empty(),
    {
        let r = KeyedVec { entries: Vec::new() };
        assert(r@ =~= Map::<K, V>::empty());
        r
    }

    pub fn len(&self) -> (r: usize)
        ensures
            r == self.entries().len(),
    {
        self.entries.len()
    }

    /// The entry at position `i` in insertion order.
    pub fn entry_at(&self, i: usize) -> (r: &(K, V))
        requires
            i < self.entries().len(),
        ensures
            *r == self.entries()[i as int],
    {
        &self.entries[i]
    }

    /// Position of the entry with key `k`.
    pub fn index_of(&self, k: &K) -> (r: Option<usize>)
        requires
            self.wf(),
        ensures
            match r {
                Some(i) => i < self.entries().len() && self.entries()[i as int].0 == *k && self@.contains_key(*k),
                None => !self@.contains_key(*k) && forall|j: int|
                    0 <= j < self.entries().len() ==> self.entries()[j].0 != *k,
            },
    {
        let mut i: usize = 0;
        while i < self.entries.len()
            invariant
                i <= self.entries@.len(),
                keys_distinct(self.entries@),
                forall|j: int| 0 <= j < i ==> self.entries@[j].0 != *k,
            decreases self.entries@.len() - i,
        {
            if self.entries[i].0.key_eq(k) {
                proof {
                    lemma_assoc_map_index(self.entries@, i as int);
                }
                return Some(i);
            }
            i = i + 1;
        }
        proof {
            lemma_assoc_map_absent(self.entries@, *k);
        }
        None
    }

    pub fn contains_key(&self, k: &K) -> (r: bool)
        requires
            self.wf(),
        ensures
            r == self@.contains_key(*k),
    {
        self.index_of(k).is_some()
    }

    pub fn get(&self, k: &K) -> (r: Option<&V>)
        requires
            self.wf(),
        ensures
            match r {
                Some(v) => self@.contains_key(*k) && *v == self@[*k],
                None => !self@.contains_key(*k),
            },
    {
        match self.index_of(k) {
            Some(i) => {
                proof {
                    lemma_assoc_map_index(self.entries@, i as int);
                }
                Some(&self.entries[i].1)
            },
            None => None,
        }
    }

    /// Mutable access to the value of `k`; the entry keeps its position.
    pub fn get_mut(&mut self, k: &K) -> (r: Option<&mut V>)
        requires
            old(self).wf(),
        ensures
            final(self).wf(),
            match r {
                Some(v) => old(self)@.contains_key(*k) && *v == old(self)@[*k]
                    && final(self)@ == old(self)@.insert(*k, *final(v))
                    && final(self).entries().len() == old(self).entries().len(),
                None => !old(self)@.contains_key(*k) && *final(self) == *old(self),
            },
    {
        match self.index_of(k) {
            Some(i) => {
                proof {
                    lemma_assoc_map_index(self.entries@, i as int);
                }
                let ghost before = self.entries@;
                let e = &mut self.entries[i];
                let v = &mut e.1;
                proof {
                    lemma_assoc_map_update(before, i as int, *final(v));
                }
                Some(v)
            },
            None => None,
        }
    }

    /// Mutable access to the value of the entry at position `i`.
    pub fn value_at_mut(&mut self, i: usize) -> (r: &mut V)
        requires
            old(self).wf(),
            i < old(self).entries().len(),
        ensures
            *r == old(self).entries()[i as int].1,
            final(self).wf(),
            final(self).entries() == old(self).entries().update(i as int, (old(self).entries()[i as int].0, *final(r))),
            final(self)@ == old(self)@.insert(old(self).entries()[i as int].0, *final(r)),
    {
        let ghost before = self.entries@;
        let e = &mut self.entries[i];
        let v = &mut e.1;
        proof {
            lemma_assoc_map_update(before, i as int, *final(v));
        }
        v
    }

    /// Sets the value of `k`; an existing entry keeps its position, a new
    /// key goes last.
    pub fn insert(&mut self, k: K, v: V)
        requires
            old(self).wf(),
        ensures
            final(self).wf(),
            final(self)@ == old(self)@.insert(k, v),
            old(self)@.contains_key(k) ==> final(self).entries().len() == old(self).entries().len()
                && (forall|j: int| 0 <= j < old(self).entries().len() ==> #[trigger] final(self).entries()[j].0 == old(self).entries()[j].0),
            !old(self)@.contains_key(k) ==> final(self).entries() == old(self).entries().push((k, v)),
    {
        match self.index_of(&k) {
            Some(i) => {
                proof {
                    lemma_assoc_map_update(self.entries@, i as int, v);
                }
                self.entries.set(i, (k, v));
            },
            None => {
                proof {
                    lemma_assoc_map_push(self.entries@, k, v);
                }
                self.entries.push((k, v));
            },
        }
    }

    /// Removes `k`, keeping the order of the other entries.
    pub fn remove(&mut self, k: &K) -> (r: Option<V>)
        requires
            old(self).wf(),
        ensures
            final(self).wf(),
            final(self)@ == old(self)@.remove(*k),
            match r {
                Some(v) => old(self)@.contains_key(*k) && v == old(self)@[*k]
                    && exists|i: int| 0 <= i < old(self).entries().len()
                        && old(self).entries()[i].0 == *k
                        && final(self).entries() == old(self).entries().remove(i),
                None => !old(self)@.contains_key(*k) && final(self).entries() == old(self).entries(),
            },
    {
        match self.index_of(k) {
            Some(i) => {
                proof {
                    lemma_assoc_map_remove(self.entries@, i as int);
                    lemma_assoc_map_index(self.entries@, i as int);
                }
                let ghost before = self.entries@;
                let (_, v) = self.entries.remove(i);
                assert(self.entries@ == before.remove(i as int));
                Some(v)
            },
            None => {
                assert(old(self)@.remove(*k) =~= old(self)@);
                None
            },
        }
    }
}

/// An insertion-ordered set held as a list of distinct keys.
#[derive(Clone, Debug)]
pub struct KeySet<K> {
    inner: KeyedVec<K, ()>,
}

impl<K: KeyEq> KeySet<K> {
    /// The keys, in insertion order.
    pub closed spec fn items(&self) -> Seq<K> {
        self.inner.entries().map_values(|e: (K, ())| e.0)
    }

    pub open spec fn view(&self) -> Set<K> {
        self.items().to_set()
    }

    pub closed spec fn wf(&self) -> bool {
        self.inner.wf()
    }

    proof fn lemma_view(&self)
        requires
            self.wf(),
        ensures
            self@ == self.inner@.dom(),
            self.items().no_duplicates(),
    {
        let s = self.inner.entries();
        assert forall|k: K| #[trigger] self@.contains(k) == self.inner@.dom().contains(k) by {
            lemma_assoc_map_contains(s, k);
            if self@.contains(k) {
                let i = choose|i: int| 0 <= i < self.items().len() && self.items()[i] == k;
                assert(s[i].0 == k);
            }
            if self.inner@.dom().contains(k) {
                let i = choose|i: int| 0 <= i < s.len() && s[i].0 == k;
                assert(self.items()[i] == k);
            }
        }
        assert(self@ =~= self.inner@.dom());
    }

    pub fn new() -> (r: Self)
        ensures
            r.wf(),
            r@ == Set::<K>::empty(),
            r.items() == Seq::<K>::empty(),
    {
        let r = KeySet { inner: KeyedVec::new() };
        assert(r.items() =~= Seq::<K>::empty());
        assert(r@ =~= Set::<K>::empty());
        r
    }

    pub fn len(&self) -> (r: usize)
        requires
            self.wf(),
        ensures
            r == self.items().len(),
            r == self@.len(),
    {
        proof {
            self.lemma_view();
            self.items().unique_seq_to_set();
        }
        self.inner.len()
    }

    /// The key at position `i` in insertion order.
    pub fn item_at(&self, i: usize) -> (r: K)
        requires
            i < self.items().len(),
        ensures
            r == self.items()[i as int],
    {
        self.inner.entry_at(i).0
    }

    pub fn contains(&self, k: &K) -> (r: bool)
        requires
            self.wf(),
        ensures
            r == self@.contains(*k),
    {
        proof {
            self.lemma_view();
        }
        self.inner.contains_key(k)
    }

    /// Adds `k`; returns whether it was absent. A new key goes last.
    pub fn insert(&mut self, k: K) -> (r: bool)
        requires
            old(self).wf(),
        ensures
            final(self).wf(),
            final(self)@ == old(self)@.insert(k),
            r == !old(self)@.contains(k),
            r ==> final(self).items() == old(self).items().push(k),
            !r ==> final(self).items() == old(self).items(),
    {
        proof {
            self.lemma_view();
        }
        let absent = !self.inner.contains_key(&k);
        let ghost before = self.inner.entries();
        self.inner.insert(k, ());
        proof {
            self.lemma_view();
            if !absent {
                assert forall|j: int| 0 <= j < before.len() implies self.inner.entries()[j] == before[j] by {
                    assert(self.inner.entries()[j].0 == before[j].0);
                }
                assert(self.inner.entries() =~= before);
            } else {
                assert(self.items() =~= before.map_values(|e: (K, ())| e.0).push(k));
            }
            assert(self@ =~= old(self)@.insert(k));
        }
        absent
    }

    /// Removes `k`; returns whether it was present. The other keys keep
    /// their order.
    pub fn remove(&mut self, k: &K) -> (r: bool)
        requires
            old(self).wf(),
        ensures
            final(self).wf(),
            final(self)@ == old(self)@.remove(*k),
            r == old(self)@.contains(*k),
            r ==> exists|i: int| 0 <= i < old(self).items().len() && old(self).items()[i] == *k
                && final(self).items() == old(self).items().remove(i),
            !r ==> final(self).items() == old(self).items(),
    {
        proof {
            self.lemma_view();
        }
        let ghost before = self.inner.entries();
        let r = self.inner.remove(k);
        proof {
            self.lemma_view();
            if r.is_some() {
                let i = choose|i: int| 0 <= i < before.len() && before[i].0 == *k
                    && self.inner.entries() == before.remove(i);
                assert(self.items() =~= before.map_values(|e: (K, ())| e.0).remove(i));
            }
            assert(self@ =~= old(self)@.remove(*k));
        }
        r.is_some()
    }
}

} // verus!
