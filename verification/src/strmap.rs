//! An insertion-ordered map keyed by strings, each key stored once.
use vstd::prelude::*;

verus! {

/// The key sequence of an entry list.
pub open spec fn keys_of<V>(entries: Seq<(Seq<char>, V)>) -> Seq<Seq<char>> {
    entries.map_values(|e: (Seq<char>, V)| e.0)
}

/// No key occurs twice in the entry list.
pub open spec fn keys_distinct<V>(entries: Seq<(Seq<char>, V)>) -> bool {
    forall|i: int, j: int|
        0 <= i < entries.len() && 0 <= j < entries.len() && i != j ==> #[trigger] entries[i].0
            != #[trigger] entries[j].0
}

/// Whether `k` is a key of the entry list.
pub open spec fn has_key<V>(entries: Seq<(Seq<char>, V)>, k: Seq<char>) -> bool {
    exists|i: int| 0 <= i < entries.len() && #[trigger] entries[i].0 == k
}

/// The value stored under `k`, if any.
pub open spec fn lookup<V>(entries: Seq<(Seq<char>, V)>, k: Seq<char>) -> Option<V> {
    if has_key(entries, k) {
        Some(entries[choose|i: int| 0 <= i < entries.len() && #[trigger] entries[i].0 == k].1)
    } else {
        None
    }
}

/// The entry list after storing `v` under `k`: an existing entry keeps its place and
/// takes the new value, a new key goes to the end.
pub open spec fn insert_entry<V>(entries: Seq<(Seq<char>, V)>, k: Seq<char>, v: V) -> Seq<(Seq<char>, V)> {
    if has_key(entries, k) {
        let i = choose|i: int| 0 <= i < entries.len() && #[trigger] entries[i].0 == k;
        entries.update(i, (k, v))
    } else {
        entries.push((k, v))
    }
}

/// The entries with each key taken by its view.
pub closed spec fn entries_view<V>(entries: Seq<(String, V)>) -> Seq<(Seq<char>, V)> {
    entries.map_values(|e: (String, V)| (e.0@, e.1))
}

/// With distinct keys, the entry at `i` is the one that `lookup` finds for its key.
pub proof fn lemma_choose_at<V>(entries: Seq<(Seq<char>, V)>, i: int)
    requires
        keys_distinct(entries),
        0 <= i < entries.len(),
    ensures
        has_key(entries, entries[i].0),
        (choose|j: int| 0 <= j < entries.len() && #[trigger] entries[j].0 == entries[i].0) == i,
{
    let k = entries[i].0;
    assert(entries[i].0 == k);
    let j = choose|j: int| 0 <= j < entries.len() && #[trigger] entries[j].0 == k;
    assert(entries[j].0 == entries[i].0);
}

/// With distinct keys, looking up the key of the entry at `i` gives its value.
pub proof fn lemma_lookup_at<V>(entries: Seq<(Seq<char>, V)>, i: int)
    requires
        keys_distinct(entries),
        0 <= i < entries.len(),
    ensures
        lookup(entries, entries[i].0) == Some(entries[i].1),
{
    lemma_choose_at(entries, i);
}

/// Storing `v` under `k` and reading `k` back gives `v`; any other key reads as before;
/// the keys stay distinct; the map grows by one entry exactly when `k` is new.
pub proof fn lemma_insert_then_lookup<V>(entries: Seq<(Seq<char>, V)>, k: Seq<char>, v: V, other: Seq<char>)
    requires
        keys_distinct(entries),
    ensures
        lookup(insert_entry(entries, k, v), k) == Some(v),
        other != k ==> lookup(insert_entry(entries, k, v), other) == lookup(entries, other),
        keys_distinct(insert_entry(entries, k, v)),
        insert_entry(entries, k, v).len() == if has_key(entries, k) {
            entries.len()
        } else {
            entries.len() + 1
        },
{
    let after = insert_entry(entries, k, v);
    if has_key(entries, k) {
        let i = choose|i: int| 0 <= i < entries.len() && #[trigger] entries[i].0 == k;
        lemma_choose_at(entries, i);
        assert(after == entries.update(i, (k, v)));
        assert forall|a: int, b: int| 0 <= a < after.len() && 0 <= b < after.len() && a != b implies #[trigger] after[a].0 != #[trigger] after[b].0 by {
            assert(entries[a].0 != entries[b].0);
        }
        lemma_lookup_at(after, i);
        if other != k && has_key(entries, other) {
            let j = choose|j: int| 0 <= j < entries.len() && #[trigger] entries[j].0 == other;
            lemma_lookup_at(entries, j);
            lemma_lookup_at(after, j);
        }
        if other != k && !has_key(entries, other) {
            assert(!has_key(after, other)) by {
                if has_key(after, other) {
                    let j = choose|j: int| 0 <= j < after.len() && #[trigger] after[j].0 == other;
                    assert(entries[j].0 == other);
                }
            }
        }
    } else {
        assert(after == entries.push((k, v)));
        assert forall|a: int, b: int| 0 <= a < after.len() && 0 <= b < after.len() && a != b implies #[trigger] after[a].0 != #[trigger] after[b].0 by {
            if a < entries.len() && b < entries.len() {
                assert(entries[a].0 != entries[b].0);
            } else if a < entries.len() {
                assert(entries[a].0 != k);
            } else {
                assert(entries[b].0 != k);
            }
        }
        lemma_lookup_at(after, entries.len() as int);
        if other != k && has_key(entries, other) {
            let j = choose|j: int| 0 <= j < entries.len() && #[trigger] entries[j].0 == other;
            lemma_lookup_at(entries, j);
            lemma_lookup_at(after, j);
        }
        if other != k && !has_key(entries, other) {
            assert(!has_key(after, other)) by {
                if has_key(after, other) {
                    let j = choose|j: int| 0 <= j < after.len() && #[trigger] after[j].0 == other;
                    if j < entries.len() {
                        assert(entries[j].0 == other);
                    }
                }
            }
        }
    }
}

#[derive(Debug)]
pub struct StrMap<V> {
    entries: Vec<(String, V)>,
}

impl<V> View for StrMap<V> {
    type V = Seq<(Seq<char>, V)>;

    closed spec fn view(&self) -> Seq<(Seq<char>, V)> {
        entries_view(self.entries@)
    }
}

impl<V> StrMap<V> {
    #[verifier::type_invariant]
    closed spec fn inv(self) -> bool {
        keys_distinct(self@)
    }

    pub fn new() -> (m: Self)
        ensures
            m@ == Seq::<(Seq<char>, V)>::empty(),
    {
        let m = StrMap { entries: Vec::new() };
        assert(m@ =~= Seq::<(Seq<char>, V)>::empty());
        m
    }

    pub fn len(&self) -> (n: usize)
        ensures
            n == self@.len(),
            keys_distinct(self@),
    {
        proof { use_type_invariant(self); }
        self.entries.len()
    }

    /// The position of the entry with key `k`, if there is one.
    pub fn find(&self, k: &String) -> (r: Option<usize>)
        ensures
            keys_distinct(self@),
            r matches Some(i) ==> i < self@.len() && self@[i as int].0 == k@,
            r is None <==> !has_key(self@, k@),
    {
        proof { use_type_invariant(self); }
        let mut j: usize = 0;
        while j < self.entries.len()
            invariant
                j <= self.entries@.len(),
                self@.len() == self.entries@.len(),
                forall|m: int| 0 <= m < j ==> #[trigger] self@[m].0 != k@,
                keys_distinct(self@),
            decreases self.entries@.len() - j,
        {
            if self.entries[j].0 == *k {
                assert(self@[j as int].0 == k@);
                return Some(j);
            }
            j = j + 1;
        }
        None
    }

    /// The value stored under `k`, if any.
    pub fn get(&self, k: &String) -> (r: Option<&V>)
        ensures
            match r {
                Some(v) => lookup(self@, k@) == Some(*v),
                None => lookup(self@, k@) is None,
            },
    {
        match self.find(k) {
            Some(i) => {
                proof { lemma_lookup_at(self@, i as int); }
                Some(&self.entries[i].1)
            },
            None => None,
        }
    }

    /// Whether some entry has key `k`.
    pub fn contains_key(&self, k: &String) -> (b: bool)
        ensures
            b == has_key(self@, k@),
    {
        self.find(k).is_some()
    }

    /// Stores `v` under `k`, replacing the value of an existing entry in its place.
    pub fn insert(&mut self, k: String, v: V)
        ensures
            final(self)@ == insert_entry(old(self)@, k@, v),
            keys_distinct(old(self)@),
            keys_distinct(final(self)@),
    {
        match self.find(&k) {
            Some(i) => {
                let ghost kv = k@;
                let _ = self.remove_at(i);
                self.insert_at(i, k, v);
                proof {
                    lemma_choose_at(old(self)@, i as int);
                    assert(final(self)@ =~= old(self)@.update(i as int, (kv, v)));
                }
            },
            None => {
                let n = self.len();
                self.insert_at(n, k, v);
            },
        }
    }

    /// The keys, in entry order.
    pub fn keys(&self) -> (ks: Vec<String>)
        ensures
            ks@.len() == self@.len(),
            forall|i: int| 0 <= i < self@.len() ==> #[trigger] ks@[i]@ == self@[i].0,
    {
        let mut ks: Vec<String> = Vec::new();
        let mut j: usize = 0;
        while j < self.entries.len()
            invariant
                j <= self.entries@.len(),
                self@.len() == self.entries@.len(),
                ks@.len() == j,
                forall|i: int| 0 <= i < j ==> #[trigger] ks@[i]@ == self@[i].0,
            decreases self.entries@.len() - j,
        {
            ks.push(self.entries[j].0.clone());
            j = j + 1;
        }
        ks
    }

    pub fn key_at(&self, i: usize) -> (k: &String)
        requires
            i < self@.len(),
        ensures
            k@ == self@[i as int].0,
    {
        &self.entries[i].0
    }

    pub fn value_at(&self, i: usize) -> (v: &V)
        requires
            i < self@.len(),
        ensures
            *v == self@[i as int].1,
    {
        &self.entries[i].1
    }

    /// Removes the entry at position `i` and hands it out.
    pub fn remove_at(&mut self, i: usize) -> (e: (String, V))
        requires
            i < old(self)@.len(),
        ensures
            keys_distinct(old(self)@),
            e.0@ == old(self)@[i as int].0,
            e.1 == old(self)@[i as int].1,
            final(self)@ == old(self)@.remove(i as int),
    {
        proof { use_type_invariant(&*self); }
        let ghost before = self@;
        let mut entries = Vec::new();
        std::mem::swap(&mut entries, &mut self.entries);
        let e = entries.remove(i);
        assert(entries_view(entries@) =~= before.remove(i as int));
        assert forall|a: int, b: int|
            0 <= a < entries@.len() && 0 <= b < entries@.len() && a != b implies
            #[trigger] entries_view(entries@)[a].0 != #[trigger] entries_view(entries@)[b].0 by {
            let a0 = if a < i { a } else { a + 1 };
            let b0 = if b < i { b } else { b + 1 };
            assert(before[a0].0 != before[b0].0);
        }
        self.entries = entries;
        assert(self@ =~= before.remove(i as int));
        e
    }

    /// Puts an entry whose key is not yet present at position `i`.
    pub fn insert_at(&mut self, i: usize, k: String, v: V)
        requires
            i <= old(self)@.len(),
            !has_key(old(self)@, k@),
        ensures
            final(self)@ == old(self)@.insert(i as int, (k@, v)),
    {
        proof { use_type_invariant(&*self); }
        let ghost before = self@;
        let ghost kv = k@;
        let mut entries = Vec::new();
        std::mem::swap(&mut entries, &mut self.entries);
        entries.insert(i, (k, v));
        assert(entries_view(entries@) =~= before.insert(i as int, (kv, v)));
        assert forall|a: int, b: int|
            0 <= a < entries@.len() && 0 <= b < entries@.len() && a != b implies
            #[trigger] entries_view(entries@)[a].0 != #[trigger] entries_view(entries@)[b].0 by {
            if a != i && b != i {
                let a0 = if a < i { a } else { a - 1 };
                let b0 = if b < i { b } else { b - 1 };
                assert(before[a0].0 != before[b0].0);
            } else if a == i {
                let b0 = if b < i { b } else { b - 1 };
                assert(before[b0].0 == entries_view(entries@)[b].0);
            } else {
                let a0 = if a < i { a } else { a - 1 };
                assert(before[a0].0 == entries_view(entries@)[a].0);
            }
        }
        self.entries = entries;
        assert(self@ =~= before.insert(i as int, (kv, v)));
    }
}

impl<V: Clone> Clone for StrMap<V> {
    fn clone(&self) -> (m: Self)
        ensures
            m@.len() == self@.len(),
            forall|i: int| 0 <= i < self@.len() ==> #[trigger] m@[i].0 == self@[i].0,
            forall|i: int| 0 <= i < self@.len() ==> cloned(self@[i].1, #[trigger] m@[i].1),
    {
        proof { use_type_invariant(self); }
        let mut entries: Vec<(String, V)> = Vec::new();
        let mut j: usize = 0;
        while j < self.entries.len()
            invariant
                j <= self.entries@.len(),
                self@.len() == self.entries@.len(),
                keys_distinct(self@),
                entries@.len() == j,
                forall|i: int| 0 <= i < j ==> #[trigger] entries_view(entries@)[i].0 == self@[i].0 && cloned(self@[i].1, entries_view(entries@)[i].1),
            decreases self.entries@.len() - j,
        {
            let k = self.entries[j].0.clone();
            let v = self.entries[j].1.clone();
            let ghost prev = entries@;
            entries.push((k, v));
            assert(entries@ == prev.push((k, v)));
            assert(entries_view(entries@) =~= entries_view(prev).push((k@, v)));
            j = j + 1;
        }
        assert forall|a: int, b: int|
            0 <= a < entries@.len() && 0 <= b < entries@.len() && a != b implies
            #[trigger] entries_view(entries@)[a].0 != #[trigger] entries_view(entries@)[b].0 by {
            assert(self@[a].0 != self@[b].0);
        }
        let m = StrMap { entries };
        assert(m@ == entries_view(entries@));
        assert forall|i: int| 0 <= i < self@.len() implies #[trigger] m@[i].0 == self@[i].0 by {
            assert(entries_view(entries@)[i].0 == self@[i].0);
        }
        assert forall|i: int| 0 <= i < self@.len() implies cloned(self@[i].1, #[trigger] m@[i].1) by {
            assert(entries_view(entries@)[i].0 == self@[i].0);
        }
        m
    }
}

} // verus!
