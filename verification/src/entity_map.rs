//! An ordered map from entities (by their bit representation) to small values.
use vstd::prelude::*;

verus! {

/// The keys of a sequence of entries, in order.
pub open spec fn keys_of<V>(s: Seq<(u64, V)>) -> Seq<u64> {
    s.map_values(|e: (u64, V)| e.0)
}

/// Whether some entry of `s` has key `k`.
pub open spec fn has_key<V>(s: Seq<(u64, V)>, k: u64) -> bool {
    exists|i: int| 0 <= i < s.len() && #[trigger] s[i].0 == k
}

/// No two entries of `s` share a key.
pub open spec fn distinct_keys<V>(s: Seq<(u64, V)>) -> bool {
    forall|i: int, j: int| 0 <= i < s.len() && 0 <= j < s.len() && i != j ==> #[trigger] s[i].0 != #[trigger] s[j].0
}

/// The position of an entry with key `k`, where there is one.
pub open spec fn key_index<V>(s: Seq<(u64, V)>, k: u64) -> int {
    choose|i: int| 0 <= i < s.len() && #[trigger] s[i].0 == k
}

/// The value stored under `k`, if any.
pub open spec fn lookup<V>(s: Seq<(u64, V)>, k: u64) -> Option<V> {
    if has_key(s, k) { Some(s[key_index(s, k)].1) } else { None }
}

/// The entries after storing `v` under `k`: in place where `k` is present,
/// else at the end.
pub open spec fn inserted<V>(s: Seq<(u64, V)>, k: u64, v: V) -> Seq<(u64, V)> {
    if has_key(s, k) { s.update(key_index(s, k), (k, v)) } else { s.push((k, v)) }
}

/// The entries after removing the one with key `k`, if any.
pub open spec fn removed<V>(s: Seq<(u64, V)>, k: u64) -> Seq<(u64, V)> {
    if has_key(s, k) { s.remove(key_index(s, k)) } else { s }
}

/// With distinct keys, the entry at `i` with key `k` is the one that
/// [`key_index`] names.
pub proof fn lemma_key_index_unique<V>(s: Seq<(u64, V)>, k: u64, i: int)
    requires
        distinct_keys(s),
        0 <= i < s.len(),
        s[i].0 == k,
    ensures
        has_key(s, k),
        key_index(s, k) == i,
{
    assert(has_key(s, k));
    let j = key_index(s, k);
    assert(s[j].0 == k);
}

/// Whether `keys` holds `k`.
pub fn vec_contains(keys: &Vec<u64>, k: u64) -> (r: bool)
    ensures
        r == keys@.contains(k),
{
    let mut i: usize = 0;
    while i < keys.len()
        invariant
            i <= keys.len(),
            forall|j: int| 0 <= j < i ==> keys@[j] != k,
        decreases keys.len() - i,
    {
        if keys[i] == k {
            return true;
        }
        i = i + 1;
    }
    false
}

/// A map keyed by entities that keeps its entries in insertion order, with
/// every key at most once.
pub struct EntityMap<V> {
    entries: Vec<(u64, V)>,
}

impl<V: Copy> EntityMap<V> {
    /// The entries, in order.
    pub closed spec fn entries(&self) -> Seq<(u64, V)> {
        self.entries@
    }

    /// Every key occurs at most once.
    pub open spec fn wf(&self) -> bool {
        distinct_keys(self.entries())
    }

    /// Whether the map has key `k`.
    pub open spec fn spec_contains(&self, k: u64) -> bool {
        has_key(self.entries(), k)
    }

    pub fn new() -> (m: Self)
        ensures
            m.entries() == Seq::<(u64, V)>::empty(),
            m.wf(),
    {
        EntityMap { entries: Vec::new() }
    }

    pub fn len(&self) -> (n: usize)
        ensures
            n == self.entries().len(),
    {
        self.entries.len()
    }

    /// The entry at position `i`.
    pub fn entry(&self, i: usize) -> (e: (u64, V))
        requires
            i < self.entries().len(),
        ensures
            e == self.entries()[i as int],
    {
        self.entries[i]
    }

    /// The position of the entry with key `k`.
    pub fn find(&self, k: u64) -> (r: Option<usize>)
        ensures
            match r {
                Some(i) => i < self.entries().len() && self.entries()[i as int].0 == k,
                None => !self.spec_contains(k),
            },
    {
        let mut i: usize = 0;
        while i < self.entries.len()
            invariant
                i <= self.entries@.len(),
                forall|j: int| 0 <= j < i ==> #[trigger] self.entries@[j].0 != k,
            decreases self.entries.len() - i,
        {
            if self.entries[i].0 == k {
                return Some(i);
            }
            i = i + 1;
        }
        None
    }

    pub fn contains_key(&self, k: u64) -> (b: bool)
        ensures
            b == self.spec_contains(k),
    {
        self.find(k).is_some()
    }

    /// The value stored under `k`.
    pub fn get(&self, k: u64) -> (r: Option<V>)
        requires
            self.wf(),
        ensures
            match r {
                Some(v) => exists|i: int|
                    0 <= i < self.entries().len() && #[trigger] self.entries()[i] == (k, v),
                None => !self.spec_contains(k),
            },
            r == lookup(self.entries(), k),
    {
        match self.find(k) {
            Some(i) => {
                let v = self.entries[i].1;
                assert(self.entries()[i as int] == (k, v));
                proof {
                    lemma_key_index_unique(self.entries(), k, i as int);
                }
                Some(v)
            },
            None => None,
        }
    }

    /// Stores `v` under `k`: in place where `k` is present, else at the end.
    pub fn insert(&mut self, k: u64, v: V)
        requires
            old(self).wf(),
        ensures
            final(self).wf(),
            old(self).spec_contains(k) ==> exists|i: int|
                0 <= i < old(self).entries().len() && old(self).entries()[i].0 == k
                    && final(self).entries() == #[trigger] old(self).entries().update(i, (k, v)),
            !old(self).spec_contains(k) ==> final(self).entries() == old(self).entries().push((k, v)),
            final(self).entries() == inserted(old(self).entries(), k, v),
    {
        match self.find(k) {
            Some(i) => {
                proof {
                    lemma_key_index_unique(old(self).entries(), k, i as int);
                }
                self.entries.set(i, (k, v));
                assert(self.entries@ == old(self).entries@.update(i as int, (k, v)));
            },
            None => {
                self.entries.push((k, v));
                assert forall|a: int, b: int|
                    0 <= a < self.entries@.len() && 0 <= b < self.entries@.len() && a != b
                    implies #[trigger] self.entries@[a].0 != #[trigger] self.entries@[b].0 by {
                    if a == old(self).entries@.len() as int {
                        assert(old(self).entries@[b].0 == self.entries@[b].0);
                    } else if b == old(self).entries@.len() as int {
                        assert(old(self).entries@[a].0 == self.entries@[a].0);
                    }
                }
            },
        }
    }

    /// Removes the entry with key `k`, returning its value.
    pub fn remove(&mut self, k: u64) -> (r: Option<V>)
        requires
            old(self).wf(),
        ensures
            final(self).wf(),
            match r {
                Some(v) => exists|i: int|
                    0 <= i < old(self).entries().len() && old(self).entries()[i] == (k, v)
                        && final(self).entries() == #[trigger] old(self).entries().remove(i),
                None => !old(self).spec_contains(k) && final(self).entries() == old(self).entries(),
            },
            final(self).entries() == removed(old(self).entries(), k),
    {
        match self.find(k) {
            Some(i) => {
                proof {
                    lemma_key_index_unique(old(self).entries(), k, i as int);
                }
                let e = self.entries.remove(i);
                assert(old(self).entries@[i as int] == (k, e.1));
                assert(self.entries@ == old(self).entries@.remove(i as int));
                assert forall|a: int, b: int|
                    0 <= a < self.entries@.len() && 0 <= b < self.entries@.len() && a != b
                    implies #[trigger] self.entries@[a].0 != #[trigger] self.entries@[b].0 by {
                    let oa = if a < i { a } else { a + 1 };
                    let ob = if b < i { b } else { b + 1 };
                    assert(self.entries@[a] == old(self).entries@[oa]);
                    assert(self.entries@[b] == old(self).entries@[ob]);
                }
                Some(e.1)
            },
            None => None,
        }
    }

    /// Removes every entry.
    pub fn clear(&mut self)
        ensures
            final(self).entries() == Seq::<(u64, V)>::empty(),
            final(self).wf(),
    {
        self.entries.clear();
    }

    /// Keeps exactly the entries whose key is in `keys` when `keep_listed`
    /// holds, or exactly those whose key is not in `keys` otherwise, in order.
    pub fn retain_listed(&mut self, keys: &Vec<u64>, keep_listed: bool)
        requires
            old(self).wf(),
        ensures
            final(self).wf(),
            final(self).entries() == old(self).entries().filter(
                |e: (u64, V)| keys@.contains(e.0) == keep_listed,
            ),
    {
        let ghost pred = |e: (u64, V)| keys@.contains(e.0) == keep_listed;
        let ghost old_entries = self.entries@;
        let mut kept: Vec<(u64, V)> = Vec::new();
        let mut i: usize = 0;
        while i < self.entries.len()
            invariant
                i <= self.entries@.len(),
                self.entries@ == old_entries,
                distinct_keys(old_entries),
                pred == (|e: (u64, V)| keys@.contains(e.0) == keep_listed),
                kept@ == old_entries.subrange(0, i as int).filter(pred),
                distinct_keys(kept@),
                forall|j: int| 0 <= j < kept@.len() ==> exists|t: int| 0 <= t < i && #[trigger] old_entries[t].0 == #[trigger] kept@[j].0,
            decreases self.entries.len() - i,
        {
            let e = self.entries[i];
            proof {
                assert(old_entries.subrange(0, i as int + 1) == old_entries.subrange(0, i as int).push(e));
                old_entries.subrange(0, i as int).lemma_filter_push(e, pred);
            }
            let listed = vec_contains(keys, e.0);
            proof {
                assert(pred(e) == (listed == keep_listed));
            }
            if listed == keep_listed {
                proof {
                    assert forall|j: int| 0 <= j < kept@.len() implies #[trigger] kept@[j].0 != e.0 by {
                        let t = choose|t: int| 0 <= t < i && #[trigger] old_entries[t].0 == kept@[j].0;
                        assert(old_entries[i as int] == e);
                    }
                }
                kept.push(e);
                proof {
                    assert forall|a: int, b: int|
                        0 <= a < kept@.len() && 0 <= b < kept@.len() && a != b
                        implies #[trigger] kept@[a].0 != #[trigger] kept@[b].0 by {
                        if a == kept@.len() - 1 {
                            assert(kept@[b].0 != e.0);
                        } else if b == kept@.len() - 1 {
                            assert(kept@[a].0 != e.0);
                        }
                    }
                    assert forall|j: int| 0 <= j < kept@.len() implies exists|t: int| 0 <= t < i + 1 && #[trigger] old_entries[t].0 == #[trigger] kept@[j].0 by {
                        if j == kept@.len() - 1 {
                            assert(old_entries[i as int].0 == kept@[j].0);
                        } else {
                            let t = choose|t: int| 0 <= t < i && #[trigger] old_entries[t].0 == kept@[j].0;
                            assert(old_entries[t].0 == kept@[j].0);
                        }
                    }
                }
            }
            assert(kept@ == old_entries.subrange(0, i as int + 1).filter(pred));
            i = i + 1;
        }
        assert(old_entries.subrange(0, i as int) == old_entries);
        self.entries = kept;
    }
}

/// A read gives back what the last write stored: after storing `v` under
/// `k`, looking up `k` gives `v`, and every other key gives what it gave
/// before; the keys stay distinct.
pub proof fn lemma_lookup_after_insert<V>(s: Seq<(u64, V)>, k: u64, v: V, other: u64)
    requires
        distinct_keys(s),
    ensures
        distinct_keys(inserted(s, k, v)),
        lookup(inserted(s, k, v), k) == Some(v),
        other != k ==> lookup(inserted(s, k, v), other) == lookup(s, other),
{
    let t = inserted(s, k, v);
    if has_key(s, k) {
        let i = key_index(s, k);
        assert(t[i].0 == k);
        assert forall|a: int, b: int| 0 <= a < t.len() && 0 <= b < t.len() && a != b implies
            #[trigger] t[a].0 != #[trigger] t[b].0 by {
            if a != i && b != i {
                assert(s[a].0 != s[b].0);
            } else if a == i {
                assert(s[b].0 != s[i].0);
            } else {
                assert(s[a].0 != s[i].0);
            }
        }
        lemma_key_index_unique(t, k, i);
        if other != k && has_key(s, other) {
            let j = key_index(s, other);
            assert(j != i);
            assert(t[j] == s[j]);
            lemma_key_index_unique(t, other, j);
        }
        if other != k && has_key(t, other) {
            let j = key_index(t, other);
            assert(s[j].0 == other);
        }
    } else {
        let n = s.len() as int;
        assert(t[n].0 == k);
        assert forall|a: int, b: int| 0 <= a < t.len() && 0 <= b < t.len() && a != b implies
            #[trigger] t[a].0 != #[trigger] t[b].0 by {
            if a == n {
                assert(t[b] == s[b]);
                assert(!(s[b].0 == k));
            } else if b == n {
                assert(t[a] == s[a]);
                assert(!(s[a].0 == k));
            } else {
                assert(s[a].0 != s[b].0);
            }
        }
        lemma_key_index_unique(t, k, n);
        if other != k && has_key(s, other) {
            let j = key_index(s, other);
            assert(t[j] == s[j]);
            lemma_key_index_unique(t, other, j);
        }
        if other != k && has_key(t, other) {
            let j = key_index(t, other);
            assert(j != n);
            assert(s[j].0 == other);
        }
    }
}

/// After removing `k`, looking up `k` gives nothing, and every other key
/// gives what it gave before; the keys stay distinct.
pub proof fn lemma_lookup_after_remove<V>(s: Seq<(u64, V)>, k: u64, other: u64)
    requires
        distinct_keys(s),
    ensures
        distinct_keys(removed(s, k)),
        lookup(removed(s, k), k) is None,
        other != k ==> lookup(removed(s, k), other) == lookup(s, other),
{
    let t = removed(s, k);
    if has_key(s, k) {
        let i = key_index(s, k);
        assert(s[i].0 == k);
        assert forall|a: int, b: int| 0 <= a < t.len() && 0 <= b < t.len() && a != b implies
            #[trigger] t[a].0 != #[trigger] t[b].0 by {
            let oa = if a < i { a } else { a + 1 };
            let ob = if b < i { b } else { b + 1 };
            assert(t[a] == s[oa]);
            assert(t[b] == s[ob]);
        }
        if has_key(t, k) {
            let j = key_index(t, k);
            let oj = if j < i { j } else { j + 1 };
            assert(t[j] == s[oj]);
            assert(false);
        }
        if other != k && has_key(s, other) {
            let j = key_index(s, other);
            assert(j != i);
            let tj = if j < i { j } else { j - 1 };
            assert(t[tj] == s[j]);
            lemma_key_index_unique(t, other, tj);
        }
        if other != k && has_key(t, other) {
            let j = key_index(t, other);
            let oj = if j < i { j } else { j + 1 };
            assert(t[j] == s[oj]);
            lemma_key_index_unique(s, other, oj);
        }
    }
}

} // verus!
