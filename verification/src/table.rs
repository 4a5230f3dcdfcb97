//! A map kept as a list of entries with distinct keys.
use vstd::prelude::*;

use crate::net::{IpAddr, SocketAddr};

verus! {

/// A key of a [`Table`]: comparable and copyable through its view.
pub trait Key: View + Sized {
    fn same(&self, other: &Self) -> (b: bool)
        ensures
            b == (self@ == other@),
    ;

    fn copy(&self) -> (k: Self)
        ensures
            k@ == self@,
    ;
}

impl View for IpAddr {
    type V = IpAddr;

    open spec fn view(&self) -> IpAddr {
        *self
    }
}

impl View for SocketAddr {
    type V = SocketAddr;

    open spec fn view(&self) -> SocketAddr {
        *self
    }
}

impl Key for IpAddr {
    fn same(&self, other: &Self) -> (b: bool) {
        *self == *other
    }

    fn copy(&self) -> (k: Self) {
        *self
    }
}

impl Key for SocketAddr {
    fn same(&self, other: &Self) -> (b: bool) {
        *self == *other
    }

    fn copy(&self) -> (k: Self) {
        *self
    }
}

impl Key for String {
    fn same(&self, other: &Self) -> (b: bool) {
        *self == *other
    }

    fn copy(&self) -> (k: Self) {
        self.clone()
    }
}

/// Keys of a list of entries, in order.
pub open spec fn keys_of<K: Key, V>(s: Seq<(K, V)>) -> Seq<K::V> {
    Seq::new(s.len(), |i: int| s[i].0@)
}

/// The map that a list of entries with distinct keys stands for.
pub open spec fn map_of<K: Key, V>(s: Seq<(K, V)>) -> Map<K::V, V> {
    Map::new(|k: K::V| keys_of(s).contains(k), |k: K::V| s[keys_of(s).index_of(k)].1)
}

/// An entry of the list is an entry of the map.
pub proof fn lemma_entry<K: Key, V>(s: Seq<(K, V)>, i: int)
    requires
        keys_of(s).no_duplicates(),
        0 <= i < s.len(),
    ensures
        map_of(s).contains_key(s[i].0@),
        map_of(s)[s[i].0@] == s[i].1,
{
    let ks = keys_of(s);
    assert(ks[i] == s[i].0@);
    assert(ks.contains(ks[i]));
    assert(ks[ks.index_of(ks[i])] == ks[i]);
}

/// The map has as many keys as the list has entries.
pub proof fn lemma_size<K: Key, V>(s: Seq<(K, V)>)
    requires
        keys_of(s).no_duplicates(),
    ensures
        map_of(s).dom().finite(),
        map_of(s).dom().len() == s.len(),
{
    let ks = keys_of(s);
    assert(map_of(s).dom() =~= ks.to_set());
    ks.unique_seq_to_set();
    vstd::seq_lib::seq_to_set_is_finite(ks);
}

/// Appending an entry with a new key inserts it.
proof fn lemma_push<K: Key, V>(s: Seq<(K, V)>, k: K, v: V)
    requires
        keys_of(s).no_duplicates(),
        !keys_of(s).contains(k@),
    ensures
        keys_of(s.push((k, v))).no_duplicates(),
        map_of(s.push((k, v))) == map_of(s).insert(k@, v),
{
    let t = s.push((k, v));
    assert(keys_of(t) =~= keys_of(s).push(k@));
    assert(keys_of(t).no_duplicates());
    lemma_entry(t, s.len() as int);
    assert forall|x: K::V| map_of(t).contains_key(x) == map_of(s).insert(k@, v).contains_key(x) by {
        if keys_of(s).contains(x) {
            let i = keys_of(s).index_of(x);
            assert(keys_of(t)[i] == x);
        }
        if keys_of(t).contains(x) {
            let i = keys_of(t).index_of(x);
            if i < s.len() {
                assert(keys_of(s)[i] == x);
            }
        }
        if x == k@ {
            assert(keys_of(t)[s.len() as int] == x);
        }
    }
    assert forall|x: K::V| map_of(t).contains_key(x) implies map_of(t)[x] == map_of(s).insert(
        k@,
        v,
    )[x] by {
        let i = keys_of(t).index_of(x);
        if i < s.len() {
            lemma_entry(s, i);
            assert(keys_of(s)[i] == x);
            assert(keys_of(s).contains(x));
        }
    }
    assert(map_of(t) =~= map_of(s).insert(k@, v));
}

/// Replacing the value of an entry replaces it in the map.
pub proof fn lemma_update<K: Key, V>(s: Seq<(K, V)>, i: int, k: K, v: V)
    requires
        keys_of(s).no_duplicates(),
        0 <= i < s.len(),
        k@ == s[i].0@,
    ensures
        keys_of(s.update(i, (k, v))).no_duplicates(),
        map_of(s.update(i, (k, v))) == map_of(s).insert(k@, v),
{
    let t = s.update(i, (k, v));
    assert(keys_of(t) =~= keys_of(s));
    lemma_entry(s, i);
    assert forall|x: K::V| map_of(t).contains_key(x) implies map_of(t)[x] == map_of(s).insert(
        k@,
        v,
    )[x] by {
        let j = keys_of(t).index_of(x);
        assert(keys_of(t)[j] == x);
        lemma_entry(t, j);
        lemma_entry(s, j);
        if j != i {
            assert(keys_of(t)[i] == k@);
            assert(x != k@);
        }
    }
    assert(map_of(t) =~= map_of(s).insert(k@, v));
}

/// Removing an entry removes its key.
proof fn lemma_remove<K: Key, V>(s: Seq<(K, V)>, i: int)
    requires
        keys_of(s).no_duplicates(),
        0 <= i < s.len(),
    ensures
        keys_of(s.remove(i)).no_duplicates(),
        map_of(s.remove(i)) == map_of(s).remove(s[i].0@),
{
    let t = s.remove(i);
    let k = s[i].0@;
    assert(keys_of(t) =~= keys_of(s).remove(i));
    assert(keys_of(s)[i] == k);
    assert forall|a: int, b: int| 0 <= a < b < t.len() implies keys_of(t)[a] != keys_of(t)[b] by {
        let a2 = if a < i { a } else { a + 1 };
        let b2 = if b < i { b } else { b + 1 };
        assert(keys_of(s)[a2] != keys_of(s)[b2]);
    }
    assert forall|x: K::V| map_of(t).contains_key(x) == map_of(s).remove(k).contains_key(x) by {
        if keys_of(t).contains(x) {
            let j = keys_of(t).index_of(x);
            assert(keys_of(t)[j] == x);
            let j2 = if j < i { j } else { j + 1 };
            assert(keys_of(s)[j2] == x);
            assert(keys_of(s).contains(x));
            assert(x != k);
        }
        if keys_of(s).contains(x) && x != k {
            let j = keys_of(s).index_of(x);
            assert(keys_of(s)[j] == x);
            let j2 = if j < i { j } else { j - 1 };
            assert(keys_of(t)[j2] == x);
            assert(keys_of(t).contains(x));
        }
    }
    assert forall|x: K::V| map_of(t).contains_key(x) implies map_of(t)[x] == map_of(s).remove(
        k,
    )[x] by {
        let j = keys_of(t).index_of(x);
        assert(keys_of(t)[j] == x);
        let j2 = if j < i { j } else { j + 1 };
        assert(t[j] == s[j2]);
        lemma_entry(t, j);
        lemma_entry(s, j2);
    }
    assert(map_of(t) =~= map_of(s).remove(k));
}

/// A finite map from the views of `K` to `V`.
pub struct Table<K: Key, V> {
    pub entries: Vec<(K, V)>,
}

impl<K: Key, V> View for Table<K, V> {
    type V = Map<K::V, V>;

    open spec fn view(&self) -> Map<K::V, V> {
        map_of(self.entries@)
    }
}

impl<K: Key, V> Table<K, V> {
    /// No key occurs twice.
    pub open spec fn wf(&self) -> bool {
        keys_of(self.entries@).no_duplicates()
    }

    pub fn new() -> (t: Self)
        ensures
            t.wf(),
            t@ == Map::<K::V, V>::empty(),
    {
        let t = Table { entries: Vec::new() };
        assert(t@ =~= Map::<K::V, V>::empty());
        t
    }

    pub fn len(&self) -> (n: usize)
        requires
            self.wf(),
        ensures
            self@.dom().finite(),
            n == self@.dom().len(),
    {
        proof {
            lemma_size(self.entries@);
        }
        self.entries.len()
    }

    pub fn is_empty(&self) -> (b: bool)
        requires
            self.wf(),
        ensures
            b == (self@ == Map::<K::V, V>::empty()),
    {
        let b = self.entries.len() == 0;
        proof {
            if b {
                assert(self@ =~= Map::<K::V, V>::empty());
            } else {
                lemma_entry(self.entries@, 0);
            }
        }
        b
    }

    /// Position of a key.
    pub fn find(&self, k: &K) -> (r: Option<usize>)
        requires
            self.wf(),
        ensures
            match r {
                Some(i) => i < self.entries@.len() && self.entries@[i as int].0@ == k@
                    && self@.contains_key(k@) && self@[k@] == self.entries@[i as int].1,
                None => !self@.contains_key(k@),
            },
    {
        let mut i: usize = 0;
        while i < self.entries.len()
            invariant
                self.wf(),
                i <= self.entries@.len(),
                forall|j: int| 0 <= j < i ==> keys_of(self.entries@)[j] != k@,
            decreases self.entries@.len() - i,
        {
            if self.entries[i].0.same(k) {
                proof {
                    lemma_entry(self.entries@, i as int);
                }
                return Some(i);
            }
            i = i + 1;
        }
        None
    }

    pub fn get(&self, k: &K) -> (r: Option<&V>)
        requires
            self.wf(),
        ensures
            r == (if self@.contains_key(k@) {
                Some(&self@[k@])
            } else {
                None
            }),
    {
        match self.find(k) {
            Some(i) => Some(&self.entries[i].1),
            None => None,
        }
    }

    pub fn contains_key(&self, k: &K) -> (b: bool)
        requires
            self.wf(),
        ensures
            b == self@.contains_key(k@),
    {
        self.find(k).is_some()
    }

    /// Sets the value of a key, in place when the key is present; returns the
    /// value it had.
    pub fn insert(&mut self, k: K, v: V) -> (r: Option<V>)
        requires
            old(self).wf(),
        ensures
            final(self).wf(),
            final(self)@ == old(self)@.insert(k@, v),
            r == (if old(self)@.contains_key(k@) {
                Some(old(self)@[k@])
            } else {
                None
            }),
    {
        match self.find(&k) {
            Some(i) => {
                let ghost s = self.entries@;
                let mut e = (k, v);
                proof {
                    lemma_update(s, i as int, k, v);
                }
                std::mem::swap(&mut self.entries[i], &mut e);
                assert(self.entries@ =~= s.update(i as int, (k, v)));
                Some(e.1)
            },
            None => {
                proof {
                    lemma_push(self.entries@, k, v);
                }
                self.entries.push((k, v));
                None
            },
        }
    }

    /// Removes a key; returns the value it had.
    pub fn remove(&mut self, k: &K) -> (r: Option<V>)
        requires
            old(self).wf(),
        ensures
            final(self).wf(),
            final(self)@ == old(self)@.remove(k@),
            r == (if old(self)@.contains_key(k@) {
                Some(old(self)@[k@])
            } else {
                None
            }),
    {
        match self.find(k) {
            Some(i) => {
                proof {
                    lemma_remove(self.entries@, i as int);
                }
                let e = self.entries.remove(i);
                Some(e.1)
            },
            None => {
                assert(self@.remove(k@) =~= self@);
                None
            },
        }
    }
}

} // verus!
