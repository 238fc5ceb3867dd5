//! An insertion-ordered map over keys that are compared by their views.

use vstd::prelude::*;

verus! {

/// A value that can be copied without changing what it stands for.
pub trait Model: View + Sized {
    /// A copy with the same view.
    fn duplicate(&self) -> (r: Self)
        ensures
            r@ == self@,
    ;
}

/// A value that can serve as a key: equality is decided on views.
pub trait Key: Model {
    /// Whether both keys have the same view.
    fn matches(&self, other: &Self) -> (b: bool)
        ensures
            b == (self@ == other@),
    ;
}

/// Whether some entry of `s` has key `k`.
pub open spec fn has_key<K, V>(s: Seq<(K, V)>, k: K) -> bool {
    exists|i: int| 0 <= i < s.len() && (#[trigger] s[i]).0 == k
}

/// The position of an entry with key `k`, if there is one.
pub open spec fn position<K, V>(s: Seq<(K, V)>, k: K) -> int {
    choose|i: int| 0 <= i < s.len() && (#[trigger] s[i]).0 == k
}

/// The value stored under `k`; arbitrary when `k` is absent.
pub open spec fn value_of<K, V>(s: Seq<(K, V)>, k: K) -> V {
    s[position(s, k)].1
}

/// No two entries share a key.
pub open spec fn distinct_keys<K, V>(s: Seq<(K, V)>) -> bool {
    forall|i: int, j: int|
        0 <= i < j < s.len() ==> (#[trigger] s[i]).0 != (#[trigger] s[j]).0
}

/// `s` after storing `v` under `k`: an existing entry is replaced where it
/// stands, a new one goes to the end.
pub open spec fn stored<K, V>(s: Seq<(K, V)>, k: K, v: V) -> Seq<(K, V)> {
    if has_key(s, k) {
        s.update(position(s, k), (k, v))
    } else {
        s.push((k, v))
    }
}

/// The entries as a mathematical map.
pub open spec fn as_map<K, V>(s: Seq<(K, V)>) -> Map<K, V> {
    Map::new(|k: K| has_key(s, k), |k: K| value_of(s, k))
}

/// With distinct keys, an entry's own position is the position of its key.
pub proof fn lemma_position<K, V>(s: Seq<(K, V)>, i: int)
    requires
        distinct_keys(s),
        0 <= i < s.len(),
    ensures
        has_key(s, s[i].0),
        position(s, s[i].0) == i,
        value_of(s, s[i].0) == s[i].1,
{
    let k = s[i].0;
    assert(has_key(s, k));
    let p = position(s, k);
    assert(0 <= p < s.len() && s[p].0 == k);
    if p < i {
        assert(s[p].0 != s[i].0);
    } else if i < p {
        assert(s[i].0 != s[p].0);
    }
}

/// Storing keeps keys distinct, makes `k` map to `v`, and leaves every
/// other key as it was.
pub proof fn lemma_stored<K, V>(s: Seq<(K, V)>, k: K, v: V)
    requires
        distinct_keys(s),
    ensures
        distinct_keys(stored(s, k, v)),
        has_key(stored(s, k, v), k),
        value_of(stored(s, k, v), k) == v,
        forall|o: K| o != k ==> has_key(stored(s, k, v), o) == has_key(s, o),
        forall|o: K| o != k && has_key(s, o) ==> value_of(stored(s, k, v), o) == value_of(s, o),
{
    let t = stored(s, k, v);
    if has_key(s, k) {
        let p = position(s, k);
        assert(t.len() == s.len());
        assert forall|i: int| 0 <= i < t.len() implies (#[trigger] t[i]).0 == s[i].0 by {}
        assert(distinct_keys(t)) by {
            assert forall|i: int, j: int| 0 <= i < j < t.len() implies (#[trigger] t[i]).0 != (
            #[trigger] t[j]).0 by {
                assert(s[i].0 != s[j].0);
            }
        }
        assert(t[p].0 == k);
        lemma_position(t, p);
        assert forall|o: K| o != k implies has_key(t, o) == has_key(s, o) by {
            if has_key(s, o) {
                let q = position(s, o);
                assert(t[q].0 == o);
            }
            if has_key(t, o) {
                let q = position(t, o);
                assert(s[q].0 == o);
            }
        }
        assert forall|o: K| o != k && has_key(s, o) implies value_of(t, o) == value_of(s, o) by {
            let q = position(s, o);
            lemma_position(s, q);
            assert(t[q] == s[q]);
            lemma_position(t, q);
        }
    } else {
        assert(t.len() == s.len() + 1);
        assert(t[s.len() as int] == (k, v));
        assert(distinct_keys(t)) by {
            assert forall|i: int, j: int| 0 <= i < j < t.len() implies (#[trigger] t[i]).0 != (
            #[trigger] t[j]).0 by {
                if j < s.len() {
                    assert(s[i].0 != s[j].0);
                } else {
                    assert(t[i] == s[i]);
                    if s[i].0 == k {
                        assert(has_key(s, k));
                    }
                }
            }
        }
        lemma_position(t, s.len() as int);
        assert forall|o: K| o != k implies has_key(t, o) == has_key(s, o) by {
            if has_key(s, o) {
                let q = position(s, o);
                assert(t[q].0 == o);
            }
            if has_key(t, o) {
                let q = position(t, o);
                assert(q < s.len());
                assert(s[q].0 == o);
            }
        }
        assert forall|o: K| o != k && has_key(s, o) implies value_of(t, o) == value_of(s, o) by {
            let q = position(s, o);
            lemma_position(s, q);
            assert(t[q] == s[q]);
            lemma_position(t, q);
        }
    }
}

/// Storing is insertion into the mathematical map.
pub proof fn lemma_stored_as_map<K, V>(s: Seq<(K, V)>, k: K, v: V)
    requires
        distinct_keys(s),
    ensures
        as_map(stored(s, k, v)) == as_map(s).insert(k, v),
{
    lemma_stored(s, k, v);
    assert(as_map(stored(s, k, v)) =~= as_map(s).insert(k, v));
}

/// A map that remembers the order in which its keys were first stored.
#[derive(Debug)]
pub struct OrderedMap<K: Key, V: Model> {
    entries: Vec<(K, V)>,
}

impl<K: Key, V: Model> View for OrderedMap<K, V> {
    type V = Seq<(K::V, V::V)>;

    closed spec fn view(&self) -> Seq<(K::V, V::V)> {
        Seq::new(self.entries@.len(), |i: int| (self.entries@[i].0@, self.entries@[i].1@))
    }
}

impl<K: Key, V: Model> OrderedMap<K, V> {
    /// Every map has distinct keys.
    #[verifier::type_invariant]
    pub open spec fn well_formed(&self) -> bool {
        distinct_keys(self@)
    }

    /// An empty map.
    pub fn new() -> (m: Self)
        ensures
            m@ == Seq::<(K::V, V::V)>::empty(),
    {
        let m = OrderedMap { entries: Vec::new() };
        assert(m@ =~= Seq::<(K::V, V::V)>::empty());
        m
    }

    /// The number of entries.
    pub fn len(&self) -> (n: usize)
        ensures
            n == self@.len(),
    {
        self.entries.len()
    }

    /// The key of the entry at position `i`.
    pub fn key_at(&self, i: usize) -> (k: &K)
        requires
            i < self@.len(),
        ensures
            k@ == self@[i as int].0,
    {
        &self.entries[i].0
    }

    /// The value of the entry at position `i`.
    pub fn value_at(&self, i: usize) -> (v: &V)
        requires
            i < self@.len(),
        ensures
            v@ == self@[i as int].1,
    {
        &self.entries[i].1
    }

    fn find(&self, key: &K) -> (r: Option<usize>)
        ensures
            match r {
                Some(i) => i < self@.len() && self@[i as int].0 == key@ && has_key(self@, key@)
                    && position(self@, key@) == i,
                None => !has_key(self@, key@),
            },
    {
        proof {
            use_type_invariant(self);
        }
        let mut i: usize = 0;
        while i < self.entries.len()
            invariant
                i <= self.entries@.len(),
                self@.len() == self.entries@.len(),
                distinct_keys(self@),
                forall|j: int| 0 <= j < i ==> (#[trigger] self@[j]).0 != key@,
            decreases self.entries@.len() - i,
        {
            if self.entries[i].0.matches(key) {
                proof {
                    lemma_position(self@, i as int);
                }
                return Some(i);
            }
            i += 1;
        }
        None
    }

    /// Whether `key` has an entry.
    pub fn contains_key(&self, key: &K) -> (b: bool)
        ensures
            b == has_key(self@, key@),
    {
        self.find(key).is_some()
    }

    /// The value stored under `key`, if any.
    pub fn get(&self, key: &K) -> (r: Option<&V>)
        ensures
            match r {
                Some(v) => has_key(self@, key@) && v@ == value_of(self@, key@),
                None => !has_key(self@, key@),
            },
    {
        match self.find(key) {
            Some(i) => Some(&self.entries[i].1),
            None => None,
        }
    }

    /// Stores `value` under `key`. An entry that already has this key keeps
    /// its place and takes the new value; otherwise the entry is appended.
    pub fn insert(&mut self, key: K, value: V)
        ensures
            final(self)@ == stored(old(self)@, key@, value@),
            distinct_keys(final(self)@),
    {
        proof {
            use_type_invariant(&*self);
            lemma_stored(self@, key@, value@);
        }
        let found = self.find(&key);
        // The entries are taken out, changed and put back as a whole.
        let mut held = OrderedMap { entries: Vec::new() };
        assert(held@ =~= Seq::<(K::V, V::V)>::empty());
        core::mem::swap(self, &mut held);
        let mut entries = held.entries;
        match found {
            Some(i) => {
                entries.set(i, (key, value));
            },
            None => {
                entries.push((key, value));
            },
        }
        let ghost target = stored(old(self)@, key@, value@);
        assert(Seq::new(entries@.len(), |i: int| (entries@[i].0@, entries@[i].1@)) =~= target);
        *self = OrderedMap { entries };
    }
}

impl<K: Key, V: Model> Model for OrderedMap<K, V> {
    fn duplicate(&self) -> (r: Self) {
        proof {
            use_type_invariant(self);
        }
        let mut entries: Vec<(K, V)> = Vec::new();
        let mut i: usize = 0;
        while i < self.entries.len()
            invariant
                i <= self.entries@.len(),
                entries@.len() == i,
                forall|j: int|
                    0 <= j < i ==> (#[trigger] entries@[j]).0@ == self.entries@[j].0@
                        && entries@[j].1@ == self.entries@[j].1@,
            decreases self.entries@.len() - i,
        {
            let k = self.entries[i].0.duplicate();
            let v = self.entries[i].1.duplicate();
            entries.push((k, v));
            i += 1;
        }
        let ghost target = self@;
        assert(Seq::new(entries@.len(), |i: int| (entries@[i].0@, entries@[i].1@)) =~= target);
        OrderedMap { entries }
    }
}

impl Model for String {
    fn duplicate(&self) -> (r: Self) {
        self.clone()
    }
}

impl Key for String {
    fn matches(&self, other: &Self) -> (b: bool) {
        *self == *other
    }
}

} // verus!
