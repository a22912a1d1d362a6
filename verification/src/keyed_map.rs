//! A finite map whose keys are compared by their value.
//!
//! Peer identities and socket addresses are keyed by the contents of their
//! values; this map keeps its keys in a vector, with no key twice, and finds
//! them with comparisons whose meaning is proved.
use vstd::prelude::*;
use crate::address::{PeerId, SocketAddress};

verus! {

/// A key that can be compared with another key of its type by value.
pub trait MapKey: View + Sized {
    /// Whether two keys are the same.
    fn same_key(&self, other: &Self) -> (same: bool)
        ensures
            same == (self@ == other@),
    ;
}

impl MapKey for PeerId {
    fn same_key(&self, other: &Self) -> (same: bool) {
        self.same_as(other)
    }
}

impl View for SocketAddress {
    type V = SocketAddress;

    open spec fn view(&self) -> SocketAddress {
        *self
    }
}

impl MapKey for SocketAddress {
    fn same_key(&self, other: &Self) -> (same: bool) {
        *self == *other
    }
}

/// The views of a sequence of keys.
pub open spec fn key_views<K: View>(keys: Seq<K>) -> Seq<K::V> {
    keys.map_values(|k: K| k@)
}

/// The keys of a map whose values satisfy a test.
pub open spec fn keys_matching<K, V>(m: Map<K, V>, pred: spec_fn(V) -> bool) -> Set<K> {
    m.dom().filter(|k: K| pred(m[k]))
}

/// A finite map from keys to values.
pub struct KeyedMap<K, V> {
    keys: Vec<K>,
    values: Vec<V>,
}

impl<K: MapKey, V> KeyedMap<K, V> {
    /// The map is well formed: one value per key, and no key twice.
    pub closed spec fn wf(&self) -> bool {
        &&& self.keys.len() == self.values.len()
        &&& key_views(self.keys@).no_duplicates()
    }

    /// The position of a key.
    closed spec fn position(&self, k: K::V) -> int {
        choose|i: int| 0 <= i < self.keys.len() && self.keys@[i]@ == k
    }

    /// The mathematical map.
    pub closed spec fn map(&self) -> Map<K::V, V> {
        Map::new(
            |k: K::V| key_views(self.keys@).contains(k),
            |k: K::V| self.values@[self.position(k)],
        )
    }

    proof fn lemma_entry(&self, i: int)
        requires
            self.wf(),
            0 <= i < self.keys.len(),
        ensures
            self.map().contains_key(self.keys@[i]@),
            self.map()[self.keys@[i]@] == self.values@[i],
    {
        let kv = key_views(self.keys@);
        assert(kv[i] == self.keys@[i]@);
        let j = self.position(self.keys@[i]@);
        assert(0 <= j < self.keys.len() && self.keys@[j]@ == self.keys@[i]@);
        assert(kv[j] == kv[i]);
    }

    proof fn lemma_absent(&self, k: K::V)
        requires
            forall|i: int| 0 <= i < self.keys.len() ==> self.keys@[i]@ != k,
        ensures
            !self.map().contains_key(k),
    {
        let kv = key_views(self.keys@);
        if kv.contains(k) {
            let i = choose|i: int| 0 <= i < kv.len() && kv[i] == k;
            assert(self.keys@[i]@ == k);
        }
    }

    proof fn lemma_domain(&self)
        requires
            self.wf(),
        ensures
            self.map().dom() =~= key_views(self.keys@).to_set(),
            self.map().dom().finite(),
            self.map().dom().len() == self.keys.len(),
    {
        key_views(self.keys@).unique_seq_to_set();
        assert(self.map().dom() =~= key_views(self.keys@).to_set());
    }

    /// The empty map.
    pub fn new() -> (m: Self)
        ensures
            m.wf(),
            m.map() == Map::<K::V, V>::empty(),
    {
        let m = KeyedMap { keys: Vec::new(), values: Vec::new() };
        assert(key_views(m.keys@) =~= Seq::<K::V>::empty());
        assert(m.map() =~= Map::<K::V, V>::empty());
        m
    }

    /// The number of keys.
    pub fn len(&self) -> (n: usize)
        requires
            self.wf(),
        ensures
            self.map().dom().finite(),
            n == self.map().dom().len(),
    {
        proof {
            self.lemma_domain();
        }
        self.keys.len()
    }

    /// The position of a key, if the map holds it.
    fn find(&self, key: &K) -> (found: Option<usize>)
        requires
            self.wf(),
        ensures
            match found {
                Some(i) => i < self.keys.len() && self.keys@[i as int]@ == key@,
                None => !self.map().contains_key(key@),
            },
    {
        let mut i: usize = 0;
        while i < self.keys.len()
            invariant
                i <= self.keys.len(),
                forall|j: int| 0 <= j < i ==> self.keys@[j]@ != key@,
            decreases self.keys.len() - i,
        {
            if self.keys[i].same_key(key) {
                return Some(i);
            }
            i = i + 1;
        }
        proof {
            self.lemma_absent(key@);
        }
        None
    }

    /// Whether the map holds a key.
    pub fn contains_key(&self, key: &K) -> (found: bool)
        requires
            self.wf(),
        ensures
            found == self.map().contains_key(key@),
    {
        match self.find(key) {
            Some(i) => {
                proof {
                    self.lemma_entry(i as int);
                }
                true
            },
            None => false,
        }
    }

    /// The value held for a key.
    pub fn get(&self, key: &K) -> (value: Option<&V>)
        requires
            self.wf(),
        ensures
            match value {
                Some(v) => self.map().contains_key(key@) && *v == self.map()[key@],
                None => !self.map().contains_key(key@),
            },
    {
        match self.find(key) {
            Some(i) => {
                proof {
                    self.lemma_entry(i as int);
                }
                Some(&self.values[i])
            },
            None => None,
        }
    }

    /// Holds `value` for `key`, in place of any value held before.
    pub fn insert(&mut self, key: K, value: V)
        requires
            old(self).wf(),
        ensures
            final(self).wf(),
            final(self).map() == old(self).map().insert(key@, value),
    {
        let ghost old_map = self.map();
        match self.find(&key) {
            Some(i) => {
                self.values.set(i, value);
                proof {
                    assert(self.keys@ == old(self).keys@);
                    old(self).lemma_entry(i as int);
                    assert forall|k: K::V| #[trigger] self.map().contains_key(k)
                        <==> old_map.insert(key@, value).contains_key(k) by {}
                    assert forall|k: K::V| self.map().contains_key(k) implies #[trigger] self.map()[k]
                        == old_map.insert(key@, value)[k] by {
                        let j = self.position(k);
                        assert(key_views(self.keys@)[j] == self.keys@[j]@);
                        if k == key@ {
                            self.lemma_entry(i as int);
                        } else {
                            let kv = key_views(self.keys@);
                            let m = choose|m: int| 0 <= m < kv.len() && kv[m] == k;
                            assert(self.keys@[m]@ == k);
                            assert(j != i);
                            old(self).lemma_entry(j);
                        }
                    }
                    assert(self.map() =~= old_map.insert(key@, value));
                }
            },
            None => {
                let ghost old_keys = self.keys@;
                self.keys.push(key);
                self.values.push(value);
                proof {
                    assert(key_views(self.keys@) =~= key_views(old_keys).push(key@));
                    assert(!key_views(old_keys).contains(key@));
                    let n = old_keys.len() as int;
                    assert forall|k: K::V| self.map().contains_key(k) implies #[trigger] self.map()[k]
                        == old_map.insert(key@, value)[k] by {
                        if k == key@ {
                            self.lemma_entry(n);
                        } else {
                            let kv = key_views(self.keys@);
                            let m = choose|m: int| 0 <= m < kv.len() && kv[m] == k;
                            assert(self.keys@[m]@ == k);
                            assert(m < n);
                            self.lemma_entry(m);
                            old(self).lemma_entry(m);
                        }
                    }
                    assert forall|k: K::V| #[trigger] self.map().contains_key(k)
                        <==> old_map.insert(key@, value).contains_key(k) by {
                        let kv = key_views(self.keys@);
                        if k == key@ {
                            assert(kv[n] == k);
                        }
                        if k != key@ && self.map().contains_key(k) {
                            let m = choose|m: int| 0 <= m < kv.len() && kv[m] == k;
                            assert(m < n);
                            assert(key_views(old_keys)[m] == k);
                        }
                        if old_map.contains_key(k) {
                            let okv = key_views(old_keys);
                            let m = choose|m: int| 0 <= m < okv.len() && okv[m] == k;
                            assert(kv[m] == k);
                        }
                    }
                    assert(self.map() =~= old_map.insert(key@, value));
                }
            },
        }
    }

    /// Removes a key, handing back the value it held.
    pub fn remove(&mut self, key: &K) -> (removed: Option<V>)
        requires
            old(self).wf(),
        ensures
            final(self).wf(),
            final(self).map() == old(self).map().remove(key@),
            match removed {
                Some(v) => old(self).map().contains_key(key@) && v == old(self).map()[key@],
                None => !old(self).map().contains_key(key@),
            },
    {
        let ghost old_map = self.map();
        match self.find(key) {
            Some(i) => {
                proof {
                    self.lemma_entry(i as int);
                }
                let ghost old_keys = self.keys@;
                self.keys.remove(i);
                let v = self.values.remove(i);
                proof {
                    assert(key_views(self.keys@) =~= key_views(old_keys).remove(i as int));
                    assert forall|k: K::V| #[trigger] self.map().contains_key(k)
                        <==> old_map.remove(key@).contains_key(k) by {
                        let kv = key_views(self.keys@);
                        let okv = key_views(old_keys);
                        assert(okv[i as int] == key@);
                        if self.map().contains_key(k) {
                            let m = choose|m: int| 0 <= m < kv.len() && kv[m] == k;
                            if m < i {
                                assert(okv[m] == k);
                            } else {
                                assert(okv[m + 1] == k);
                            }
                        }
                        if old_map.remove(key@).contains_key(k) {
                            let m = choose|m: int| 0 <= m < okv.len() && okv[m] == k;
                            assert(m != i);
                            if m < i {
                                assert(kv[m] == k);
                            } else {
                                assert(kv[m - 1] == k);
                            }
                        }
                    }
                    assert forall|k: K::V| self.map().contains_key(k) implies #[trigger] self.map()[k]
                        == old_map.remove(key@)[k] by {
                        let kv = key_views(self.keys@);
                        let m = choose|m: int| 0 <= m < kv.len() && kv[m] == k;
                        assert(self.keys@[m]@ == k);
                        self.lemma_entry(m);
                        if m < i {
                            old(self).lemma_entry(m);
                        } else {
                            old(self).lemma_entry(m + 1);
                        }
                    }
                    assert(self.map() =~= old_map.remove(key@));
                }
                Some(v)
            },
            None => {
                assert(self.map() =~= old_map.remove(key@));
                None
            },
        }
    }

    /// The values, in the order the map keeps them.
    pub closed spec fn value_seq(&self) -> Seq<V> {
        self.values@
    }

    /// The values, in the order the map keeps them.
    pub fn values(&self) -> (values: &Vec<V>)
        ensures
            values@ == self.value_seq(),
    {
        &self.values
    }

    /// The keys among the first `n` whose values satisfy `pred`.
    closed spec fn matching_prefix(&self, pred: spec_fn(V) -> bool, n: int) -> Set<K::V> {
        Set::new(
            |k: K::V| exists|i: int| 0 <= i < n && #[trigger] self.keys@[i]@ == k && pred(self.values@[i]),
        )
    }

    proof fn lemma_matching_prefix(&self, pred: spec_fn(V) -> bool, n: int)
        requires
            self.wf(),
            0 <= n <= self.keys.len(),
        ensures
            self.matching_prefix(pred, n).finite(),
            self.matching_prefix(pred, n).len() == self.values@.take(n).filter(pred).len(),
        decreases n,
    {
        if n == 0 {
            assert(self.matching_prefix(pred, 0) =~= Set::<K::V>::empty());
            assert(self.values@.take(0) =~= Seq::<V>::empty());
            reveal(Seq::filter);
        } else {
            self.lemma_matching_prefix(pred, n - 1);
            let prev = self.matching_prefix(pred, n - 1);
            let kv = key_views(self.keys@);
            assert(self.values@.take(n) =~= self.values@.take(n - 1).push(self.values@[n - 1]));
            crate::behaviour::lemma_filter_push(self.values@.take(n - 1), self.values@[n - 1], pred);
            let k = self.keys@[n - 1]@;
            assert(kv[n - 1] == k);
            if pred(self.values@[n - 1]) {
                assert(!prev.contains(k)) by {
                    if prev.contains(k) {
                        let i = choose|i: int| 0 <= i < n - 1 && #[trigger] self.keys@[i]@ == k && pred(self.values@[i]);
                        assert(kv[i] == k);
                    }
                }
                assert(self.matching_prefix(pred, n) =~= prev.insert(k));
            } else {
                assert(self.matching_prefix(pred, n) =~= prev);
            }
        }
    }

    /// The number of keys whose values satisfy a test is the number of
    /// values in `value_seq` that satisfy it.
    pub proof fn lemma_count_matching(&self, pred: spec_fn(V) -> bool)
        requires
            self.wf(),
        ensures
            keys_matching(self.map(), pred).finite(),
            keys_matching(self.map(), pred).len() == self.value_seq().filter(
                pred,
            ).len(),
    {
        let n = self.keys.len() as int;
        self.lemma_matching_prefix(pred, n);
        assert(self.values@.take(n) =~= self.values@);
        let kv = key_views(self.keys@);
        assert forall|k: K::V| #[trigger] keys_matching(self.map(), pred).contains(k)
            <==> self.matching_prefix(pred, n).contains(k) by {
            if self.map().contains_key(k) {
                let i = choose|i: int| 0 <= i < kv.len() && kv[i] == k;
                assert(self.keys@[i]@ == k);
                self.lemma_entry(i);
            }
            if self.matching_prefix(pred, n).contains(k) {
                let i = choose|i: int| 0 <= i < n && #[trigger] self.keys@[i]@ == k && pred(self.values@[i]);
                self.lemma_entry(i);
            }
        }
        assert(keys_matching(self.map(), pred) =~= self.matching_prefix(pred, n));
    }
}

} // verus!
