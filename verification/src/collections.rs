//! An ordered map kept as two parallel vectors sorted by key, so that equal
//! maps have equal representations and iteration follows key order.

use vstd::prelude::*;

verus! {

/// A key with a strict total order on its view and a three-way comparison.
pub trait OrderedKey: View + Sized {
    spec fn key_lt(a: Self::V, b: Self::V) -> bool;

    proof fn lemma_key_lt_irreflexive(a: Self::V)
        ensures
            !Self::key_lt(a, a),
    ;

    proof fn lemma_key_lt_transitive(a: Self::V, b: Self::V, c: Self::V)
        requires
            Self::key_lt(a, b),
            Self::key_lt(b, c),
        ensures
            Self::key_lt(a, c),
    ;

    proof fn lemma_key_lt_total(a: Self::V, b: Self::V)
        ensures
            a == b || Self::key_lt(a, b) || Self::key_lt(b, a),
    ;

    fn compare_key(&self, other: &Self) -> (r: i8)
        ensures
            (r == 0) == (self@ == other@),
            (r < 0) == Self::key_lt(self@, other@),
            (r > 0) == Self::key_lt(other@, self@),
    ;

    fn clone_key(&self) -> (r: Self)
        ensures
            r@ == self@,
    ;
}

/// A map from keys to values, sorted by key.
#[derive(Debug, PartialEq, Eq)]
pub struct SortedMap<K: OrderedKey, V> {
    keys: Vec<K>,
    vals: Vec<V>,
}

impl<K: OrderedKey, V> SortedMap<K, V> {
    /// Keys strictly increasing, one value per key.
    #[verifier::type_invariant]
    spec fn inv(self) -> bool {
        &&& self.keys@.len() == self.vals@.len()
        &&& forall|i: int, j: int|
            0 <= i < j < self.keys@.len() ==> K::key_lt(
                #[trigger] self.keys@[i]@,
                #[trigger] self.keys@[j]@,
            )
    }

    /// The key views in increasing order.
    pub closed spec fn key_seq(self) -> Seq<K::V> {
        self.keys@.map_values(|k: K| k@)
    }

    /// The values in key order.
    pub closed spec fn value_seq(self) -> Seq<V> {
        self.vals@
    }

    /// The map from key views to values.
    pub closed spec fn as_map(self) -> Map<K::V, V> {
        Map::new(
            |k: K::V| exists|i: int| 0 <= i < self.keys@.len() && self.keys@[i]@ == k,
            |k: K::V|
                self.vals@[choose|i: int| 0 <= i < self.keys@.len() && self.keys@[i]@ == k],
        )
    }

    proof fn lemma_value_at(self, i: int)
        requires
            self.inv(),
            0 <= i < self.keys@.len(),
        ensures
            self.as_map().contains_key(self.keys@[i]@),
            self.as_map()[self.keys@[i]@] == self.vals@[i],
    {
        let k = self.keys@[i]@;
        let j = choose|j: int| 0 <= j < self.keys@.len() && self.keys@[j]@ == k;
        if j != i {
            if j < i {
                K::lemma_key_lt_irreflexive(k);
                assert(K::key_lt(self.keys@[j]@, self.keys@[i]@));
            } else {
                K::lemma_key_lt_irreflexive(k);
                assert(K::key_lt(self.keys@[i]@, self.keys@[j]@));
            }
        }
    }

    /// The listed keys strictly increase, as every map of this type keeps them.
    pub open spec fn keys_sorted(self) -> bool {
        forall|i: int, j: int|
            0 <= i < j < self.key_seq().len() ==> K::key_lt(#[trigger] self.key_seq()[i], #[trigger] self.key_seq()[j])
    }

    /// The keys listed are the keys of the map.
    pub proof fn lemma_keys_in_map(self)
        ensures
            forall|i: int|
                0 <= i < self.key_seq().len() ==> #[trigger] self.as_map().contains_key(self.key_seq()[i]),
            forall|k: K::V|
                #[trigger] self.as_map().contains_key(k) ==> exists|i: int|
                    0 <= i < self.key_seq().len() && self.key_seq()[i] == k,
    {
        assert forall|i: int| 0 <= i < self.key_seq().len() implies #[trigger] self.as_map().contains_key(
            self.key_seq()[i],
        ) by {
            assert(self.keys@[i]@ == self.key_seq()[i]);
        }
        assert forall|k: K::V| #[trigger] self.as_map().contains_key(k) implies exists|i: int|
            0 <= i < self.key_seq().len() && self.key_seq()[i] == k by {
            let i = choose|i: int| 0 <= i < self.keys@.len() && self.keys@[i]@ == k;
            assert(self.key_seq()[i] == k);
        }
    }

    pub fn new() -> (r: Self)
        ensures
            r.as_map() == Map::<K::V, V>::empty(),
            r.key_seq().len() == 0,
            r.value_seq().len() == 0,
    {
        let r = SortedMap { keys: Vec::new(), vals: Vec::new() };
        proof {
            assert(r.as_map() =~= Map::<K::V, V>::empty());
        }
        r
    }

    /// The number of entries; also states how the entries make up the map:
    /// keys strictly increasing, each mapped to the value at its index.
    pub fn len(&self) -> (r: usize)
        ensures
            r == self.key_seq().len(),
            self.keys_sorted(),
            self.key_seq().len() == self.value_seq().len(),
            forall|i: int, j: int|
                0 <= i < j < self.key_seq().len() ==> K::key_lt(
                    #[trigger] self.key_seq()[i],
                    #[trigger] self.key_seq()[j],
                ),
            forall|i: int|
                #![trigger self.key_seq()[i]]
                0 <= i < self.key_seq().len() ==> self.as_map().contains_key(self.key_seq()[i])
                    && self.as_map()[self.key_seq()[i]] == self.value_seq()[i],
            forall|k: K::V|
                #[trigger] self.as_map().contains_key(k) ==> exists|i: int|
                    0 <= i < self.key_seq().len() && self.key_seq()[i] == k,
    {
        proof {
            use_type_invariant(self);
            assert forall|i: int| 0 <= i < self.key_seq().len() implies #[trigger] self.as_map().contains_key(
                self.key_seq()[i],
            ) && self.as_map()[self.key_seq()[i]] == self.value_seq()[i] by {
                self.lemma_value_at(i);
            }
            assert forall|k: K::V| #[trigger] self.as_map().contains_key(k) implies exists|i: int|
                0 <= i < self.key_seq().len() && self.key_seq()[i] == k by {
                let j = choose|j: int| 0 <= j < self.keys@.len() && self.keys@[j]@ == k;
                assert(self.key_seq()[j] == k);
            }
        }
        self.keys.len()
    }

    pub fn is_empty(&self) -> (r: bool)
        ensures
            r == (self.key_seq().len() == 0),
    {
        self.keys.len() == 0
    }

    /// The `i`-th key in increasing order.
    pub fn key_at(&self, i: usize) -> (r: &K)
        requires
            i < self.key_seq().len(),
        ensures
            r@ == self.key_seq()[i as int],
    {
        &self.keys[i]
    }

    /// The value of the `i`-th key.
    pub fn value_at(&self, i: usize) -> (r: &V)
        requires
            i < self.key_seq().len(),
        ensures
            *r == self.value_seq()[i as int],
    {
        proof {
            use_type_invariant(self);
        }
        &self.vals[i]
    }

    /// Replaces the value of the `i`-th key.
    pub fn set_value_at(&mut self, i: usize, v: V)
        requires
            i < old(self).key_seq().len(),
        ensures
            final(self).key_seq() == old(self).key_seq(),
            final(self).value_seq() == old(self).value_seq().update(i as int, v),
            final(self).as_map() == old(self).as_map().insert(old(self).key_seq()[i as int], v),
    {
        proof {
            use_type_invariant(&*self);
        }
        let ghost old_keys = self.keys@;
        let ghost old_vals = self.vals@;
        let ghost old_map = self.as_map();
        let ghost k = self.keys@[i as int]@;
        let mut taken = SortedMap { keys: Vec::new(), vals: Vec::new() };
        std::mem::swap(self, &mut taken);
        let SortedMap { keys, mut vals } = taken;
        vals.set(i, v);
        *self = SortedMap { keys, vals };
        proof {
            assert(self.key_seq() =~= old_keys.map_values(|x: K| x@));
            assert forall|kk: K::V| #[trigger] self.as_map().contains_key(kk) == old_map.insert(k, v).contains_key(kk) by {}
            assert forall|kk: K::V| #[trigger] self.as_map().contains_key(kk) implies self.as_map()[kk]
                == old_map.insert(k, v)[kk] by {
                let j = choose|j: int| 0 <= j < self.keys@.len() && self.keys@[j]@ == kk;
                self.lemma_value_at(j);
                if j != i {
                    assert(kk != k) by {
                        K::lemma_key_lt_irreflexive(k);
                        if j < i {
                            assert(K::key_lt(self.keys@[j]@, self.keys@[i as int]@));
                        } else {
                            assert(K::key_lt(self.keys@[i as int]@, self.keys@[j]@));
                        }
                    }
                    lemma_choose_index::<K, V>(old_keys, old_vals, j);
                }
            }
            assert(self.as_map() =~= old_map.insert(k, v));
        }
    }

    /// The first index whose key is not below `k`, and whether that key is `k`.
    fn lower_bound(&self, k: &K) -> (r: (usize, bool))
        ensures
            r.0 <= self.keys@.len(),
            forall|i: int| 0 <= i < r.0 ==> K::key_lt(#[trigger] self.keys@[i]@, k@),
            r.0 < self.keys@.len() ==> !K::key_lt(self.keys@[r.0 as int]@, k@),
            r.1 == (r.0 < self.keys@.len() && self.keys@[r.0 as int]@ == k@),
    {
        let mut i: usize = 0;
        while i < self.keys.len()
            invariant
                i <= self.keys@.len(),
                forall|j: int| 0 <= j < i ==> K::key_lt(#[trigger] self.keys@[j]@, k@),
            decreases self.keys@.len() - i,
        {
            let c = self.keys[i].compare_key(k);
            if c >= 0 {
                return (i, c == 0);
            }
            i = i + 1;
        }
        (i, false)
    }

    /// Whether `k` has an entry, and if so at which index.
    pub fn index_of(&self, k: &K) -> (r: Option<usize>)
        ensures
            match r {
                Some(i) => i < self.key_seq().len() && self.key_seq()[i as int] == k@,
                None => !self.as_map().contains_key(k@),
            },
    {
        proof {
            use_type_invariant(self);
        }
        let (p, found) = self.lower_bound(k);
        if found {
            Some(p)
        } else {
            proof {
                if self.as_map().contains_key(k@) {
                    let j = choose|j: int| 0 <= j < self.keys@.len() && self.keys@[j]@ == k@;
                    K::lemma_key_lt_irreflexive(k@);
                    if j >= p {
                        if j > p {
                            assert(K::key_lt(self.keys@[p as int]@, self.keys@[j]@));
                            K::lemma_key_lt_total(self.keys@[p as int]@, k@);
                        }
                    }
                }
            }
            None
        }
    }

    pub fn contains_key(&self, k: &K) -> (r: bool)
        ensures
            r == self.as_map().contains_key(k@),
    {
        proof {
            use_type_invariant(self);
        }
        match self.index_of(k) {
            Some(i) => {
                proof {
                    self.lemma_value_at(i as int);
                }
                true
            },
            None => false,
        }
    }

    pub fn get(&self, k: &K) -> (r: Option<&V>)
        ensures
            match r {
                Some(v) => self.as_map().contains_key(k@) && self.as_map()[k@] == *v,
                None => !self.as_map().contains_key(k@),
            },
    {
        proof {
            use_type_invariant(self);
        }
        match self.index_of(k) {
            Some(i) => {
                proof {
                    self.lemma_value_at(i as int);
                }
                Some(&self.vals[i])
            },
            None => None,
        }
    }

    /// Sets the value of `k`, adding the key when it is new.
    pub fn insert(&mut self, k: K, v: V)
        ensures
            final(self).as_map() == old(self).as_map().insert(k@, v),
    {
        proof {
            use_type_invariant(&*self);
        }
        let (p, found) = self.lower_bound(&k);
        let ghost old_keys = self.keys@;
        let ghost old_vals = self.vals@;
        let ghost old_map = self.as_map();
        if found {
            let mut taken = SortedMap { keys: Vec::new(), vals: Vec::new() };
            std::mem::swap(self, &mut taken);
            let SortedMap { keys, mut vals } = taken;
            vals.set(p, v);
            *self = SortedMap { keys, vals };
            proof {
                assert forall|kk: K::V| #[trigger] self.as_map().contains_key(kk) == old_map.insert(
                    k@,
                    v,
                ).contains_key(kk) by {}
                assert forall|kk: K::V| #[trigger] self.as_map().contains_key(kk) implies self.as_map()[kk]
                    == old_map.insert(k@, v)[kk] by {
                    let j = choose|j: int| 0 <= j < self.keys@.len() && self.keys@[j]@ == kk;
                    self.lemma_value_at(j);
                    if j != p {
                        assert(old_keys[j]@ == kk);
                        assert(kk != k@) by {
                            K::lemma_key_lt_irreflexive(k@);
                            if j < p {
                                assert(K::key_lt(self.keys@[j]@, self.keys@[p as int]@));
                            } else {
                                assert(K::key_lt(self.keys@[p as int]@, self.keys@[j]@));
                            }
                        }
                        lemma_choose_index::<K, V>(old_keys, old_vals, j);
                    }
                }
                assert(self.as_map() =~= old_map.insert(k@, v));
            }
        } else {
            proof {
                if p < old_keys.len() {
                    K::lemma_key_lt_total(old_keys[p as int]@, k@);
                }
            }
            let mut taken = SortedMap { keys: Vec::new(), vals: Vec::new() };
            std::mem::swap(self, &mut taken);
            let SortedMap { mut keys, mut vals } = taken;
            keys.insert(p, k);
            vals.insert(p, v);
            let ghost nk = keys@;
            proof {
                assert forall|i: int, j: int|
                    0 <= i < j < nk.len() implies K::key_lt(#[trigger] nk[i]@, #[trigger] nk[j]@) by {
                    if j < p {
                        assert(nk[i] == old_keys[i] && nk[j] == old_keys[j]);
                    } else if j == p {
                        assert(nk[i] == old_keys[i]);
                    } else if i == p {
                        assert(nk[j] == old_keys[j - 1]);
                        if j - 1 > p {
                            K::lemma_key_lt_transitive(k@, old_keys[p as int]@, old_keys[j - 1]@);
                        }
                    } else if i < p {
                        assert(nk[i] == old_keys[i] && nk[j] == old_keys[j - 1]);
                        K::lemma_key_lt_transitive(old_keys[i]@, k@, old_keys[p as int]@);
                        if j - 1 > p {
                            K::lemma_key_lt_transitive(old_keys[i]@, old_keys[p as int]@, old_keys[j - 1]@);
                        }
                    } else {
                        assert(nk[i] == old_keys[i - 1] && nk[j] == old_keys[j - 1]);
                    }
                }
            }
            *self = SortedMap { keys, vals };
            proof {
                assert forall|kk: K::V| #[trigger] self.as_map().contains_key(kk) == old_map.insert(
                    k@,
                    v,
                ).contains_key(kk) by {
                    if kk == k@ {
                        assert(nk[p as int]@ == k@);
                    }
                    if old_map.contains_key(kk) {
                        let j = choose|j: int| 0 <= j < old_keys.len() && old_keys[j]@ == kk;
                        if j < p {
                            assert(nk[j] == old_keys[j]);
                            assert(nk[j]@ == kk);
                        } else {
                            assert(nk[j + 1] == old_keys[j]);
                            assert(nk[j + 1]@ == kk);
                        }
                    }
                    if self.as_map().contains_key(kk) {
                        let j = choose|j: int| 0 <= j < nk.len() && nk[j]@ == kk;
                        if j < p {
                            assert(old_keys[j]@ == kk);
                        } else if j > p {
                            assert(old_keys[j - 1]@ == kk);
                        }
                    }
                }
                assert forall|kk: K::V| #[trigger] self.as_map().contains_key(kk) implies self.as_map()[kk]
                    == old_map.insert(k@, v)[kk] by {
                    let j = choose|j: int| 0 <= j < nk.len() && nk[j]@ == kk;
                    self.lemma_value_at(j);
                    if j < p {
                        assert(old_keys[j]@ == kk);
                        lemma_choose_index::<K, V>(old_keys, old_vals, j);
                        K::lemma_key_lt_irreflexive(k@);
                    } else if j > p {
                        assert(old_keys[j - 1]@ == kk);
                        lemma_choose_index::<K, V>(old_keys, old_vals, j - 1);
                        K::lemma_key_lt_irreflexive(k@);
                        assert(K::key_lt(nk[p as int]@, nk[j]@));
                    }
                }
                assert(self.as_map() =~= old_map.insert(k@, v));
            }
        }
    }

    /// Adds `k` with value `v` only when `k` has no entry yet.
    pub fn insert_if_absent(&mut self, k: K, v: V)
        ensures
            final(self).as_map() == (if old(self).as_map().contains_key(k@) {
                old(self).as_map()
            } else {
                old(self).as_map().insert(k@, v)
            }),
    {
        if !self.contains_key(&k) {
            self.insert(k, v);
        }
    }

    /// Removes the entry of `k`, returning its value.
    pub fn remove(&mut self, k: &K) -> (r: Option<V>)
        ensures
            final(self).as_map() == old(self).as_map().remove(k@),
            match r {
                Some(v) => old(self).as_map().contains_key(k@) && old(self).as_map()[k@] == v,
                None => !old(self).as_map().contains_key(k@),
            },
    {
        proof {
            use_type_invariant(&*self);
        }
        let ghost old_keys = self.keys@;
        let ghost old_vals = self.vals@;
        let ghost old_map = self.as_map();
        match self.index_of(k) {
            None => {
                proof {
                    assert(self.as_map() =~= old_map.remove(k@));
                }
                None
            },
            Some(p) => {
                proof {
                    self.lemma_value_at(p as int);
                }
                let mut taken = SortedMap { keys: Vec::new(), vals: Vec::new() };
            std::mem::swap(self, &mut taken);
            let SortedMap { mut keys, mut vals } = taken;
                let _key = keys.remove(p);
                let v = vals.remove(p);
                let ghost nk = keys@;
                proof {
                    assert forall|i: int, j: int|
                        0 <= i < j < nk.len() implies K::key_lt(#[trigger] nk[i]@, #[trigger] nk[j]@) by {
                        let oi = if i < p { i } else { i + 1 };
                        let oj = if j < p { j } else { j + 1 };
                        assert(nk[i] == old_keys[oi] && nk[j] == old_keys[oj]);
                    }
                }
                *self = SortedMap { keys, vals };
                proof {
                    assert forall|kk: K::V| #[trigger] self.as_map().contains_key(kk) == old_map.remove(
                        k@,
                    ).contains_key(kk) by {
                        K::lemma_key_lt_irreflexive(k@);
                        if old_map.contains_key(kk) && kk != k@ {
                            let j = choose|j: int| 0 <= j < old_keys.len() && old_keys[j]@ == kk;
                            if j < p {
                                assert(nk[j]@ == kk);
                            } else if j > p {
                                assert(nk[j - 1]@ == kk);
                            }
                        }
                        if self.as_map().contains_key(kk) {
                            let j = choose|j: int| 0 <= j < nk.len() && nk[j]@ == kk;
                            let oj = if j < p { j } else { j + 1 };
                            assert(old_keys[oj]@ == kk);
                            if oj < p {
                                assert(K::key_lt(old_keys[oj]@, old_keys[p as int]@));
                            } else {
                                assert(K::key_lt(old_keys[p as int]@, old_keys[oj]@));
                            }
                        }
                    }
                    assert forall|kk: K::V| #[trigger] self.as_map().contains_key(kk) implies self.as_map()[kk]
                        == old_map.remove(k@)[kk] by {
                        let j = choose|j: int| 0 <= j < nk.len() && nk[j]@ == kk;
                        self.lemma_value_at(j);
                        let oj = if j < p { j } else { j + 1 };
                        assert(old_keys[oj]@ == kk);
                        lemma_choose_index::<K, V>(old_keys, old_vals, oj);
                    }
                    assert(self.as_map() =~= old_map.remove(k@));
                }
                Some(v)
            },
        }
    }
}

impl<K: OrderedKey, V> SortedMap<K, V> {
    /// The `i`-th listed key maps to the `i`-th listed value.
    pub proof fn lemma_value_of_key(self, i: int)
        requires
            self.keys_sorted(),
            self.key_seq().len() == self.value_seq().len(),
            0 <= i < self.key_seq().len(),
        ensures
            self.as_map().contains_key(self.key_seq()[i]),
            self.as_map()[self.key_seq()[i]] == self.value_seq()[i],
    {
        assert(self.keys@[i]@ == self.key_seq()[i]);
        assert forall|x: int, y: int| 0 <= x < y < self.keys@.len() implies K::key_lt(
            #[trigger] self.keys@[x]@,
            #[trigger] self.keys@[y]@,
        ) by {
            assert(self.key_seq()[x] == self.keys@[x]@);
            assert(self.key_seq()[y] == self.keys@[y]@);
        }
        lemma_choose_index(self.keys@, self.vals@, i);
    }

    /// Two sorted maps that list the same keys with the same values are the
    /// same map.
    pub proof fn lemma_same_entries(a: Self, b: Self)
        requires
            a.keys_sorted(),
            a.key_seq() == b.key_seq(),
            a.value_seq() == b.value_seq(),
            a.key_seq().len() == a.value_seq().len(),
        ensures
            a.as_map() == b.as_map(),
    {
        assert forall|k: K::V| #[trigger] a.as_map().contains_key(k) == b.as_map().contains_key(k) by {
            if a.as_map().contains_key(k) {
                let i = choose|i: int| 0 <= i < a.keys@.len() && a.keys@[i]@ == k;
                assert(a.key_seq()[i] == k);
                assert(b.keys@[i]@ == b.key_seq()[i]);
            }
            if b.as_map().contains_key(k) {
                let i = choose|i: int| 0 <= i < b.keys@.len() && b.keys@[i]@ == k;
                assert(b.key_seq()[i] == k);
                assert(a.keys@[i]@ == a.key_seq()[i]);
            }
        }
        assert forall|k: K::V| #[trigger] a.as_map().contains_key(k) implies a.as_map()[k] == b.as_map()[k] by {
            let j = choose|i: int| 0 <= i < a.keys@.len() && a.keys@[i]@ == k;
            assert(a.key_seq()[j] == k);
            assert(b.keys@[j]@ == b.key_seq()[j]);
            assert forall|x: int, y: int| 0 <= x < y < a.keys@.len() implies K::key_lt(
                #[trigger] a.keys@[x]@,
                #[trigger] a.keys@[y]@,
            ) by {
                assert(a.key_seq()[x] == a.keys@[x]@);
                assert(a.key_seq()[y] == a.keys@[y]@);
            }
            assert forall|x: int, y: int| 0 <= x < y < b.keys@.len() implies K::key_lt(
                #[trigger] b.keys@[x]@,
                #[trigger] b.keys@[y]@,
            ) by {
                assert(b.key_seq()[x] == b.keys@[x]@);
                assert(b.key_seq()[y] == b.keys@[y]@);
                assert(a.key_seq()[x] == a.keys@[x]@);
                assert(a.key_seq()[y] == a.keys@[y]@);
            }
            lemma_choose_index(a.keys@, a.vals@, j);
            lemma_choose_index(b.keys@, b.vals@, j);
        }
        assert(a.as_map() =~= b.as_map());
    }
}

impl<K: OrderedKey, V: Clone> Clone for SortedMap<K, V> {
    /// A copy with the same keys in the same order and each value cloned.
    fn clone(&self) -> (r: Self)
        ensures
            r.key_seq() == self.key_seq(),
            r.value_seq().len() == self.value_seq().len(),
            forall|i: int|
                0 <= i < r.value_seq().len() ==> cloned::<V>(
                    self.value_seq()[i],
                    #[trigger] r.value_seq()[i],
                ),
    {
        proof {
            use_type_invariant(self);
        }
        let mut keys: Vec<K> = Vec::new();
        let mut i: usize = 0;
        while i < self.keys.len()
            invariant
                i <= self.keys@.len(),
                keys@.len() == i,
                forall|j: int| 0 <= j < i ==> #[trigger] keys@[j]@ == self.keys@[j]@,
            decreases self.keys@.len() - i,
        {
            keys.push(self.keys[i].clone_key());
            i = i + 1;
        }
        let vals = self.vals.clone();
        let r = SortedMap { keys, vals };
        proof {
            assert(r.key_seq() =~= self.key_seq());
        }
        r
    }
}

/// A set of keys, kept sorted.
#[derive(Debug, PartialEq, Eq)]
pub struct SortedSet<K: OrderedKey> {
    map: SortedMap<K, ()>,
}

impl<K: OrderedKey> SortedSet<K> {
    /// The key views in the set.
    pub closed spec fn set_view(self) -> Set<K::V> {
        self.map.as_map().dom()
    }

    /// The key views in increasing order.
    pub closed spec fn elems(self) -> Seq<K::V> {
        self.map.key_seq()
    }

    pub fn new() -> (r: Self)
        ensures
            r.set_view() == Set::<K::V>::empty(),
            r.elems().len() == 0,
    {
        let r = SortedSet { map: SortedMap::new() };
        proof {
            assert(r.map.as_map().dom() =~= Set::<K::V>::empty());
        }
        r
    }

    /// The number of keys; also states that the elements are strictly
    /// increasing and are exactly the set.
    pub fn len(&self) -> (r: usize)
        ensures
            r == self.elems().len(),
            forall|i: int, j: int|
                0 <= i < j < self.elems().len() ==> K::key_lt(#[trigger] self.elems()[i], #[trigger] self.elems()[j]),
            forall|i: int| 0 <= i < self.elems().len() ==> self.set_view().contains(#[trigger] self.elems()[i]),
            forall|k: K::V| #[trigger] self.set_view().contains(k) ==> exists|i: int|
                0 <= i < self.elems().len() && self.elems()[i] == k,
    {
        self.map.len()
    }

    /// The `i`-th key in increasing order.
    pub fn elem_at(&self, i: usize) -> (r: &K)
        requires
            i < self.elems().len(),
        ensures
            r@ == self.elems()[i as int],
    {
        self.map.key_at(i)
    }

    pub fn contains(&self, k: &K) -> (r: bool)
        ensures
            r == self.set_view().contains(k@),
    {
        self.map.contains_key(k)
    }

    /// Adds `k`; true when it was not in the set yet.
    pub fn insert(&mut self, k: K) -> (r: bool)
        ensures
            final(self).set_view() == old(self).set_view().insert(k@),
            r == !old(self).set_view().contains(k@),
    {
        let had = self.map.contains_key(&k);
        if !had {
            self.map.insert(k, ());
        }
        proof {
            assert(self.map.as_map().dom() =~= old(self).map.as_map().dom().insert(k@));
        }
        !had
    }

    /// Removes `k`; true when it was in the set.
    pub fn remove(&mut self, k: &K) -> (r: bool)
        ensures
            final(self).set_view() == old(self).set_view().remove(k@),
            r == old(self).set_view().contains(k@),
    {
        let r = self.map.remove(k);
        proof {
            assert(self.map.as_map().dom() =~= old(self).map.as_map().dom().remove(k@));
        }
        r.is_some()
    }
}

/// In a strictly sorted key sequence, the index chosen for a key is its only index.
proof fn lemma_choose_index<K: OrderedKey, V>(keys: Seq<K>, vals: Seq<V>, j: int)
    requires
        keys.len() == vals.len(),
        forall|a: int, b: int| 0 <= a < b < keys.len() ==> K::key_lt(#[trigger] keys[a]@, #[trigger] keys[b]@),
        0 <= j < keys.len(),
    ensures
        vals[choose|i: int| 0 <= i < keys.len() && keys[i]@ == keys[j]@] == vals[j],
{
    let c = choose|i: int| 0 <= i < keys.len() && keys[i]@ == keys[j]@;
    if c != j {
        K::lemma_key_lt_irreflexive(keys[j]@);
        if c < j {
            assert(K::key_lt(keys[c]@, keys[j]@));
        } else {
            assert(K::key_lt(keys[j]@, keys[c]@));
        }
    }
}

} // verus!
