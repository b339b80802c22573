//! A finite map kept as a list of distinct keys with their values.
//!
//! Keys are compared by their views; the map's view is a `Map` from key
//! views to value views.

use vstd::prelude::*;

verus! {

/// Equality of keys decided on their views.
pub trait KeyEq: View + Sized {
    fn key_eq(&self, other: &Self) -> (r: bool)
        ensures
            r == (self@ == other@),
    ;
}

/// A copy with the same view as the value it copies.
pub trait DeepCopy: View + Sized {
    fn deep_copy(&self) -> (r: Self)
        ensures
            r@ == self@,
    ;
}

impl KeyEq for String {
    fn key_eq(&self, other: &Self) -> (r: bool) {
        crate::text::str_eq(self.as_str(), other.as_str())
    }
}

impl DeepCopy for String {
    fn deep_copy(&self) -> (r: Self) {
        self.clone()
    }
}

impl KeyEq for u32 {
    fn key_eq(&self, other: &Self) -> (r: bool) {
        *self == *other
    }
}

impl DeepCopy for u32 {
    fn deep_copy(&self) -> (r: Self) {
        *self
    }
}

impl DeepCopy for usize {
    fn deep_copy(&self) -> (r: Self) {
        *self
    }
}

/// A map from keys to values with no key twice.
#[derive(Debug)]
pub struct AssocList<K: KeyEq, V: View> {
    keys: Vec<K>,
    values: Vec<V>,
}

impl<K: KeyEq, V: View> AssocList<K, V> {
    /// Keys and values pair up, and no key occurs twice.
    #[verifier::type_invariant]
    pub closed spec fn inv(self) -> bool {
        &&& self.keys.len() == self.values.len()
        &&& forall|i: int, j: int|
            0 <= i < j < self.keys.len() ==> (#[trigger] self.keys@[i])@ != (#[trigger] self.keys@[j])@
    }

    /// The keys' views, in the order in which they were first inserted.
    pub closed spec fn key_seq(self) -> Seq<K::V> {
        self.keys@.map_values(|k: K| k@)
    }

    closed spec fn slot_of(self, k: K::V) -> int {
        choose|i: int| 0 <= i < self.keys.len() && (#[trigger] self.keys@[i])@ == k
    }

    pub closed spec fn spec_map(self) -> Map<K::V, V::V> {
        Map::new(
            |k: K::V| exists|i: int| 0 <= i < self.keys.len() && (#[trigger] self.keys@[i])@ == k,
            |k: K::V| self.values@[self.slot_of(k)]@,
        )
    }

    proof fn lemma_slot(self, i: int)
        requires
            self.inv(),
            0 <= i < self.keys.len(),
        ensures
            self.spec_map().contains_key(self.keys@[i]@),
            self.spec_map()[self.keys@[i]@] == self.values@[i]@,
            self.slot_of(self.keys@[i]@) == i,
    {
        let k = self.keys@[i]@;
        assert(exists|j: int| 0 <= j < self.keys.len() && (#[trigger] self.keys@[j])@ == k);
        let j = self.slot_of(k);
        if j != i {
            if j < i {
                assert((self.keys@[j])@ != (self.keys@[i])@);
            } else {
                assert((self.keys@[i])@ != (self.keys@[j])@);
            }
        }
    }

    /// Facts that tie the key order to the map: every key occurs once and the
    /// map's keys are exactly the listed ones.
    pub proof fn lemma_keys(self)
        requires
            self.inv(),
        ensures
            self.key_seq().len() == self.spec_map().dom().len(),
            self.key_seq().no_duplicates(),
            self.key_seq().to_set() == self.spec_map().dom(),
            self.spec_map().dom().finite(),
            forall|i: int|
                0 <= i < self.key_seq().len() ==> self.spec_map().contains_key(
                    #[trigger] self.key_seq()[i],
                ),
            forall|k: K::V| #[trigger]
                self.spec_map().contains_key(k) ==> exists|i: int|
                    0 <= i < self.key_seq().len() && self.key_seq()[i] == k,
    {
        let ks = self.key_seq();
        assert forall|i: int, j: int| 0 <= i < ks.len() && 0 <= j < ks.len() && i != j implies ks[i]
            != ks[j] by {
            if i < j {
                assert((self.keys@[i])@ != (self.keys@[j])@);
            } else {
                assert((self.keys@[j])@ != (self.keys@[i])@);
            }
        }
        assert forall|k: K::V| #[trigger] ks.to_set().contains(k) <==> self.spec_map().contains_key(
            k,
        ) by {
            if self.spec_map().contains_key(k) {
                let i = choose|i: int| 0 <= i < self.keys.len() && (#[trigger] self.keys@[i])@ == k;
                assert(ks[i] == k);
            }
            if ks.to_set().contains(k) {
                let i = choose|i: int| 0 <= i < ks.len() && ks[i] == k;
                assert((self.keys@[i])@ == k);
            }
        }
        assert(ks.to_set() =~= self.spec_map().dom());
        ks.unique_seq_to_set();
        assert forall|i: int| 0 <= i < ks.len() implies self.spec_map().contains_key(
            #[trigger] ks[i],
        ) by {
            self.lemma_slot(i);
        }
        assert forall|k: K::V| #[trigger] self.spec_map().contains_key(k) implies exists|i: int|
            0 <= i < ks.len() && ks[i] == k by {
            let i = choose|i: int| 0 <= i < self.keys.len() && (#[trigger] self.keys@[i])@ == k;
            assert(ks[i] == k);
        }
    }

    pub fn new() -> (r: Self)
        ensures
            r@ == Map::<K::V, V::V>::empty(),
            r.key_seq() == Seq::<K::V>::empty(),
    {
        let r = AssocList { keys: Vec::new(), values: Vec::new() };
        assert(r.spec_map() =~= Map::<K::V, V::V>::empty());
        assert(r.key_seq() =~= Seq::<K::V>::empty());
        r
    }

    pub fn len(&self) -> (r: usize)
        ensures
            r == self.key_seq().len(),
            r == self@.dom().len(),
            self@.dom().finite(),
    {
        proof {
            use_type_invariant(self);
            self.lemma_keys();
        }
        self.keys.len()
    }

    /// The key at position `i` of the key order.
    pub fn key_at(&self, i: usize) -> (r: &K)
        requires
            i < self.key_seq().len(),
        ensures
            r@ == self.key_seq()[i as int],
            self@.contains_key(r@),
    {
        proof {
            use_type_invariant(self);
            self.lemma_slot(i as int);
        }
        &self.keys[i]
    }

    /// The value stored under the key at position `i`.
    pub fn value_at(&self, i: usize) -> (r: &V)
        requires
            i < self.key_seq().len(),
        ensures
            r@ == self@[self.key_seq()[i as int]],
    {
        proof {
            use_type_invariant(self);
            self.lemma_slot(i as int);
        }
        &self.values[i]
    }

    /// The position of `k` in the key order.
    pub fn position(&self, k: &K) -> (r: Option<usize>)
        ensures
            match r {
                Some(i) => i < self.key_seq().len() && self.key_seq()[i as int] == k@,
                None => !self@.contains_key(k@),
            },
    {
        proof {
            use_type_invariant(self);
        }
        let mut i: usize = 0;
        while i < self.keys.len()
            invariant
                self.inv(),
                i <= self.keys.len(),
                forall|j: int| 0 <= j < i ==> (#[trigger] self.keys@[j])@ != k@,
            decreases self.keys.len() - i,
        {
            if self.keys[i].key_eq(k) {
                return Some(i);
            }
            i += 1;
        }
        None
    }

    pub fn get(&self, k: &K) -> (r: Option<&V>)
        ensures
            match r {
                Some(v) => self@.contains_key(k@) && v@ == self@[k@],
                None => !self@.contains_key(k@),
            },
    {
        match self.position(k) {
            Some(i) => Some(self.value_at(i)),
            None => None,
        }
    }

    pub fn contains_key(&self, k: &K) -> (r: bool)
        ensures
            r == self@.contains_key(k@),
    {
        match self.position(k) {
            Some(i) => {
                let _ = self.key_at(i);
                true
            },
            None => false,
        }
    }

    /// Replaces the value at position `i`; the key order is unchanged.
    pub fn set_value_at(&mut self, i: usize, v: V)
        requires
            i < old(self).key_seq().len(),
        ensures
            final(self)@ == old(self)@.insert(old(self).key_seq()[i as int], v@),
            final(self).key_seq() == old(self).key_seq(),
    {
        proof {
            use_type_invariant(&*self);
        }
        let ghost old_self = *self;
        let ghost kv = self.keys@[i as int]@;
        let ghost vv = v@;
        let mut whole = AssocList { keys: Vec::new(), values: Vec::new() };
        std::mem::swap(&mut whole, self);
        let AssocList { keys, mut values } = whole;
        values.set(i, v);
        *self = AssocList { keys, values };
        proof {
            use_type_invariant(&*self);
            assert(self.keys@ == old_self.keys@);
            assert forall|k: K::V| #[trigger] self.spec_map().contains_key(k)
                == old_self.spec_map().insert(kv, vv).contains_key(k) by {}
            assert forall|k: K::V| #[trigger] self.spec_map().contains_key(k) implies self.spec_map()[k]
                == old_self.spec_map().insert(kv, vv)[k] by {
                let j = choose|j: int| 0 <= j < self.keys.len() && (#[trigger] self.keys@[j])@ == k;
                self.lemma_slot(j);
                old_self.lemma_slot(j);
            }
            assert(self.spec_map() =~= old_self.spec_map().insert(kv, vv));
        }
    }

    /// Inserts `v` under `k`, replacing and returning any earlier value.  A new
    /// key goes to the end of the key order.
    pub fn insert(&mut self, k: K, v: V) -> (r: Option<V>)
        ensures
            final(self)@ == old(self)@.insert(k@, v@),
            match r {
                Some(prev) => old(self)@.contains_key(k@) && prev@ == old(self)@[k@],
                None => !old(self)@.contains_key(k@),
            },
            old(self)@.contains_key(k@) ==> final(self).key_seq() == old(self).key_seq(),
            !old(self)@.contains_key(k@) ==> final(self).key_seq() == old(self).key_seq().push(k@),
    {
        match self.position(&k) {
            Some(i) => {
                proof {
                    use_type_invariant(&*self);
                    self.lemma_slot(i as int);
                }
                let mut prev = v;
                let ghost vv = prev@;
                let mut whole = AssocList { keys: Vec::new(), values: Vec::new() };
                std::mem::swap(&mut whole, self);
                let AssocList { keys, mut values } = whole;
                values.set_and_swap(i, &mut prev);
                *self = AssocList { keys, values };
                proof {
                    use_type_invariant(&*self);
                    let ghost kv = k@;
                    assert forall|q: K::V| #[trigger] self.spec_map().contains_key(q)
                        == old(self).spec_map().insert(kv, vv).contains_key(q) by {}
                    assert forall|q: K::V| #[trigger] self.spec_map().contains_key(q) implies self.spec_map()[q]
                        == old(self).spec_map().insert(kv, vv)[q] by {
                        let j = choose|j: int| 0 <= j < self.keys.len() && (#[trigger] self.keys@[j])@ == q;
                        self.lemma_slot(j);
                        old(self).lemma_slot(j);
                    }
                    assert(self.spec_map() =~= old(self).spec_map().insert(kv, vv));
                }
                Some(prev)
            },
            None => {
                proof {
                    use_type_invariant(&*self);
                }
                let ghost kv = k@;
                let ghost vv = v@;
                let ghost n = self.keys.len() as int;
                let mut whole = AssocList { keys: Vec::new(), values: Vec::new() };
                std::mem::swap(&mut whole, self);
                let AssocList { mut keys, mut values } = whole;
                keys.push(k);
                values.push(v);
                proof {
                    assert forall|a: int, b: int| 0 <= a < b < keys.len() implies (#[trigger] keys@[a])@
                        != (#[trigger] keys@[b])@ by {
                        if b == n {
                            assert(!old(self).spec_map().contains_key(kv));
                            if keys@[a]@ == kv {
                                assert(old(self).keys@[a]@ == kv);
                            }
                        } else {
                            assert(keys@[a] == old(self).keys@[a]);
                            assert(keys@[b] == old(self).keys@[b]);
                        }
                    }
                }
                *self = AssocList { keys, values };
                proof {
                    use_type_invariant(&*self);
                    assert forall|q: K::V| #[trigger] self.spec_map().contains_key(q)
                        == old(self).spec_map().insert(kv, vv).contains_key(q) by {
                        if old(self).spec_map().contains_key(q) {
                            let j = choose|j: int| 0 <= j < old(self).keys.len() && (#[trigger] old(self).keys@[j])@ == q;
                            assert(self.keys@[j] == old(self).keys@[j]);
                        }
                        if self.spec_map().contains_key(q) && q != kv {
                            let j = choose|j: int| 0 <= j < self.keys.len() && (#[trigger] self.keys@[j])@ == q;
                            assert(j != n);
                            assert(self.keys@[j] == old(self).keys@[j]);
                        }
                        assert(self.keys@[n]@ == kv);
                    }
                    assert forall|q: K::V| #[trigger] self.spec_map().contains_key(q) implies self.spec_map()[q]
                        == old(self).spec_map().insert(kv, vv)[q] by {
                        let j = choose|j: int| 0 <= j < self.keys.len() && (#[trigger] self.keys@[j])@ == q;
                        self.lemma_slot(j);
                        if j < n {
                            assert(self.keys@[j] == old(self).keys@[j]);
                            assert(self.values@[j] == old(self).values@[j]);
                            old(self).lemma_slot(j);
                        }
                    }
                    assert(self.spec_map() =~= old(self).spec_map().insert(kv, vv));
                    assert(self.key_seq() =~= old(self).key_seq().push(kv));
                }
                None
            },
        }
    }

    pub fn clear(&mut self)
        ensures
            final(self)@ == Map::<K::V, V::V>::empty(),
            final(self).key_seq() == Seq::<K::V>::empty(),
    {
        *self = AssocList { keys: Vec::new(), values: Vec::new() };
        proof {
            assert(self.spec_map() =~= Map::<K::V, V::V>::empty());
            assert(self.key_seq() =~= Seq::<K::V>::empty());
        }
    }
}

impl<K: KeyEq, V: View> View for AssocList<K, V> {
    type V = Map<K::V, V::V>;

    open spec fn view(&self) -> Map<K::V, V::V> {
        self.spec_map()
    }
}

impl<K: KeyEq + DeepCopy, V: DeepCopy> DeepCopy for AssocList<K, V> {
    fn deep_copy(&self) -> (r: Self) {
        let mut r = AssocList::new();
        let n = self.len();
        let mut i: usize = 0;
        while i < n
            invariant
                n == self.key_seq().len(),
                i <= n,
                r.key_seq() == self.key_seq().subrange(0, i as int),
                r@ == self@.restrict(self.key_seq().subrange(0, i as int).to_set()),
            decreases n - i,
        {
            proof {
                use_type_invariant(self);
                self.lemma_keys();
            }
            let k = self.key_at(i).deep_copy();
            let v = self.value_at(i).deep_copy();
            let ghost before = r@;
            proof {
                assert(!self.key_seq().subrange(0, i as int).contains(k@));
                assert(!before.contains_key(k@));
            }
            r.insert(k, v);
            proof {
                assert(self.key_seq().subrange(0, i + 1) =~= self.key_seq().subrange(0, i as int).push(k@));
                let ghost pre = self.key_seq().subrange(0, i as int);
                Seq::lemma_to_set_insert_commutes(pre, k@);
                assert(pre + seq![k@] =~= self.key_seq().subrange(0, i + 1));
                assert(r@ =~= self@.restrict(self.key_seq().subrange(0, i + 1).to_set()));
            }
            i += 1;
        }
        proof {
            use_type_invariant(self);
            self.lemma_keys();
            assert(self.key_seq().subrange(0, n as int) =~= self.key_seq());
            assert(r@ =~= self@);
        }
        r
    }
}

} // verus!

verus! {

impl DeepCopy for () {
    fn deep_copy(&self) -> (r: Self) {
        ()
    }
}

/// A finite set of keys.
#[derive(Debug)]
pub struct KeySet<K: KeyEq> {
    members: AssocList<K, ()>,
}

impl<K: KeyEq> View for KeySet<K> {
    type V = Set<K::V>;

    closed spec fn view(&self) -> Set<K::V> {
        self.members@.dom()
    }
}

impl<K: KeyEq + DeepCopy> KeySet<K> {
    /// The members' views in listing order (`at` follows it).
    pub closed spec fn listing(&self) -> Seq<K::V> {
        self.members.key_seq()
    }

    pub fn new() -> (r: Self)
        ensures
            r@ == Set::<K::V>::empty(),
    {
        let r = KeySet { members: AssocList::new() };
        assert(r@ =~= Set::<K::V>::empty());
        r
    }

    pub fn len(&self) -> (r: usize)
        ensures
            r == self@.len(),
            r == self.listing().len(),
            self@.finite(),
            self.listing().no_duplicates(),
            self.listing().to_set() == self@,
            forall|i: int| 0 <= i < self.listing().len() ==> self@.contains(#[trigger] self.listing()[i]),
            forall|k: K::V| #[trigger] self@.contains(k) ==> exists|i: int|
                0 <= i < self.listing().len() && self.listing()[i] == k,
    {
        proof {
            use_type_invariant(&self.members);
            self.members.lemma_keys();
        }
        self.members.len()
    }

    pub fn contains(&self, k: &K) -> (r: bool)
        ensures
            r == self@.contains(k@),
    {
        self.members.contains_key(k)
    }

    pub fn insert(&mut self, k: K)
        ensures
            final(self)@ == old(self)@.insert(k@),
    {
        let _ = self.members.insert(k, ());
        assert(self@ =~= old(self)@.insert(k@));
    }

    /// The member at position `i` of the listing.
    pub fn at(&self, i: usize) -> (r: &K)
        requires
            i < self.listing().len(),
        ensures
            r@ == self.listing()[i as int],
            self@.contains(r@),
    {
        self.members.key_at(i)
    }

    /// Adds every member of `other`.
    pub fn extend(&mut self, other: &KeySet<K>)
        ensures
            final(self)@ == old(self)@.union(other@),
    {
        let n = other.len();
        let mut i: usize = 0;
        proof {
            use_type_invariant(&other.members);
            other.members.lemma_keys();
        }
        while i < n
            invariant
                n == other.members.key_seq().len(),
                other.members.inv(),
                i <= n,
                self@ == old(self)@.union(other.members.key_seq().subrange(0, i as int).to_set()),
            decreases n - i,
        {
            let k = other.members.key_at(i).deep_copy();
            let ghost pre = other.members.key_seq().subrange(0, i as int);
            self.insert(k);
            proof {
                Seq::lemma_to_set_insert_commutes(pre, k@);
                assert(pre + seq![k@] =~= other.members.key_seq().subrange(0, i + 1));
                assert(self@ =~= old(self)@.union(other.members.key_seq().subrange(0, i + 1).to_set()));
            }
            i += 1;
        }
        proof {
            assert(other.members.key_seq().subrange(0, n as int) =~= other.members.key_seq());
            assert(self@ =~= old(self)@.union(other@));
        }
    }
}

impl<K: KeyEq + DeepCopy> DeepCopy for KeySet<K> {
    fn deep_copy(&self) -> (r: Self) {
        KeySet { members: self.members.deep_copy() }
    }
}

} // verus!

verus! {

/// Copies every element of a vector.
pub fn copy_vec<T: DeepCopy>(v: &Vec<T>) -> (r: Vec<T>)
    ensures
        r@.map_values(|t: T| t@) == v@.map_values(|t: T| t@),
{
    let mut r: Vec<T> = Vec::new();
    let mut i: usize = 0;
    while i < v.len()
        invariant
            i <= v.len(),
            r.len() == i,
            forall|j: int| 0 <= j < i ==> (#[trigger] r@[j])@ == v@[j]@,
        decreases v.len() - i,
    {
        r.push(v[i].deep_copy());
        i += 1;
    }
    assert(r@.map_values(|t: T| t@) =~= v@.map_values(|t: T| t@));
    r
}

} // verus!
