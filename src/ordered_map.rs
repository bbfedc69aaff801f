use vstd::laws_eq::obeys_concrete_eq;
use vstd::prelude::*;

verus! {

/// A map whose keys keep the order in which they were first inserted.
///
/// Keys are compared with their `PartialEq`, which the map requires to agree
/// with equality of values (`obeys_concrete_eq`).
pub struct OrderedMap<K, V> {
    keys: Vec<K>,
    vals: Vec<V>,
}

/// The map described by parallel sequences of keys and values.
pub open spec fn map_of<K, V>(keys: Seq<K>, vals: Seq<V>) -> Map<K, V> {
    Map::new(|k: K| keys.contains(k), |k: K| vals[keys.index_of(k)])
}

/// In a sequence without duplicates, the position of an element is unique.
pub proof fn lemma_index_of_unique<K>(keys: Seq<K>, i: int)
    requires
        keys.no_duplicates(),
        0 <= i < keys.len(),
    ensures
        keys.index_of(keys[i]) == i,
{
    assert(keys.contains(keys[i]));
    let j = keys.index_of(keys[i]);
    assert(0 <= j < keys.len() && keys[j] == keys[i]);
}

/// Reading the map at a stored key gives the value stored beside it.
pub proof fn lemma_map_of_at<K, V>(keys: Seq<K>, vals: Seq<V>, i: int)
    requires
        keys.no_duplicates(),
        0 <= i < keys.len(),
    ensures
        map_of(keys, vals).contains_key(keys[i]),
        map_of(keys, vals)[keys[i]] == vals[i],
{
    lemma_index_of_unique(keys, i);
    assert(keys.contains(keys[i]));
}

/// Appending a fresh key and its value inserts them into the map.
pub proof fn lemma_map_of_push<K, V>(keys: Seq<K>, vals: Seq<V>, k: K, v: V)
    requires
        keys.no_duplicates(),
        keys.len() == vals.len(),
        !keys.contains(k),
    ensures
        keys.push(k).no_duplicates(),
        map_of(keys.push(k), vals.push(v)) == map_of(keys, vals).insert(k, v),
{
    let nk = keys.push(k);
    let nv = vals.push(v);
    assert(nk.no_duplicates()) by {
        assert forall|a: int, b: int| 0 <= a < nk.len() && 0 <= b < nk.len() && a != b implies nk[a]
            != nk[b] by {
            if a == keys.len() {
                assert(keys[b] != k);
            } else if b == keys.len() {
                assert(keys[a] != k);
            }
        }
    }
    assert forall|x: K| #[trigger] map_of(nk, nv).contains_key(x) == map_of(keys, vals).insert(
        k,
        v,
    ).contains_key(x) by {
        if keys.contains(x) {
            let j = choose|j: int| 0 <= j < keys.len() && keys[j] == x;
            assert(nk[j] == x);
        }
        if x == k {
            assert(nk[keys.len() as int] == k);
        }
    }
    assert forall|x: K| #[trigger] map_of(nk, nv).contains_key(x) implies map_of(nk, nv)[x]
        == map_of(keys, vals).insert(k, v)[x] by {
        if x == k {
            lemma_index_of_unique(nk, keys.len() as int);
        } else {
            let j = choose|j: int| 0 <= j < nk.len() && nk[j] == x;
            assert(j < keys.len());
            lemma_index_of_unique(nk, j);
            lemma_index_of_unique(keys, j);
        }
    }
    assert(map_of(nk, nv) =~= map_of(keys, vals).insert(k, v));
}

/// Replacing the value at a position rebinds that position's key.
pub proof fn lemma_map_of_update<K, V>(keys: Seq<K>, vals: Seq<V>, i: int, v: V)
    requires
        keys.no_duplicates(),
        keys.len() == vals.len(),
        0 <= i < keys.len(),
    ensures
        map_of(keys, vals.update(i, v)) == map_of(keys, vals).insert(keys[i], v),
{
    let nv = vals.update(i, v);
    assert forall|x: K| #[trigger] map_of(keys, nv).contains_key(x) implies map_of(keys, nv)[x]
        == map_of(keys, vals).insert(keys[i], v)[x] by {
        let j = choose|j: int| 0 <= j < keys.len() && keys[j] == x;
        lemma_index_of_unique(keys, j);
        if j != i {
            assert(keys[j] != keys[i]);
        }
    }
    assert(map_of(keys, nv) =~= map_of(keys, vals).insert(keys[i], v));
}

impl<K, V> View for OrderedMap<K, V> {
    type V = Map<K, V>;

    closed spec fn view(&self) -> Map<K, V> {
        map_of(self.keys@, self.vals@)
    }
}

impl<K: PartialEq, V> OrderedMap<K, V> {
    /// The keys in insertion order.
    pub closed spec fn key_seq(&self) -> Seq<K> {
        self.keys@
    }

    /// The values, position by position with `key_seq`.
    pub closed spec fn value_seq(&self) -> Seq<V> {
        self.vals@
    }

    pub closed spec fn wf(&self) -> bool {
        &&& obeys_concrete_eq::<K>()
        &&& self.keys@.len() == self.vals@.len()
        &&& self.keys@.no_duplicates()
    }

    /// Facts that hold of every well-formed map.
    pub proof fn lemma_wf(&self)
        requires
            self.wf(),
        ensures
            obeys_concrete_eq::<K>(),
            self.key_seq().len() == self.value_seq().len(),
            self.key_seq().no_duplicates(),
            forall|k: K| #[trigger] self@.contains_key(k) <==> self.key_seq().contains(k),
            forall|i: int|
                0 <= i < self.key_seq().len() ==> #[trigger] self@[self.key_seq()[i]]
                    == self.value_seq()[i],
    {
        assert forall|i: int| 0 <= i < self.key_seq().len() implies #[trigger] self@[
            self.key_seq()[i]] == self.value_seq()[i] by {
            lemma_map_of_at(self.keys@, self.vals@, i);
        }
    }

    pub fn new() -> (r: Self)
        requires
            obeys_concrete_eq::<K>(),
        ensures
            r.wf(),
            r@ == Map::<K, V>::empty(),
            r.key_seq() == Seq::<K>::empty(),
    {
        let r = OrderedMap { keys: Vec::new(), vals: Vec::new() };
        assert(r@ =~= Map::<K, V>::empty());
        r
    }

    /// The number of keys.
    pub fn len(&self) -> (r: usize)
        requires
            self.wf(),
        ensures
            r == self.key_seq().len(),
    {
        self.keys.len()
    }

    /// The position of `k`, if it is present.
    pub fn position(&self, k: &K) -> (r: Option<usize>)
        requires
            self.wf(),
        ensures
            match r {
                Some(i) => i < self.key_seq().len() && self.key_seq()[i as int] == *k,
                None => !self@.contains_key(*k),
            },
    {
        let mut i: usize = 0;
        while i < self.keys.len()
            invariant
                self.wf(),
                0 <= i <= self.keys@.len(),
                forall|j: int| 0 <= j < i ==> self.keys@[j] != *k,
            decreases self.keys@.len() - i,
        {
            proof {
                reveal(obeys_concrete_eq);
            }
            if self.keys[i] == *k {
                return Some(i);
            }
            i += 1;
        }
        None
    }

    /// The key at position `i`.
    pub fn key_at(&self, i: usize) -> (r: &K)
        requires
            self.wf(),
            i < self.key_seq().len(),
        ensures
            *r == self.key_seq()[i as int],
    {
        &self.keys[i]
    }

    /// The value at position `i`.
    pub fn value_at(&self, i: usize) -> (r: &V)
        requires
            self.wf(),
            i < self.key_seq().len(),
        ensures
            *r == self.value_seq()[i as int],
            *r == self@[self.key_seq()[i as int]],
    {
        proof {
            lemma_map_of_at(self.keys@, self.vals@, i as int);
        }
        &self.vals[i]
    }

    /// The value stored under `k`, if any.
    pub fn get(&self, k: &K) -> (r: Option<&V>)
        requires
            self.wf(),
        ensures
            match r {
                Some(v) => self@.contains_key(*k) && *v == self@[*k],
                None => !self@.contains_key(*k),
            },
    {
        match self.position(k) {
            Some(i) => Some(self.value_at(i)),
            None => None,
        }
    }

    /// Binds `k` to `v`; a new key goes last, a present one keeps its place.
    pub fn insert(&mut self, k: K, v: V)
        requires
            old(self).wf(),
        ensures
            final(self).wf(),
            final(self)@ == old(self)@.insert(k, v),
            old(self)@.contains_key(k) ==> final(self).key_seq() == old(self).key_seq(),
            !old(self)@.contains_key(k) ==> final(self).key_seq() == old(self).key_seq().push(k),
    {
        match self.position(&k) {
            Some(i) => {
                proof {
                    lemma_map_of_update(self.keys@, self.vals@, i as int, v);
                    self.lemma_wf();
                }
                self.vals.set(i, v);
            },
            None => {
                proof {
                    self.lemma_wf();
                    lemma_map_of_push(self.keys@, self.vals@, k, v);
                }
                self.keys.push(k);
                self.vals.push(v);
            },
        }
    }

    /// A mutable handle on the value at position `i`.
    pub fn value_at_mut(&mut self, i: usize) -> (r: &mut V)
        requires
            old(self).wf(),
            i < old(self).key_seq().len(),
        ensures
            *r == old(self)@[old(self).key_seq()[i as int]],
            final(self).wf(),
            final(self).key_seq() == old(self).key_seq(),
            final(self)@ == old(self)@.insert(old(self).key_seq()[i as int], *final(r)),
    {
        proof {
            lemma_map_of_at(self.keys@, self.vals@, i as int);
            assert forall|x: V|
                map_of(self.keys@, #[trigger] self.vals@.update(i as int, x)) == map_of(
                    self.keys@,
                    self.vals@,
                ).insert(self.keys@[i as int], x) by {
                lemma_map_of_update(self.keys@, self.vals@, i as int, x);
            }
        }
        &mut self.vals[i]
    }
}

} // verus!
