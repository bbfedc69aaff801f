use crate::ordered_map::{lemma_map_of_at, lemma_map_of_push, map_of, OrderedMap};
use vstd::laws_eq::obeys_concrete_eq;
use vstd::prelude::*;

verus! {

/// An unsigned amount that a group can hold, and into which a base
/// (`u64`) amount converts without loss.
pub trait Amount: Copy {
    /// The number this amount stands for.
    spec fn amount(self) -> int;

    /// Whether `v` can be held.
    spec fn representable(v: int) -> bool;

    fn zero() -> (r: Self)
        ensures
            r.amount() == 0,
    ;

    /// `self + other`, or `None` when the sum cannot be held.
    fn checked_add_base(self, other: u64) -> (r: Option<Self>)
        ensures
            r is Some <==> Self::representable(self.amount() + other),
            r matches Some(v) ==> v.amount() == self.amount() + other,
    ;

    /// `self - other`, or `None` when the difference cannot be held.
    fn checked_sub_base(self, other: u64) -> (r: Option<Self>)
        ensures
            r is Some <==> Self::representable(self.amount() - other),
            r matches Some(v) ==> v.amount() == self.amount() - other,
    ;
}

impl Amount for u64 {
    open spec fn amount(self) -> int {
        self as int
    }

    open spec fn representable(v: int) -> bool {
        0 <= v <= u64::MAX
    }

    fn zero() -> (r: u64) {
        0
    }

    fn checked_add_base(self, other: u64) -> (r: Option<u64>) {
        self.checked_add(other)
    }

    fn checked_sub_base(self, other: u64) -> (r: Option<u64>) {
        self.checked_sub(other)
    }
}

impl Amount for u128 {
    open spec fn amount(self) -> int {
        self as int
    }

    open spec fn representable(v: int) -> bool {
        0 <= v <= u128::MAX
    }

    fn zero() -> (r: u128) {
        0
    }

    fn checked_add_base(self, other: u64) -> (r: Option<u128>) {
        self.checked_add(other as u128)
    }

    fn checked_sub_base(self, other: u64) -> (r: Option<u128>) {
        self.checked_sub(other as u128)
    }
}

/// The amount that `m` holds for `k`; a missing key holds zero.
pub open spec fn amount_of<K, T: Amount>(m: Map<K, T>, k: K) -> int {
    if m.contains_key(k) {
        m[k].amount()
    } else {
        0
    }
}

/// `a + b` when `add`, else `a - b`.
pub open spec fn combined(a: int, b: int, add: bool) -> int {
    if add {
        a + b
    } else {
        a - b
    }
}

/// Whether merging the amount `other` holds for `k` into `m` can be held.
pub open spec fn merge_fits_at<K, T: Amount>(m: Map<K, T>, other: Map<K, u64>, k: K, add: bool) -> bool {
    T::representable(combined(amount_of(m, k), other[k] as int, add))
}

/// Merging the key `e` failed: it is the first key of `order` whose merge
/// cannot be held.
pub open spec fn first_failure<K, T: Amount>(
    m: Map<K, T>,
    other: Map<K, u64>,
    order: Seq<K>,
    e: K,
    add: bool,
) -> bool {
    exists|i: int|
        0 <= i < order.len() && order[i] == e && !merge_fits_at(m, other, e, add) && forall|j: int|
            0 <= j < i ==> #[trigger] merge_fits_at(m, other, order[j], add)
}

/// `post` is `pre` with every amount of `other` merged in key by key.
pub open spec fn merged<K, T: Amount>(
    pre: Map<K, T>,
    post: Map<K, T>,
    other: Map<K, u64>,
    add: bool,
) -> bool {
    &&& post.dom() == pre.dom().union(other.dom())
    &&& forall|k: K| #[trigger]
        other.contains_key(k) ==> post[k].amount() == combined(amount_of(pre, k), other[k] as int, add)
    &&& forall|k: K| #[trigger] pre.contains_key(k) && !other.contains_key(k) ==> post[k] == pre[k]
}

/// A merge failed at `key`: its amount would leave the representable range.
pub struct ArithmeticFailure<K> {
    pub key: K,
}

/// Amounts grouped by resource.
pub struct AmountGroup<K, T> {
    values: OrderedMap<K, T>,
}

impl<K, T> View for AmountGroup<K, T> {
    type V = Map<K, T>;

    closed spec fn view(&self) -> Map<K, T> {
        self.values@
    }
}

impl<K: Copy + PartialEq, T: Amount> AmountGroup<K, T> {
    pub closed spec fn wf(&self) -> bool {
        self.values.wf()
    }

    /// The resources in the order they joined the group.
    pub closed spec fn key_seq(&self) -> Seq<K> {
        self.values.key_seq()
    }

    /// An empty group.
    pub fn new() -> (r: Self)
        requires
            obeys_concrete_eq::<K>(),
        ensures
            r.wf(),
            r@ == Map::<K, T>::empty(),
    {
        AmountGroup { values: OrderedMap::new() }
    }

    /// A mutable handle on the amount of `key`, which joins the group with
    /// zero first if it is missing.
    pub fn get_mut_item(&mut self, key: &K) -> (r: &mut T)
        requires
            old(self).wf(),
        ensures
            final(self).wf(),
            r.amount() == amount_of(old(self)@, *key),
            old(self)@.contains_key(*key) ==> *r == old(self)@[*key],
            final(self)@ == old(self)@.insert(*key, *final(r)),
    {
        let i = match self.values.position(key) {
            Some(i) => i,
            None => {
                self.values.insert(*key, T::zero());
                proof {
                    self.values.lemma_wf();
                    lemma_map_of_at(
                        self.values.key_seq(),
                        self.values.value_seq(),
                        self.values.key_seq().len() - 1,
                    );
                }
                self.values.len() - 1
            },
        };
        proof {
            self.values.lemma_wf();
            assert(self.values.key_seq()[i as int] == *key);
            assert(self@.insert(*key, self@[*key]) =~= self@);
        }
        self.values.value_at_mut(i)
    }

    /// The amount of `key`, or zero when it is missing.
    pub fn get_item(&self, key: &K) -> (r: T)
        requires
            self.wf(),
        ensures
            r.amount() == amount_of(self@, *key),
            self@.contains_key(*key) ==> r == self@[*key],
    {
        match self.values.get(key) {
            Some(v) => *v,
            None => T::zero(),
        }
    }

    /// The number of resources in the group.
    pub fn resource_count(&self) -> (r: usize)
        requires
            self.wf(),
        ensures
            r == self@.dom().len(),
    {
        proof {
            self.values.lemma_wf();
            assert(self@.dom() =~= self.values.key_seq().to_set());
            self.values.key_seq().unique_seq_to_set();
        }
        self.values.len()
    }

    /// The sub-group of exactly `keys`, missing ones holding zero.
    pub fn select(&self, keys: &Vec<K>) -> (r: AmountGroup<K, T>)
        requires
            self.wf(),
        ensures
            r.wf(),
            r@.dom() == keys@.to_set(),
            forall|k: K| #[trigger] r@.contains_key(k) ==> r@[k].amount() == amount_of(self@, k),
            forall|k: K| #[trigger] r@.contains_key(k) && self@.contains_key(k) ==> r@[k] == self@[k],
    {
        proof {
            self.values.lemma_wf();
        }
        let mut result: AmountGroup<K, T> = AmountGroup::new();
        let mut i: usize = 0;
        while i < keys.len()
            invariant
                self.wf(),
                result.wf(),
                0 <= i <= keys@.len(),
                result@.dom() == keys@.take(i as int).to_set(),
                forall|k: K| #[trigger]
                    result@.contains_key(k) ==> result@[k].amount() == amount_of(self@, k),
                forall|k: K| #[trigger]
                    result@.contains_key(k) && self@.contains_key(k) ==> result@[k] == self@[k],
            decreases keys@.len() - i,
        {
            let k = keys[i];
            let v = self.get_item(&k);
            result.values.insert(k, v);
            proof {
                assert(keys@.take(i + 1) =~= keys@.take(i as int).push(k));
                broadcast use Seq::lemma_push_to_set_commute;
            }
            i += 1;
        }
        proof {
            assert(keys@.take(i as int) =~= keys@);
        }
        result
    }

    /// Adds every amount of `other`; fails naming the first resource whose
    /// sum cannot be held, leaving the group unchanged.
    pub fn add_all(&mut self, other: &AmountGroup<K, u64>) -> (r: Result<(), ArithmeticFailure<K>>)
        requires
            old(self).wf(),
            other.wf(),
        ensures
            final(self).wf(),
            match r {
                Ok(()) => merged(old(self)@, final(self)@, other@, true),
                Err(e) => final(self)@ == old(self)@ && other@.contains_key(e.key) && first_failure(
                    old(self)@,
                    other@,
                    other.key_seq(),
                    e.key,
                    true,
                ),
            },
            r is Ok <==> forall|k: K| #[trigger]
                other@.contains_key(k) ==> merge_fits_at(old(self)@, other@, k, true),
    {
        self.apply_all(other, true)
    }

    /// Subtracts every amount of `other`; fails naming the first resource
    /// whose difference cannot be held, leaving the group unchanged.
    pub fn sub_all(&mut self, other: &AmountGroup<K, u64>) -> (r: Result<(), ArithmeticFailure<K>>)
        requires
            old(self).wf(),
            other.wf(),
        ensures
            final(self).wf(),
            match r {
                Ok(()) => merged(old(self)@, final(self)@, other@, false),
                Err(e) => final(self)@ == old(self)@ && other@.contains_key(e.key) && first_failure(
                    old(self)@,
                    other@,
                    other.key_seq(),
                    e.key,
                    false,
                ),
            },
            r is Ok <==> forall|k: K| #[trigger]
                other@.contains_key(k) ==> merge_fits_at(old(self)@, other@, k, false),
    {
        self.apply_all(other, false)
    }

    /// Merges `other` key by key, adding when `add` and subtracting
    /// otherwise; all results are computed before any is written.
    fn apply_all(&mut self, other: &AmountGroup<K, u64>, add: bool) -> (r: Result<
        (),
        ArithmeticFailure<K>,
    >)
        requires
            old(self).wf(),
            other.wf(),
        ensures
            final(self).wf(),
            match r {
                Ok(()) => merged(old(self)@, final(self)@, other@, add),
                Err(e) => final(self)@ == old(self)@ && other@.contains_key(e.key) && first_failure(
                    old(self)@,
                    other@,
                    other.key_seq(),
                    e.key,
                    add,
                ),
            },
            r is Ok <==> forall|k: K| #[trigger]
                other@.contains_key(k) ==> merge_fits_at(old(self)@, other@, k, add),
    {
        proof {
            other.values.lemma_wf();
            self.values.lemma_wf();
        }
        let ghost ks = other.values.key_seq();
        let ghost os = other.values.value_seq();
        let n = other.values.len();
        let mut computed: Vec<T> = Vec::new();
        let mut i: usize = 0;
        while i < n
            invariant
                self.wf(),
                other.wf(),
                self@ == old(self)@,
                n == ks.len(),
                ks == other.values.key_seq(),
                os == other.values.value_seq(),
                ks.len() == os.len(),
                ks.no_duplicates(),
                forall|j: int|
                    0 <= j < ks.len() ==> other@.contains_key(#[trigger] ks[j]) && other@[ks[j]]
                        == os[j],
                0 <= i <= n,
                computed@.len() == i,
                forall|j: int|
                    0 <= j < i ==> merge_fits_at(old(self)@, other@, #[trigger] ks[j], add),
                forall|j: int|
                    0 <= j < i ==> (#[trigger] computed@[j]).amount() == combined(
                        amount_of(old(self)@, ks[j]),
                        os[j] as int,
                        add,
                    ),
            decreases n - i,
        {
            let k = *other.values.key_at(i);
            let b = *other.values.value_at(i);
            let a = self.get_item(&k);
            let c = if add {
                a.checked_add_base(b)
            } else {
                a.checked_sub_base(b)
            };
            match c {
                Some(v) => {
                    computed.push(v);
                },
                None => {
                    proof {
                        assert(other@.contains_key(k)) by {
                            assert(ks[i as int] == k);
                        }
                        assert(first_failure(old(self)@, other@, ks, k, add)) by {
                            assert(ks[i as int] == k);
                        }
                    }
                    return Err(ArithmeticFailure { key: k });
                },
            }
            i += 1;
        }
        let mut j: usize = 0;
        while j < n
            invariant
                self.wf(),
                other.wf(),
                n == ks.len(),
                ks.len() == os.len(),
                ks.no_duplicates(),
                computed@.len() == n,
                ks == other.values.key_seq(),
                0 <= j <= n,
                self@ == old(self)@.union_prefer_right(
                    map_of(ks.take(j as int), computed@.take(j as int)),
                ),
            decreases n - j,
        {
            let k = *other.values.key_at(j);
            let v = computed[j];
            proof {
                assert(ks.take(j + 1) =~= ks.take(j as int).push(k));
                assert(computed@.take(j + 1) =~= computed@.take(j as int).push(v));
                assert(ks.take(j as int).no_duplicates());
                assert(!ks.take(j as int).contains(k)) by {
                    if ks.take(j as int).contains(k) {
                        let t = choose|t: int| 0 <= t < j && ks.take(j as int)[t] == k;
                        assert(ks[t] == ks[j as int]);
                    }
                }
                lemma_map_of_push(ks.take(j as int), computed@.take(j as int), k, v);
            }
            self.values.insert(k, v);
            j += 1;
            proof {
                assert(self@ =~= old(self)@.union_prefer_right(
                    map_of(ks.take(j as int), computed@.take(j as int)),
                ));
            }
        }
        proof {
            assert(ks.take(n as int) =~= ks);
            assert(computed@.take(n as int) =~= computed@);
            assert forall|k: K| #[trigger] other@.contains_key(k) implies self@[k].amount()
                == combined(amount_of(old(self)@, k), other@[k] as int, add) by {
                let t = choose|t: int| 0 <= t < ks.len() && ks[t] == k;
                lemma_map_of_at(ks, computed@, t);
            }
            assert forall|k: K| #[trigger] other@.contains_key(k) implies merge_fits_at(
                old(self)@,
                other@,
                k,
                add,
            ) by {
                let t = choose|t: int| 0 <= t < ks.len() && ks[t] == k;
            }
            assert(self@.dom() =~= old(self)@.dom().union(other@.dom()));
        }
        Ok(())
    }
}

} // verus!
