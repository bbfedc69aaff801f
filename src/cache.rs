use crate::ordered_map::OrderedMap;
use crate::time::Instant;
use vstd::laws_eq::obeys_concrete_eq;
use vstd::prelude::*;

verus! {

/// A cached value, tagged with the execution scope that fetched it.
pub struct CacheEntry<S, T> {
    pub transaction_hash: S,
    pub cached_value: T,
    pub timestamp: Instant,
}

/// Whether `cache` answers `k` within `scope`.
pub open spec fn is_hit<K, S, T>(cache: Map<K, CacheEntry<S, T>>, k: K, scope: S) -> bool {
    cache.contains_key(k) && cache[k].transaction_hash == scope
}

/// The keys of `keys` that `cache` does not answer within `scope`, in order.
pub open spec fn missing_keys<K, S, T>(
    cache: Map<K, CacheEntry<S, T>>,
    keys: Seq<K>,
    scope: S,
) -> Seq<K>
    decreases keys.len(),
{
    if keys.len() == 0 {
        Seq::empty()
    } else {
        let rest = missing_keys(cache, keys.drop_last(), scope);
        if is_hit(cache, keys.last(), scope) {
            rest
        } else {
            rest.push(keys.last())
        }
    }
}

/// The cached values of the keys of `keys` that `cache` answers within `scope`.
pub open spec fn hit_values<K, S, T>(
    cache: Map<K, CacheEntry<S, T>>,
    keys: Seq<K>,
    scope: S,
) -> Map<K, T>
    decreases keys.len(),
{
    if keys.len() == 0 {
        Map::empty()
    } else {
        let rest = hit_values(cache, keys.drop_last(), scope);
        if is_hit(cache, keys.last(), scope) {
            rest.insert(keys.last(), cache[keys.last()].cached_value)
        } else {
            rest
        }
    }
}

/// The present values of a remote answer; absent ones are left out.
pub open spec fn fetched_values<K, T>(fetched: Seq<(K, Option<T>)>) -> Map<K, T>
    decreases fetched.len(),
{
    if fetched.len() == 0 {
        Map::empty()
    } else {
        let rest = fetched_values(fetched.drop_last());
        match fetched.last().1 {
            Some(v) => rest.insert(fetched.last().0, v),
            None => rest,
        }
    }
}

/// The cache entries that the present values of a remote answer become.
pub open spec fn stamped<K, S, T>(values: Map<K, T>, scope: S, now: Instant) -> Map<
    K,
    CacheEntry<S, T>,
> {
    values.map_values(|v: T| CacheEntry { transaction_hash: scope, cached_value: v, timestamp: now })
}

/// Memoizes the answers of a batched remote read within one execution scope.
///
/// An entry only answers lookups made under the scope that stored it; a new
/// scope simply misses stale entries, which need no eviction.
pub struct TransactionScopedCache<K, S, T> {
    entries: OrderedMap<K, CacheEntry<S, T>>,
}

impl<K, S, T> View for TransactionScopedCache<K, S, T> {
    type V = Map<K, CacheEntry<S, T>>;

    closed spec fn view(&self) -> Map<K, CacheEntry<S, T>> {
        self.entries@
    }
}

impl<K: Copy + PartialEq, S: Copy + PartialEq, T: Copy> TransactionScopedCache<K, S, T> {
    pub closed spec fn wf(&self) -> bool {
        &&& self.entries.wf()
        &&& obeys_concrete_eq::<S>()
    }

    pub fn new() -> (r: Self)
        requires
            obeys_concrete_eq::<K>(),
            obeys_concrete_eq::<S>(),
        ensures
            r.wf(),
            r@ == Map::<K, CacheEntry<S, T>>::empty(),
    {
        TransactionScopedCache { entries: OrderedMap::new() }
    }

    /// Splits `keys` into the values this cache answers within `scope` and
    /// the keys it does not answer, in request order.
    pub fn lookup(&self, keys: &Vec<K>, scope: &S) -> (r: (OrderedMap<K, T>, Vec<K>))
        requires
            self.wf(),
        ensures
            r.0.wf(),
            r.0@ == hit_values(self@, keys@, *scope),
            r.1@ == missing_keys(self@, keys@, *scope),
    {
        proof {
            self.entries.lemma_wf();
        }
        let mut found: OrderedMap<K, T> = OrderedMap::new();
        let mut missing: Vec<K> = Vec::new();
        let mut i: usize = 0;
        while i < keys.len()
            invariant
                self.wf(),
                found.wf(),
                0 <= i <= keys@.len(),
                found@ == hit_values(self@, keys@.take(i as int), *scope),
                missing@ == missing_keys(self@, keys@.take(i as int), *scope),
            decreases keys@.len() - i,
        {
            let k = keys[i];
            proof {
                assert(keys@.take(i + 1).drop_last() =~= keys@.take(i as int));
                reveal(obeys_concrete_eq);
            }
            match self.entries.get(&k) {
                Some(entry) => {
                    if entry.transaction_hash == *scope {
                        found.insert(k, entry.cached_value);
                    } else {
                        missing.push(k);
                    }
                },
                None => {
                    missing.push(k);
                },
            }
            i += 1;
        }
        proof {
            assert(keys@.take(i as int) =~= keys@);
        }
        (found, missing)
    }

    /// Stores each present value of a remote answer under `scope`, and adds
    /// it to `found`; absent values are neither cached nor reported.
    pub fn store_fetched(
        &mut self,
        found: &mut OrderedMap<K, T>,
        fetched: Vec<(K, Option<T>)>,
        scope: S,
        now: Instant,
    )
        requires
            old(self).wf(),
            old(found).wf(),
        ensures
            final(self).wf(),
            final(found).wf(),
            final(self)@ == old(self)@.union_prefer_right(
                stamped(fetched_values(fetched@), scope, now),
            ),
            final(found)@ == old(found)@.union_prefer_right(fetched_values(fetched@)),
    {
        let mut i: usize = 0;
        while i < fetched.len()
            invariant
                self.wf(),
                found.wf(),
                0 <= i <= fetched@.len(),
                self@ == old(self)@.union_prefer_right(
                    stamped(fetched_values(fetched@.take(i as int)), scope, now),
                ),
                found@ == old(found)@.union_prefer_right(fetched_values(fetched@.take(i as int))),
            decreases fetched@.len() - i,
        {
            let ghost prefix = fetched@.take(i as int);
            proof {
                assert(fetched@.take(i + 1).drop_last() =~= prefix);
            }
            let (k, value) = fetched[i];
            match value {
                Some(v) => {
                    self.entries.insert(
                        k,
                        CacheEntry { transaction_hash: scope, cached_value: v, timestamp: now },
                    );
                    found.insert(k, v);
                    proof {
                        assert(self@ =~= old(self)@.union_prefer_right(
                            stamped(fetched_values(fetched@.take(i + 1)), scope, now),
                        ));
                        assert(found@ =~= old(found)@.union_prefer_right(
                            fetched_values(fetched@.take(i + 1)),
                        ));
                    }
                },
                None => {},
            }
            i += 1;
        }
        proof {
            assert(fetched@.take(i as int) =~= fetched@);
        }
    }

    /// Answers `keys` within `scope`: cached values of this scope are used
    /// as they are, and the remaining keys are asked of `fetch` in one
    /// batch, which is skipped when nothing remains. Present answers are
    /// cached under `scope` and returned; absent ones are not cached.
    pub fn batched_get<F: FnOnce(Vec<K>) -> Vec<(K, Option<T>)>>(
        &mut self,
        keys: &Vec<K>,
        scope: S,
        now: Instant,
        fetch: F,
    ) -> (r: OrderedMap<K, T>)
        requires
            old(self).wf(),
            forall|ks: Vec<K>| call_requires(fetch, (ks,)),
        ensures
            final(self).wf(),
            r.wf(),
            missing_keys(old(self)@, keys@, scope).len() == 0 ==> {
                &&& final(self)@ == old(self)@
                &&& r@ == hit_values(old(self)@, keys@, scope)
            },
            missing_keys(old(self)@, keys@, scope).len() > 0 ==> exists|
                ks: Vec<K>,
                fetched: Vec<(K, Option<T>)>,
            |
                {
                    &&& ks@ == missing_keys(old(self)@, keys@, scope)
                    &&& call_ensures(fetch, (ks,), fetched)
                    &&& final(self)@ == old(self)@.union_prefer_right(
                        stamped(fetched_values(fetched@), scope, now),
                    )
                    &&& r@ == hit_values(old(self)@, keys@, scope).union_prefer_right(
                        fetched_values(fetched@),
                    )
                },
    {
        let (mut found, missing) = self.lookup(keys, &scope);
        if missing.len() == 0 {
            return found;
        }
        let ghost ks = missing;
        let fetched = fetch(missing);
        let ghost answer = fetched;
        self.store_fetched(&mut found, fetched, scope, now);
        proof {
            assert(call_ensures(fetch, (ks,), answer));
        }
        found
    }
}

/// When `cache` answers every key of `keys` within `scope`, nothing is
/// missing.
pub proof fn lemma_all_hits_leave_nothing_missing<K, S, T>(
    cache: Map<K, CacheEntry<S, T>>,
    keys: Seq<K>,
    scope: S,
)
    requires
        forall|i: int| 0 <= i < keys.len() ==> is_hit(cache, #[trigger] keys[i], scope),
    ensures
        missing_keys(cache, keys, scope).len() == 0,
    decreases keys.len(),
{
    if keys.len() > 0 {
        let rest = keys.drop_last();
        assert forall|i: int| 0 <= i < rest.len() implies is_hit(cache, #[trigger] rest[i], scope) by {
            assert(rest[i] == keys[i]);
        }
        lemma_all_hits_leave_nothing_missing(cache, rest, scope);
        assert(is_hit(cache, keys[keys.len() - 1], scope));
    }
}

/// Repeating a lookup within the same scope needs no remote call: once the
/// present answers for the keys that were missing are stored, every key of
/// the lookup is answered.
pub proof fn lemma_repeat_in_same_scope_is_served<K, S, T>(
    pre: Map<K, CacheEntry<S, T>>,
    keys: Seq<K>,
    scope: S,
    now: Instant,
    fetched: Seq<(K, Option<T>)>,
)
    requires
        forall|k: K|
            keys.contains(k) && !is_hit(pre, k, scope) ==> #[trigger] fetched_values(
                fetched,
            ).contains_key(k),
    ensures
        missing_keys(
            pre.union_prefer_right(stamped(fetched_values(fetched), scope, now)),
            keys,
            scope,
        ).len() == 0,
{
    let post = pre.union_prefer_right(stamped(fetched_values(fetched), scope, now));
    assert forall|i: int| 0 <= i < keys.len() implies is_hit(post, #[trigger] keys[i], scope) by {
        let k = keys[i];
        assert(keys.contains(k));
        if !is_hit(pre, k, scope) {
            assert(fetched_values(fetched).contains_key(k));
        }
    }
    lemma_all_hits_leave_nothing_missing(post, keys, scope);
}

/// In a scope under which nothing was stored, every key is missing, in
/// request order: stale entries of other scopes answer nothing.
pub proof fn lemma_new_scope_misses_everything<K, S, T>(
    cache: Map<K, CacheEntry<S, T>>,
    keys: Seq<K>,
    scope: S,
)
    requires
        forall|k: K| #[trigger] cache.contains_key(k) ==> cache[k].transaction_hash != scope,
    ensures
        missing_keys(cache, keys, scope) == keys,
    decreases keys.len(),
{
    if keys.len() > 0 {
        lemma_new_scope_misses_everything(cache, keys.drop_last(), scope);
        assert(keys.drop_last().push(keys.last()) =~= keys);
    }
}

} // verus!
