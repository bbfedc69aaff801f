use crate::ordered_map::OrderedMap;
use crate::service_status::{
    initial_statuses,
    is_active,
    statuses_after,
    OperatingStatus,
    ServiceError,
    ServiceStatus,
    ServiceVariantProvider,
    StatusChangeType,
};
use vstd::laws_eq::obeys_concrete_eq;
use vstd::prelude::*;

verus! {

/// The service statuses of every registered scope.
pub struct ServiceManager<K, T> {
    entries: OrderedMap<K, ServiceStatus<T>>,
}

impl<K, T> View for ServiceManager<K, T> {
    type V = Map<K, Map<T, OperatingStatus>>;

    closed spec fn view(&self) -> Map<K, Map<T, OperatingStatus>> {
        self.entries@.map_values(|s: ServiceStatus<T>| s@)
    }
}

impl<K: PartialEq, T: PartialEq + ServiceVariantProvider> ServiceManager<K, T> {
    pub closed spec fn wf(&self) -> bool {
        &&& self.entries.wf()
        &&& obeys_concrete_eq::<T>()
        &&& forall|k: K| #[trigger] self.entries@.contains_key(k) ==> self.entries@[k].wf()
    }

    pub fn new() -> (r: Self)
        requires
            obeys_concrete_eq::<K>(),
            obeys_concrete_eq::<T>(),
        ensures
            r.wf(),
            r@ == Map::<K, Map<T, OperatingStatus>>::empty(),
    {
        let r = ServiceManager { entries: OrderedMap::new() };
        assert(r@ =~= Map::<K, Map<T, OperatingStatus>>::empty());
        r
    }

    /// Registers scope `key` with every declared service enabled and unlocked.
    pub fn new_entry(&mut self, key: K) -> (r: Result<(), ServiceError>)
        requires
            old(self).wf(),
        ensures
            final(self).wf(),
            r is Ok,
            exists|variants: Vec<T>|
                call_ensures(T::variants, (), variants) && final(self)@ == old(self)@.insert(
                    key,
                    initial_statuses(variants@),
                ),
    {
        let status = ServiceStatus::new();
        let ghost s = status@;
        self.entries.insert(key, status);
        proof {
            assert(self@ =~= old(self)@.insert(key, s));
        }
        Ok(())
    }

    /// Whether `service` is enabled in scope `key`.
    pub fn check(&self, key: K, service: T) -> (r: Result<bool, ServiceError>)
        requires
            self.wf(),
        ensures
            match r {
                Ok(b) => self@.contains_key(key) && b == is_active(self@[key], service),
                Err(e) => !self@.contains_key(key) && e == ServiceError::NotFound,
            },
    {
        match self.entries.get(&key) {
            Some(entry) => Ok(entry.check(&service)),
            None => Err(ServiceError::NotFound),
        }
    }

    /// Fails unless scope `key` is registered and `service` is enabled in it.
    pub fn assert_active(&self, key: K, service: &T) -> (r: Result<(), ServiceError>)
        requires
            self.wf(),
        ensures
            !self@.contains_key(key) ==> r == Err::<(), ServiceError>(ServiceError::NotFound),
            self@.contains_key(key) && is_active(self@[key], *service) ==> r is Ok,
            self@.contains_key(key) && !is_active(self@[key], *service) ==> r == Err::<
                (),
                ServiceError,
            >(ServiceError::NotActive),
    {
        match self.entries.get(&key) {
            Some(entry) => entry.assert_active(service),
            None => Err(ServiceError::NotFound),
        }
    }

    /// Sets the status of `service` in scope `key` as `status_change_type`
    /// permits.
    pub fn update(
        &mut self,
        key: K,
        service: T,
        new_status: bool,
        status_change_type: StatusChangeType,
    ) -> (r: Result<(), ServiceError>)
        requires
            old(self).wf(),
        ensures
            final(self).wf(),
            !old(self)@.contains_key(key) ==> r == Err::<(), ServiceError>(ServiceError::NotFound)
                && final(self)@ == old(self)@,
            old(self)@.contains_key(key) ==> match statuses_after(
                old(self)@[key],
                service,
                new_status,
                status_change_type,
            ) {
                Ok(m) => r is Ok && final(self)@ == old(self)@.insert(key, m),
                Err(e) => r == Err::<(), ServiceError>(e) && final(self)@ == old(self)@,
            },
    {
        proof {
            self.entries.lemma_wf();
        }
        match self.entries.position(&key) {
            None => Err(ServiceError::NotFound),
            Some(i) => {
                proof {
                    assert(self.entries.key_seq()[i as int] == key);
                    assert(self.entries@.contains_key(key));
                }
                let ghost pre = self.entries@;
                let entry = self.entries.value_at_mut(i);
                let r = entry.set_status(service, new_status, status_change_type);
                proof {
                    assert(self@ =~= old(self)@.insert(key, self.entries@[key]@));
                    assert forall|k: K| #[trigger] self.entries@.contains_key(k) implies self.entries@[
                        k].wf() by {
                        if k != key {
                            assert(pre.contains_key(k));
                        }
                    }
                    if r is Err {
                        assert(self@ =~= old(self)@);
                    }
                }
                r
            },
        }
    }
}

} // verus!
