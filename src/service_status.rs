use crate::ordered_map::OrderedMap;
use vstd::laws_eq::obeys_concrete_eq;
use vstd::prelude::*;

verus! {

/// The status of a service.
#[derive(Clone, Copy, Debug, PartialEq, Eq, Structural)]
pub struct OperatingStatus {
    /// Whether the service is enabled.
    pub enabled: bool,
    /// Whether an admin locked the status, so that a moderator cannot change it.
    pub locked: bool,
}

/// Who changes a status, and how:
/// - `AdminSetAndLock`: an admin sets it and locks it, so that only an admin
///   can change it afterwards;
/// - `AdminSetAndUnlock`: an admin sets it and unlocks it;
/// - `ModeratorSet`: a moderator sets it, unless an admin locked it.
#[derive(Clone, Copy, Debug, PartialEq, Eq, Structural)]
pub enum StatusChangeType {
    AdminSetAndLock,
    AdminSetAndUnlock,
    ModeratorSet,
}

/// Why a status operation failed.
#[derive(Clone, Copy, Debug, PartialEq, Eq, Structural)]
pub enum ServiceError {
    /// The scope was never registered.
    NotFound,
    /// A moderator tried to change a locked status.
    PermissionDenied,
    /// The service is disabled or unknown.
    NotActive,
}

/// A service type that can list all of its variants.
pub trait ServiceVariantProvider {
    /// The complete, fixed list of valid variants.
    fn variants() -> Vec<Self> where Self: Sized;
}

/// The status every declared variant starts with.
pub open spec fn default_status() -> OperatingStatus {
    OperatingStatus { enabled: true, locked: false }
}

/// The statuses of a freshly registered scope whose variants are `variants`.
pub open spec fn initial_statuses<T>(variants: Seq<T>) -> Map<T, OperatingStatus> {
    Map::new(|t: T| variants.contains(t), |t: T| default_status())
}

/// The state machine of one service: the status after `change` sets
/// `new_status` on `current` (`None` when the service has no entry yet), or
/// `None` when the change is not permitted.
pub open spec fn status_transition(
    current: Option<OperatingStatus>,
    new_status: bool,
    change: StatusChangeType,
) -> Option<OperatingStatus> {
    match change {
        StatusChangeType::AdminSetAndLock => Some(
            OperatingStatus { enabled: new_status, locked: true },
        ),
        StatusChangeType::AdminSetAndUnlock => Some(
            OperatingStatus { enabled: new_status, locked: false },
        ),
        StatusChangeType::ModeratorSet => match current {
            Some(s) => if s.locked {
                None
            } else {
                Some(OperatingStatus { enabled: new_status, locked: false })
            },
            None => Some(OperatingStatus { enabled: new_status, locked: false }),
        },
    }
}

/// Whether `service` is enabled in `statuses`; an unknown service is not.
pub open spec fn is_active<T>(statuses: Map<T, OperatingStatus>, service: T) -> bool {
    statuses.contains_key(service) && statuses[service].enabled
}

/// The statuses after `change` sets `new_status` on `service`, with `Err`
/// when the change is not permitted.
pub open spec fn statuses_after<T>(
    statuses: Map<T, OperatingStatus>,
    service: T,
    new_status: bool,
    change: StatusChangeType,
) -> Result<Map<T, OperatingStatus>, ServiceError> {
    let current = if statuses.contains_key(service) {
        Some(statuses[service])
    } else {
        None
    };
    match status_transition(current, new_status, change) {
        Some(s) => Ok(statuses.insert(service, s)),
        None => Err(ServiceError::PermissionDenied),
    }
}

/// The status of each service of one scope.
pub struct ServiceStatus<T> {
    statuses: OrderedMap<T, OperatingStatus>,
}

impl<T> View for ServiceStatus<T> {
    type V = Map<T, OperatingStatus>;

    closed spec fn view(&self) -> Map<T, OperatingStatus> {
        self.statuses@
    }
}

impl<T: PartialEq + ServiceVariantProvider> ServiceStatus<T> {
    pub closed spec fn wf(&self) -> bool {
        self.statuses.wf()
    }

    /// Every variant that `T` declares, enabled and unlocked.
    pub fn new() -> (r: Self)
        requires
            obeys_concrete_eq::<T>(),
        ensures
            r.wf(),
            exists|variants: Vec<T>|
                call_ensures(T::variants, (), variants) && r@ == initial_statuses(variants@),
    {
        let variants = T::variants();
        let ghost declared = variants;
        let r = Self::from_variants(variants);
        proof {
            assert(call_ensures(T::variants, (), declared));
        }
        r
    }

    /// Each of `variants`, enabled and unlocked.
    pub fn from_variants(variants: Vec<T>) -> (r: Self)
        requires
            obeys_concrete_eq::<T>(),
        ensures
            r.wf(),
            r@ == initial_statuses(variants@),
    {
        let ghost all = variants@;
        let n: usize = variants.len();
        let mut rest = variants;
        let mut statuses: OrderedMap<T, OperatingStatus> = OrderedMap::new();
        let mut i: usize = 0;
        while rest.len() > 0
            invariant
                statuses.wf(),
                0 <= i <= all.len(),
                rest@ == all.skip(i as int),
                i + rest@.len() == all.len(),
                all.len() == n,
                statuses@ == initial_statuses(all.take(i as int)),
            decreases rest@.len(),
        {
            let service = rest.remove(0);
            proof {
                assert(all[i as int] == service);
                assert(rest@ =~= all.skip(i + 1));
                assert(all.take(i + 1) =~= all.take(i as int).push(service));
                broadcast use vstd::seq_lib::lemma_seq_contains_after_push;
            }
            statuses.insert(service, OperatingStatus { enabled: true, locked: false });
            i += 1;
            proof {
                assert(statuses@ =~= initial_statuses(all.take(i as int)));
            }
        }
        proof {
            assert(all.take(i as int) =~= all);
        }
        ServiceStatus { statuses }
    }

    /// Sets the status of `service` as `status_change_type` permits.
    pub fn set_status(&mut self, service: T, new_status: bool, status_change_type: StatusChangeType)
        -> (r: Result<(), ServiceError>)
        requires
            old(self).wf(),
        ensures
            final(self).wf(),
            match statuses_after(old(self)@, service, new_status, status_change_type) {
                Ok(m) => r is Ok && final(self)@ == m,
                Err(e) => r == Err::<(), ServiceError>(e) && final(self)@ == old(self)@,
            },
    {
        match status_change_type {
            StatusChangeType::AdminSetAndLock => self.admin_set_status(service, new_status, true),
            StatusChangeType::AdminSetAndUnlock => self.admin_set_status(
                service,
                new_status,
                false,
            ),
            StatusChangeType::ModeratorSet => self.moderator_set_status(service, new_status),
        }
    }

    /// Whether `service` is enabled; an unknown service is not.
    pub fn check(&self, service: &T) -> (r: bool)
        requires
            self.wf(),
        ensures
            r == is_active(self@, *service),
    {
        match self.statuses.get(service) {
            Some(status) => status.enabled,
            None => false,
        }
    }

    /// Fails unless `service` is enabled.
    pub fn assert_active(&self, service: &T) -> (r: Result<(), ServiceError>)
        requires
            self.wf(),
        ensures
            is_active(self@, *service) ==> r is Ok,
            !is_active(self@, *service) ==> r == Err::<(), ServiceError>(ServiceError::NotActive),
    {
        if self.check(service) {
            Ok(())
        } else {
            Err(ServiceError::NotActive)
        }
    }

    /// The status of `service`, if it has one.
    pub fn get_status(&self, service: &T) -> (r: Option<OperatingStatus>)
        requires
            self.wf(),
        ensures
            r == (if self@.contains_key(*service) {
                Some(self@[*service])
            } else {
                None
            }),
    {
        match self.statuses.get(service) {
            Some(status) => Some(*status),
            None => None,
        }
    }

    /// Sets the status and the lock of `service` (admin only).
    fn admin_set_status(&mut self, service: T, new_status: bool, admin_lock: bool) -> (r: Result<
        (),
        ServiceError,
    >)
        requires
            old(self).wf(),
        ensures
            final(self).wf(),
            r is Ok,
            final(self)@ == old(self)@.insert(
                service,
                OperatingStatus { enabled: new_status, locked: admin_lock },
            ),
    {
        self.statuses.insert(service, OperatingStatus { enabled: new_status, locked: admin_lock });
        Ok(())
    }

    /// Sets the status of `service` unless an admin locked it (moderator).
    fn moderator_set_status(&mut self, service: T, new_status: bool) -> (r: Result<
        (),
        ServiceError,
    >)
        requires
            old(self).wf(),
        ensures
            final(self).wf(),
            match statuses_after(old(self)@, service, new_status, StatusChangeType::ModeratorSet) {
                Ok(m) => r is Ok && final(self)@ == m,
                Err(e) => r == Err::<(), ServiceError>(e) && final(self)@ == old(self)@,
            },
    {
        match self.statuses.position(&service) {
            Some(i) => {
                proof {
                    self.statuses.lemma_wf();
                    assert(self.statuses.key_seq()[i as int] == service);
                    assert(self@.contains_key(service));
                }
                if self.statuses.value_at(i).locked {
                    return Err(ServiceError::PermissionDenied);
                }
                let status = self.statuses.value_at_mut(i);
                status.enabled = new_status;
                Ok(())
            },
            None => {
                self.statuses.insert(service, OperatingStatus { enabled: new_status, locked: false });
                Ok(())
            },
        }
    }
}

/// After an admin sets and locks a service, the service reads as the admin
/// set it, and a moderator's change is denied until an admin unlocks it.
pub proof fn lemma_admin_lock_blocks_moderator<T>(
    statuses: Map<T, OperatingStatus>,
    service: T,
    admin_status: bool,
    moderator_status: bool,
)
    ensures
        statuses_after(statuses, service, admin_status, StatusChangeType::AdminSetAndLock) matches Ok(
            locked,
        ) && is_active(locked, service) == admin_status && statuses_after(
            locked,
            service,
            moderator_status,
            StatusChangeType::ModeratorSet,
        ) == Err::<Map<T, OperatingStatus>, ServiceError>(ServiceError::PermissionDenied),
{
}

/// A moderator's change to an unlocked or missing service applies and leaves
/// it unlocked.
pub proof fn lemma_moderator_sets_unlocked<T>(
    statuses: Map<T, OperatingStatus>,
    service: T,
    new_status: bool,
)
    requires
        statuses.contains_key(service) ==> !statuses[service].locked,
    ensures
        statuses_after(statuses, service, new_status, StatusChangeType::ModeratorSet) == Ok::<
            Map<T, OperatingStatus>,
            ServiceError,
        >(statuses.insert(service, OperatingStatus { enabled: new_status, locked: false })),
{
}

} // verus!
