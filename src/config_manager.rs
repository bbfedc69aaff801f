use crate::ordered_map::OrderedMap;
use crate::time::Instant;
use vstd::laws_eq::obeys_concrete_eq;
use vstd::prelude::*;

verus! {

/// Addresses a slot of the store: the live value of a key, or the snapshot
/// taken at a version.
pub enum ConfigurationKey<K> {
    Current(K),
    History(u64),
}

/// A stored configuration value with the version that wrote it.
pub struct ConfigurationEntry<K, C> {
    pub key: K,
    pub entry: C,
    pub version: u64,
    pub expiration_time: Option<Instant>,
}

/// Why a store operation failed.
#[derive(Clone, Debug, PartialEq, Eq)]
pub enum ConfigError {
    /// The key or version was never written; carries the store's message.
    NotFound(String),
    /// An update could not be applied or left an invalid value.
    ValidationFailed(String),
}

/// A configuration value that accepts batches of partial changes.
pub trait Updatable<U> {
    /// Applies the changes in `inputs`.
    fn update(&mut self, inputs: U) -> Result<(), String>;

    /// Checks every field's invariant, naming the first field that fails.
    fn check(&self) -> Result<(), String>;
}

/// The abstract state of a configuration store.
#[verifier::reject_recursive_types(K)]
pub struct ConfigurationState<K, C> {
    pub track_history: bool,
    pub default_expiration_time: Option<u64>,
    pub error_message: Seq<char>,
    pub version_count: u64,
    pub entry_count: u16,
    pub current: Map<K, ConfigurationEntry<K, C>>,
    pub history: Seq<ConfigurationEntry<K, C>>,
}

impl<K, C: Clone> ConfigurationState<K, C> {
    /// The entry that a key of the store addresses, if it was written.
    pub open spec fn lookup(self, key: ConfigurationKey<K>) -> Option<ConfigurationEntry<K, C>> {
        match key {
            ConfigurationKey::Current(k) => if self.current.contains_key(k) {
                Some(self.current[k])
            } else {
                None
            },
            ConfigurationKey::History(v) => if v < self.history.len() {
                Some(self.history[v as int])
            } else {
                None
            },
        }
    }

    /// Invariant of the store: versions number the snapshots, and each
    /// snapshot's key stays registered.
    pub open spec fn is_consistent(self) -> bool {
        &&& self.history.len() == self.version_count
        &&& !self.track_history ==> self.version_count == 0
        &&& forall|v: int|
            0 <= v < self.history.len() ==> {
                &&& (#[trigger] self.history[v]).version == v
                &&& self.current.contains_key(self.history[v].key)
            }
        &&& forall|k: K| #[trigger]
            self.current.contains_key(k) ==> {
                &&& self.current[k].key == k
                &&& self.current[k].expiration_time is None
            }
    }

    /// A write at `now` can stamp its snapshot's expiration without overflow.
    pub open spec fn can_write_at(self, now: Instant) -> bool {
        match self.default_expiration_time {
            Some(e) => !self.track_history || (e <= i64::MAX && now.seconds_since_unix_epoch + e
                <= i64::MAX),
            None => true,
        }
    }

    /// The expiration a snapshot written at `now` receives.
    pub open spec fn expiration_at(self, now: Instant) -> Option<Instant> {
        match self.default_expiration_time {
            Some(e) => Some(
                Instant {
                    seconds_since_unix_epoch: (now.seconds_since_unix_epoch + e) as i64,
                },
            ),
            None => None,
        }
    }

    /// `post` has the same settings as `self`.
    pub open spec fn same_settings(self, post: Self) -> bool {
        &&& post.track_history == self.track_history
        &&& post.default_expiration_time == self.default_expiration_time
        &&& post.error_message == self.error_message
    }

    /// `post` is `self` after `key` was written with `value` at `now`:
    /// the live slot holds `value`, and with history tracking on, a snapshot
    /// holding a clone of it is appended under the next version.
    pub open spec fn written(self, post: Self, key: K, value: C, now: Instant) -> bool {
        &&& self.same_settings(post)
        &&& post.current == self.current.insert(
            key,
            ConfigurationEntry {
                key,
                entry: value,
                version: self.version_count,
                expiration_time: None,
            },
        )
        &&& if self.track_history {
            &&& post.version_count == self.version_count + 1
            &&& post.history.len() == self.history.len() + 1
            &&& post.history.drop_last() == self.history
            &&& post.history.last().key == key
            &&& post.history.last().version == self.version_count
            &&& post.history.last().expiration_time == self.expiration_at(now)
            &&& cloned(value, post.history.last().entry)
        } else {
            &&& post.version_count == self.version_count
            &&& post.history == self.history
        }
    }

    /// `post` is `self` after `new_entry(key, value)` at `now`.
    pub open spec fn new_entry_post(self, post: Self, key: K, value: C, now: Instant) -> bool {
        &&& self.written(post, key, value, now)
        &&& post.entry_count == self.entry_count + 1
    }

    /// `post` is `self` after a successful update of `key` to `value` at `now`.
    pub open spec fn update_post(self, post: Self, key: K, value: C, now: Instant) -> bool {
        &&& self.current.contains_key(key)
        &&& self.written(post, key, value, now)
        &&& post.entry_count == self.entry_count
    }

    /// `post` and `r` are the state and result of `update_entry(key, ..)` on
    /// `self` at `now`, whatever the update produced.
    pub open spec fn update_entry_outcome(
        self,
        post: Self,
        key: K,
        r: Result<(), ConfigError>,
        now: Instant,
    ) -> bool {
        match r {
            Ok(()) => exists|v: C| self.update_post(post, key, v, now),
            Err(ConfigError::NotFound(msg)) => {
                &&& !self.current.contains_key(key)
                &&& msg@ == self.error_message
                &&& post == self
            },
            Err(ConfigError::ValidationFailed(_)) => {
                &&& self.current.contains_key(key)
                &&& post == self
            },
        }
    }

    /// What reading the snapshot of `version` at `now` yields: the snapshot
    /// while it has not expired, else the live value of its key.
    pub open spec fn history_read(self, version: u64, now: Instant) -> Option<(C, bool)> {
        if version < self.history.len() {
            let h = self.history[version as int];
            match h.expiration_time {
                Some(t) => if t.seconds_since_unix_epoch > now.seconds_since_unix_epoch {
                    Some((h.entry, true))
                } else {
                    Some((self.current[h.key].entry, false))
                },
                None => Some((h.entry, true)),
            }
        } else {
            None
        }
    }
}

/// A versioned, keyed configuration store with optional history and expiry.
pub struct ConfigurationManager<K, C, U> {
    track_history: bool,
    get_config_error_message: String,
    default_expiration_time: Option<u64>,
    version_count: u64,
    entry_count: u16,
    current: OrderedMap<K, ConfigurationEntry<K, C>>,
    history: Vec<ConfigurationEntry<K, C>>,
    phantom_data: Option<U>,
}

impl<K, C, U> View for ConfigurationManager<K, C, U> {
    type V = ConfigurationState<K, C>;

    closed spec fn view(&self) -> ConfigurationState<K, C> {
        ConfigurationState {
            track_history: self.track_history,
            default_expiration_time: self.default_expiration_time,
            error_message: self.get_config_error_message@,
            version_count: self.version_count,
            entry_count: self.entry_count,
            current: self.current@,
            history: self.history@,
        }
    }
}

impl<K: Copy + PartialEq, C: Clone + Updatable<U>, U> ConfigurationManager<K, C, U> {
    pub closed spec fn wf(&self) -> bool {
        &&& self.current.wf()
        &&& self@.is_consistent()
    }

    pub fn new(
        track_history: bool,
        default_expiration_time: Option<u64>,
        get_config_error_message: String,
    ) -> (r: Self)
        requires
            obeys_concrete_eq::<K>(),
        ensures
            r.wf(),
            r@.track_history == track_history,
            r@.default_expiration_time == default_expiration_time,
            r@.error_message == get_config_error_message@,
            r@.version_count == 0,
            r@.entry_count == 0,
            r@.current == Map::<K, ConfigurationEntry<K, C>>::empty(),
            r@.history == Seq::<ConfigurationEntry<K, C>>::empty(),
    {
        ConfigurationManager {
            track_history,
            get_config_error_message,
            default_expiration_time,
            version_count: 0,
            entry_count: 0,
            current: OrderedMap::new(),
            history: Vec::new(),
            phantom_data: None,
        }
    }

    /// Changes the retention given to snapshots written from now on.
    pub fn update_default_expiration(&mut self, new_default_expiration: Option<u64>)
        requires
            old(self).wf(),
        ensures
            final(self).wf(),
            final(self)@ == (ConfigurationState {
                default_expiration_time: new_default_expiration,
                ..old(self)@
            }),
    {
        self.default_expiration_time = new_default_expiration;
    }

    pub fn get_entry_count(&self) -> (r: u16)
        ensures
            r == self@.entry_count,
    {
        self.entry_count
    }

    pub fn get_version_count(&self) -> (r: u64)
        ensures
            r == self@.version_count,
    {
        self.version_count
    }

    /// Registers `entry` as the live value of `key`.
    pub fn new_entry(&mut self, key: K, entry: C, now: Instant) -> (r: Result<(), ConfigError>)
        requires
            old(self).wf(),
            old(self)@.entry_count < u16::MAX,
            old(self)@.track_history ==> old(self)@.version_count < u64::MAX,
            old(self)@.can_write_at(now),
        ensures
            final(self).wf(),
            r is Ok,
            old(self)@.new_entry_post(final(self)@, key, entry, now),
    {
        self.set_entry(key, entry, true, now);
        Ok(())
    }

    /// Applies `update_inputs` to the live value of `key`, checks it, and
    /// writes it; nothing is written when the update or the check fails.
    pub fn update_entry(&mut self, key: K, update_inputs: U, now: Instant) -> (r: Result<
        (),
        ConfigError,
    >)
        requires
            old(self).wf(),
            old(self)@.track_history ==> old(self)@.version_count < u64::MAX,
            old(self)@.can_write_at(now),
        ensures
            final(self).wf(),
            old(self)@.update_entry_outcome(final(self)@, key, r, now),
    {
        let mut current_entry = match self.get_current_entry(key) {
            Ok(c) => c,
            Err(e) => return Err(e),
        };
        let outcome = match current_entry.update(update_inputs) {
            Ok(()) => match current_entry.check() {
                Ok(()) => Ok(current_entry),
                Err(msg) => Err(msg),
            },
            Err(msg) => Err(msg),
        };
        self.apply_update_result(key, outcome, now)
    }

    /// Writes the result of updating the live value of `key`: an updated
    /// value becomes the live value, a failure message is reported as a
    /// validation failure and nothing is written.
    pub fn apply_update_result(&mut self, key: K, outcome: Result<C, String>, now: Instant) -> (r:
        Result<(), ConfigError>)
        requires
            old(self).wf(),
            old(self)@.track_history ==> old(self)@.version_count < u64::MAX,
            old(self)@.can_write_at(now),
        ensures
            final(self).wf(),
            !old(self)@.current.contains_key(key) ==> (r matches Err(ConfigError::NotFound(msg))
                && msg@ == old(self)@.error_message && final(self)@ == old(self)@),
            old(self)@.current.contains_key(key) ==> match outcome {
                Ok(v) => r is Ok && old(self)@.update_post(final(self)@, key, v, now),
                Err(msg) => (r matches Err(ConfigError::ValidationFailed(m)) && m@ == msg@
                    && final(self)@ == old(self)@),
            },
    {
        proof {
            self.current.lemma_wf();
        }
        match self.current.position(&key) {
            None => Err(ConfigError::NotFound(self.get_config_error_message.clone())),
            Some(_) => match outcome {
                Ok(v) => {
                    self.set_entry(key, v, false, now);
                    Ok(())
                },
                Err(msg) => Err(ConfigError::ValidationFailed(msg)),
            },
        }
    }

    /// Gives the snapshot of `version` an expiration of `now`.
    pub fn set_entry_expired(&mut self, version: u64, now: Instant) -> (r: Result<(), ConfigError>)
        requires
            old(self).wf(),
        ensures
            final(self).wf(),
            version < old(self)@.history.len() ==> r is Ok && final(self)@ == (ConfigurationState {
                history: old(self)@.history.update(
                    version as int,
                    ConfigurationEntry {
                        expiration_time: Some(now),
                        ..old(self)@.history[version as int]
                    },
                ),
                ..old(self)@
            }),
            version >= old(self)@.history.len() ==> (r matches Err(ConfigError::NotFound(msg))
                && msg@ == old(self)@.error_message && final(self)@ == old(self)@),
    {
        if version < self.history.len() as u64 {
            let i = version as usize;
            self.history[i].expiration_time = Some(now);
            proof {
                assert(self@.history =~= old(self)@.history.update(
                    version as int,
                    ConfigurationEntry {
                        expiration_time: Some(now),
                        ..old(self)@.history[version as int]
                    },
                ));
            }
            Ok(())
        } else {
            Err(ConfigError::NotFound(self.get_config_error_message.clone()))
        }
    }

    /// A copy of the live value of `key`.
    pub fn get_current_entry(&self, key: K) -> (r: Result<C, ConfigError>)
        requires
            self.wf(),
        ensures
            match r {
                Ok(c) => self@.current.contains_key(key) && cloned(self@.current[key].entry, c),
                Err(ConfigError::NotFound(msg)) => !self@.current.contains_key(key) && msg@
                    == self@.error_message,
                Err(ConfigError::ValidationFailed(_)) => false,
            },
    {
        match self.current.get(&key) {
            Some(e) => Ok(e.entry.clone()),
            None => Err(ConfigError::NotFound(self.get_config_error_message.clone())),
        }
    }

    /// The snapshot of `version` with `true` while it has not expired at
    /// `now`; after that, the live value of its key with `false`.
    pub fn get_history_entry(&self, version: u64, now: Instant) -> (r: Result<(C, bool), ConfigError>)
        requires
            self.wf(),
        ensures
            match r {
                Ok((c, b)) => self@.history_read(version, now) matches Some((v, fresh)) && b
                    == fresh && cloned(v, c),
                Err(ConfigError::NotFound(msg)) => self@.history_read(version, now) is None
                    && msg@ == self@.error_message,
                Err(ConfigError::ValidationFailed(_)) => false,
            },
    {
        if version >= self.history.len() as u64 {
            return Err(ConfigError::NotFound(self.get_config_error_message.clone()));
        }
        let entry = &self.history[version as usize];
        let is_from_history = match entry.expiration_time {
            Some(time) => time.is_after(&now),
            None => true,
        };
        if is_from_history {
            Ok((entry.entry.clone(), true))
        } else {
            match self.get_current_entry(entry.key) {
                Ok(c) => Ok((c, false)),
                Err(e) => Err(e),
            }
        }
    }

    /// The version that last wrote the live value of `key`.
    pub fn get_current_version(&self, key: K) -> (r: Result<u64, ConfigError>)
        requires
            self.wf(),
        ensures
            match r {
                Ok(v) => self@.current.contains_key(key) && v == self@.current[key].version,
                Err(ConfigError::NotFound(msg)) => !self@.current.contains_key(key) && msg@
                    == self@.error_message,
                Err(ConfigError::ValidationFailed(_)) => false,
            },
    {
        match self.current.get(&key) {
            Some(e) => Ok(e.version),
            None => Err(ConfigError::NotFound(self.get_config_error_message.clone())),
        }
    }

    /// Writes `entry` as the live value of `key` and, with history tracking
    /// on, as the snapshot of the next version.
    fn set_entry(&mut self, key: K, entry: C, increment_count: bool, now: Instant)
        requires
            old(self).wf(),
            increment_count ==> old(self)@.entry_count < u16::MAX,
            old(self)@.track_history ==> old(self)@.version_count < u64::MAX,
            old(self)@.can_write_at(now),
        ensures
            final(self).wf(),
            old(self)@.written(final(self)@, key, entry, now),
            final(self)@.entry_count == old(self)@.entry_count + if increment_count {
                1int
            } else {
                0int
            },
    {
        let ghost pre = self@;
        if self.track_history {
            let expiration_time = match self.default_expiration_time {
                Some(exp) => now.add_seconds(exp as i64),
                None => None,
            };
            let snapshot = entry.clone();
            self.history.push(
                ConfigurationEntry {
                    key,
                    entry: snapshot,
                    version: self.version_count,
                    expiration_time,
                },
            );
        }
        self.current.insert(
            key,
            ConfigurationEntry { key, entry, version: self.version_count, expiration_time: None },
        );
        if self.track_history {
            self.version_count = self.version_count + 1;
        }
        if increment_count {
            self.entry_count = self.entry_count + 1;
        }
        proof {
            if pre.track_history {
                assert(self@.history.drop_last() =~= pre.history);
            }
        }
    }
}

/// After `new_entry(key, value)`, reading `key` gives `value` and the entry
/// count has grown by exactly one; with history tracking on, the snapshot
/// numbered by the previous version count holds a clone of `value` and the
/// version count has grown by one, and otherwise it is unchanged.
pub proof fn lemma_new_entry_registers<K, C: Clone>(
    pre: ConfigurationState<K, C>,
    post: ConfigurationState<K, C>,
    key: K,
    value: C,
    now: Instant,
)
    requires
        pre.is_consistent(),
        pre.new_entry_post(post, key, value, now),
    ensures
        post.lookup(ConfigurationKey::Current(key)) matches Some(e) && e.entry == value,
        post.entry_count == pre.entry_count + 1,
        pre.track_history ==> post.version_count == pre.version_count + 1,
        pre.track_history ==> (post.lookup(ConfigurationKey::History(pre.version_count)) matches Some(
            h,
        ) && h.key == key && cloned(value, h.entry)),
        !pre.track_history ==> post.version_count == pre.version_count,
{
    if pre.track_history {
        assert(post.history[pre.version_count as int] == post.history.last());
    }
}

/// `update_entry` never changes the entry count, and changes the version
/// count only when history tracking is on (by one, on success).
pub proof fn lemma_update_entry_counts<K, C: Clone>(
    pre: ConfigurationState<K, C>,
    post: ConfigurationState<K, C>,
    key: K,
    r: Result<(), ConfigError>,
    now: Instant,
)
    requires
        pre.update_entry_outcome(post, key, r, now),
    ensures
        post.entry_count == pre.entry_count,
        post.version_count != pre.version_count ==> pre.track_history,
        pre.track_history && r is Ok ==> post.version_count == pre.version_count + 1,
{
    if r is Ok {
        let v = choose|v: C| pre.update_post(post, key, v, now);
        assert(pre.update_post(post, key, v, now));
    }
}

/// A snapshot written with expiration `e` reads as itself, marked fresh,
/// before `e`; at and after `e` it reads as the live value of its key,
/// marked stale.
pub proof fn lemma_history_expiry<K, C: Clone>(
    s: ConfigurationState<K, C>,
    version: u64,
    e: Instant,
    now: Instant,
)
    requires
        s.is_consistent(),
        s.lookup(ConfigurationKey::History(version)) matches Some(h) && h.expiration_time == Some(e),
    ensures
        now.seconds_since_unix_epoch < e.seconds_since_unix_epoch ==> s.history_read(version, now)
            == Some((s.history[version as int].entry, true)),
        now.seconds_since_unix_epoch >= e.seconds_since_unix_epoch ==> {
            &&& s.lookup(ConfigurationKey::Current(s.history[version as int].key)) matches Some(c)
            &&& s.history_read(version, now) == Some((c.entry, false))
        },
{
    assert(s.current.contains_key(s.history[version as int].key));
}

} // verus!
