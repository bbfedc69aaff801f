use vstd::prelude::*;

verus! {

/// A point in time, in seconds since the Unix epoch.
#[derive(Clone, Copy, Debug, PartialEq, Eq, Structural)]
pub struct Instant {
    pub seconds_since_unix_epoch: i64,
}

impl Instant {
    pub fn new(seconds_since_unix_epoch: i64) -> (r: Instant)
        ensures
            r.seconds_since_unix_epoch == seconds_since_unix_epoch,
    {
        Instant { seconds_since_unix_epoch }
    }

    /// The instant `seconds` later, or `None` when it cannot be represented.
    pub fn add_seconds(&self, seconds: i64) -> (r: Option<Instant>)
        ensures
            match r {
                Some(t) => t.seconds_since_unix_epoch == self.seconds_since_unix_epoch + seconds,
                None => !(i64::MIN <= self.seconds_since_unix_epoch + seconds <= i64::MAX),
            },
    {
        match self.seconds_since_unix_epoch.checked_add(seconds) {
            Some(s) => Some(Instant { seconds_since_unix_epoch: s }),
            None => None,
        }
    }

    /// The seconds from `other` to `self`, or `None` when the difference
    /// cannot be represented; a negative difference wraps around as `u64`.
    pub fn checked_sub(&self, other: Instant) -> (r: Option<u64>)
        ensures
            match r {
                Some(d) => i64::MIN <= self.seconds_since_unix_epoch - other.seconds_since_unix_epoch
                    <= i64::MAX && d == ((self.seconds_since_unix_epoch
                    - other.seconds_since_unix_epoch) as i64) as u64,
                None => !(i64::MIN <= self.seconds_since_unix_epoch - other.seconds_since_unix_epoch
                    <= i64::MAX),
            },
    {
        match self.seconds_since_unix_epoch.checked_sub(other.seconds_since_unix_epoch) {
            Some(d) => Some(d as u64),
            None => None,
        }
    }

    /// Whether `self` lies strictly after `other`.
    pub fn is_after(&self, other: &Instant) -> (r: bool)
        ensures
            r == (self.seconds_since_unix_epoch > other.seconds_since_unix_epoch),
    {
        self.seconds_since_unix_epoch > other.seconds_since_unix_epoch
    }
}

} // verus!
