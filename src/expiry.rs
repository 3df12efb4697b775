//! Expiring values: a stored value with an optional absolute deadline.
//!
//! Time is measured in ticks: nanoseconds on a monotonic clock, counted
//! from the origin of the store's `Clock`.
use vstd::prelude::*;

verus! {

/// Ticks in one second.
pub const NANOS_PER_SECOND: u64 = 1_000_000_000;

/// An entry with this deadline is live at `now`: it never expires, or
/// `now` is strictly before the deadline.
pub open spec fn live_at(deadline: Option<u64>, now: u64) -> bool {
    match deadline {
        None => true,
        Some(d) => now < d,
    }
}

/// `now + ttl`, held at the largest tick where the sum does not fit.
pub open spec fn ticks_after(now: u64, ttl: int) -> u64 {
    if now + ttl > u64::MAX {
        u64::MAX
    } else {
        (now + ttl) as u64
    }
}

/// The optional deadline of a stored value.
pub struct Expiry {
    instant: Option<u64>,
}

impl View for Expiry {
    type V = Option<u64>;

    closed spec fn view(&self) -> Option<u64> {
        self.instant
    }
}

impl Expiry {
    /// A deadline that never comes.
    pub fn never() -> (r: Expiry)
        ensures
            r@ == None::<u64>,
    {
        Expiry { instant: None }
    }

    /// The deadline `ttl` ticks after `now`.
    pub fn after_nanos(now: u64, ttl: u64) -> (r: Expiry)
        ensures
            r@ == Some(ticks_after(now, ttl as int)),
    {
        let deadline = now.saturating_add(ttl);
        Expiry { instant: Some(deadline) }
    }

    /// The deadline `time` seconds after `now`.
    pub fn after_seconds(now: u64, time: u64) -> (r: Expiry)
        ensures
            r@ == Some(ticks_after(now, time * NANOS_PER_SECOND)),
    {
        if time > u64::MAX / NANOS_PER_SECOND {
            assert(time * NANOS_PER_SECOND > u64::MAX) by (nonlinear_arith)
                requires
                    time > u64::MAX / NANOS_PER_SECOND,
                    NANOS_PER_SECOND == 1_000_000_000u64,
            ;
            Expiry { instant: Some(u64::MAX) }
        } else {
            assert(time * NANOS_PER_SECOND <= u64::MAX) by (nonlinear_arith)
                requires
                    time <= u64::MAX / NANOS_PER_SECOND,
                    NANOS_PER_SECOND == 1_000_000_000u64,
            ;
            Expiry::after_nanos(now, time * NANOS_PER_SECOND)
        }
    }

    /// The deadline as it was given.
    pub fn deadline(&self) -> (r: Option<u64>)
        ensures
            r == self@,
    {
        self.instant
    }

    /// Whether a value with this deadline is live at `now`.
    pub fn is_live(&self, now: u64) -> (r: bool)
        ensures
            r == live_at(self@, now),
    {
        match self.instant {
            None => true,
            Some(d) => now < d,
        }
    }
}

/// The model of an expiring value: the value, then its deadline.
pub type ValueView = (Seq<char>, Option<u64>);

/// A stored value together with its deadline.
pub struct ValueRef {
    value: String,
    expiry_after: Expiry,
}

impl View for ValueRef {
    type V = ValueView;

    closed spec fn view(&self) -> ValueView {
        (self.value@, self.expiry_after@)
    }
}

impl ValueRef {
    pub fn new(value: String, expiry: Expiry) -> (r: ValueRef)
        ensures
            r@ == (value@, expiry@),
    {
        ValueRef { value, expiry_after: expiry }
    }

    /// The stored value, whether or not it is still live.
    pub fn value(&self) -> (r: &String)
        ensures
            r@ == self@.0,
    {
        &self.value
    }

    /// The deadline of the stored value.
    pub fn deadline(&self) -> (r: Option<u64>)
        ensures
            r == self@.1,
    {
        self.expiry_after.deadline()
    }

    /// Whether the value is no longer live at `now` (`now` has reached the
    /// deadline).
    pub fn has_expired(&self, now: u64) -> (r: bool)
        ensures
            r == !live_at(self@.1, now),
    {
        !self.expiry_after.is_live(now)
    }

    /// Whether the value is live at `now`: it has no deadline, or `now` is
    /// before it.
    pub fn is_live(&self, now: u64) -> (r: bool)
        ensures
            r == live_at(self@.1, now),
    {
        self.expiry_after.is_live(now)
    }

    /// A copy of the value and its deadline.
    pub fn duplicate(&self) -> (r: ValueRef)
        ensures
            r@ == self@,
    {
        ValueRef {
            value: self.value.clone(),
            expiry_after: Expiry { instant: self.expiry_after.instant },
        }
    }
}

} // verus!
