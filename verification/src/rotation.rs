//! Instants and the rotation policy that computes an expiry from them.

use vstd::prelude::*;

verus! {

/// A point in time: whole seconds since the epoch and the nanoseconds past
/// them.
#[derive(Clone, Copy, Debug, PartialEq, Eq, Structural)]
pub struct Instant {
    pub secs: i64,
    pub nanos: u32,
}

/// A bound that the seconds of the clock stay under.
pub const CLOCK_END: i64 = 0x1_0000_0000_0000;

/// `chrono::Utc::now`, handed back as `DateTime::timestamp` and
/// `DateTime::timestamp_subsec_nanos`. The clock is read from a system time
/// after the epoch, and the seconds of a `DateTime` are made of a day count
/// that is an `i32`, so they are not negative and stay under 2^48. Nothing
/// else is claimed of the reading.
#[verifier::external_body]
fn utc_now() -> (r: (i64, u32))
    ensures
        0 <= r.0 < CLOCK_END,
{
    let now = chrono::Utc::now();
    (now.timestamp(), now.timestamp_subsec_nanos())
}

impl Instant {
    /// Whether this instant is strictly earlier than `other`.
    pub open spec fn before(self, other: Instant) -> bool {
        self.secs < other.secs || (self.secs == other.secs && self.nanos < other.nanos)
    }

    /// This instant moved by a number of whole seconds.
    pub open spec fn plus(self, secs: int) -> Instant
        recommends
            i64::MIN <= self.secs + secs <= i64::MAX,
    {
        Instant { secs: (self.secs + secs) as i64, nanos: self.nanos }
    }

    /// The current time.
    pub fn now() -> (r: Instant)
        ensures
            0 <= r.secs < CLOCK_END,
    {
        let (secs, nanos) = utc_now();
        Instant { secs, nanos }
    }

    /// Whether this instant is strictly earlier than `other`.
    pub fn is_before(&self, other: &Instant) -> (r: bool)
        ensures
            r == self.before(*other),
    {
        self.secs < other.secs || (self.secs == other.secs && self.nanos < other.nanos)
    }
}

/// Indicates the lifetime of a token.
#[derive(Clone, Copy, Debug, PartialEq, Eq, Structural)]
pub struct TokenRotation {
    pub minutes: Option<u8>,
    pub hours: Option<u8>,
    pub days: Option<u8>,
    pub weeks: Option<u8>,
    /// Whether to remove the resource itself on expiry, in place of a
    /// rotation.
    pub remove_on_expiry: bool,
}

/// The seconds that an optional count of units of `unit` seconds stands for;
/// a count that is not set stands for none.
pub open spec fn span(count: Option<u8>, unit: int) -> int {
    match count {
        Some(n) => n * unit,
        None => 0,
    }
}

/// The longest lifetime that a policy can have, in seconds.
pub const MAX_LIFETIME: i64 = 177189300;

impl TokenRotation {
    /// The policy that a new link starts with: one day, and no removal.
    pub open spec fn initial() -> TokenRotation {
        TokenRotation {
            minutes: None,
            hours: None,
            days: Some(1u8),
            weeks: None,
            remove_on_expiry: false,
        }
    }

    /// The lifetime in seconds: the sum of the components that are set.
    pub open spec fn lifetime(self) -> int {
        span(self.minutes, 60) + span(self.hours, 3600) + span(self.days, 86400) + span(
            self.weeks,
            604800,
        )
    }

    /// The lifetime in seconds.
    pub fn lifetime_secs(&self) -> (r: i64)
        ensures
            r == self.lifetime(),
            0 <= r <= MAX_LIFETIME,
    {
        let mut total: i64 = 0;
        if let Some(m) = self.minutes {
            total = total + (m as i64) * 60;
        }
        if let Some(h) = self.hours {
            total = total + (h as i64) * 3600;
        }
        if let Some(d) = self.days {
            total = total + (d as i64) * 86400;
        }
        if let Some(w) = self.weeks {
            total = total + (w as i64) * 604800;
        }
        total
    }

    /// The expiry of a token that starts its life at `now`.
    pub fn expiry_at(&self, now: Instant) -> (r: Instant)
        requires
            now.secs + self.lifetime() <= i64::MAX,
        ensures
            r == now.plus(self.lifetime()),
    {
        Instant { secs: now.secs + self.lifetime_secs(), nanos: now.nanos }
    }

    /// The expiry of a token that starts its life at this moment: the
    /// reading of the clock, whatever it is, moved by the lifetime.
    pub fn expiry(&self) -> (r: Instant)
        ensures
            self.lifetime() <= r.secs < self.lifetime() + CLOCK_END,
    {
        self.expiry_at(Instant::now())
    }
}

impl Default for TokenRotation {
    fn default() -> (r: Self)
        ensures
            r == TokenRotation::initial(),
    {
        TokenRotation {
            minutes: None,
            hours: None,
            days: Some(1),  // default rotation is 1 day.
            weeks: None,
            remove_on_expiry: false,
        }
    }
}

/// Every lifetime lies between zero and `MAX_LIFETIME`; the initial policy
/// gives one day.
pub proof fn lifetime_bounds(policy: TokenRotation)
    ensures
        0 <= policy.lifetime() <= MAX_LIFETIME,
        TokenRotation::initial().lifetime() == 86400,
{
}

} // verus!
