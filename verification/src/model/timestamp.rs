use chrono::TimeZone;
use vstd::prelude::*;

verus! {

/// Seconds since the Unix epoch of the earliest instant that a UTC date-time can hold
/// (January 1st of year -262143, 00:00:00).
pub const MIN_UNIX_SECS: i64 = -8_334_601_228_800;

/// Seconds since the Unix epoch of the last second that a UTC date-time can hold
/// (December 31st of year 262142, 23:59:59).
pub const MAX_UNIX_SECS: i64 = 8_210_266_876_799;

/// Number of seconds in a day.
pub const SECS_PER_DAY: i64 = 86_400;

/// Whether `secs` seconds plus `nanos` nanoseconds past the Unix epoch name a UTC instant.
///
/// Nanoseconds from one to two billion stand for a leap second and are only
/// allowed in the last second of a minute.
pub open spec fn valid_unix(secs: int, nanos: int) -> bool {
    &&& MIN_UNIX_SECS <= secs <= MAX_UNIX_SECS
    &&& 0 <= nanos
    &&& (nanos < 1_000_000_000 || (nanos < 2_000_000_000 && secs % 60 == 59))
}

/// A UTC instant: whole seconds since the Unix epoch (rounded down) and the
/// nanoseconds within that second.
///
/// Instants are ordered by seconds, then by nanoseconds.
#[derive(Debug, Clone, Copy, PartialEq, Eq, Hash, PartialOrd, Ord, Structural)]
pub struct Timestamp {
    secs: i64,
    nanos: u32,
}

impl Timestamp {
    #[verifier::type_invariant]
    pub closed spec fn inv(self) -> bool {
        valid_unix(self.secs as int, self.nanos as int)
    }

    /// Whole seconds since the Unix epoch.
    pub closed spec fn spec_secs(self) -> i64 {
        self.secs
    }

    /// Nanoseconds within the second.
    pub closed spec fn spec_nanos(self) -> u32 {
        self.nanos
    }

    /// This instant is at or before `other`: instants are ordered by seconds, then by nanoseconds.
    pub open spec fn spec_le(self, other: Timestamp) -> bool {
        self.spec_secs() < other.spec_secs() || (self.spec_secs() == other.spec_secs()
            && self.spec_nanos() <= other.spec_nanos())
    }

    /// The instant `secs` seconds and `nanos` nanoseconds after the Unix epoch,
    /// or `None` where no UTC date-time holds it.
    pub fn from_unix(secs: i64, nanos: u32) -> (r: Option<Timestamp>)
        ensures
            r is Some <==> valid_unix(secs as int, nanos as int),
            r matches Some(t) ==> t.spec_secs() == secs && t.spec_nanos() == nanos,
    {
        if utc_accepts(secs, nanos) {
            Some(Timestamp { secs, nanos })
        } else {
            None
        }
    }

    /// The instant at the start of second `secs`.
    pub(crate) fn at_second(secs: i64) -> (r: Timestamp)
        requires
            MIN_UNIX_SECS <= secs <= MAX_UNIX_SECS,
        ensures
            r.spec_secs() == secs,
            r.spec_nanos() == 0,
    {
        Timestamp { secs, nanos: 0 }
    }

    /// Whole seconds since the Unix epoch.
    pub fn secs(&self) -> (r: i64)
        ensures
            r == self.spec_secs(),
            MIN_UNIX_SECS <= r <= MAX_UNIX_SECS,
    {
        proof {
            use_type_invariant(self);
        }
        self.secs
    }

    /// Whether this instant is at or before `other`.
    pub fn is_at_or_before(&self, other: &Timestamp) -> (r: bool)
        ensures
            r == self.spec_le(*other),
    {
        self.secs < other.secs || (self.secs == other.secs && self.nanos <= other.nanos)
    }

    /// Nanoseconds within the second.
    pub fn subsec_nanos(&self) -> (r: u32)
        ensures
            r == self.spec_nanos(),
    {
        self.nanos
    }
}

/// Whether `chrono::DateTime::<Utc>::from_timestamp(secs, nanos)` gives a date-time.
///
/// The contract claims that it does exactly when the day number `secs / 86400`
/// (rounded down) lies between the first day of year -262143 and the last day of year
/// 262142, and the nanoseconds are below one billion, or below two billion in the
/// 59th second of a minute (a leap second).
#[verifier::external_body]
fn utc_accepts(secs: i64, nanos: u32) -> (ok: bool)
    ensures
        ok == valid_unix(secs as int, nanos as int),
{
    chrono::DateTime::from_timestamp(secs, nanos).is_some()
}

/// Seconds since the Unix epoch of UTC midnight on the day that holds second `secs`,
/// computed by chrono: `DateTime::from_timestamp(secs, 0)`, its `date_naive()`, that
/// date's `and_hms_opt(0, 0, 0)`, `Utc.from_utc_datetime` of it, and its `timestamp()`.
///
/// The contract claims that this is `secs` rounded down to a multiple of 86400, for
/// every `secs` in chrono's range (where `from_timestamp` gives a date-time, so the
/// `unwrap`s cannot fail: `and_hms_opt(0, 0, 0)` always gives a time).
#[verifier::external_body]
pub(crate) fn utc_midnight(secs: i64) -> (r: i64)
    requires
        MIN_UNIX_SECS <= secs <= MAX_UNIX_SECS,
    ensures
        r == secs - secs % SECS_PER_DAY,
{
    let t = chrono::DateTime::from_timestamp(secs, 0).unwrap();
    chrono::Utc.from_utc_datetime(&t.date_naive().and_hms_opt(0, 0, 0).unwrap()).timestamp()
}

} // verus!
