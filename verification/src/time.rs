//! Instants on the UTC time line.
use chrono::{DateTime, Datelike, NaiveDate, Utc};
use vstd::prelude::*;

verus! {

/// First second that an instant can have: the start of the year -262143.
pub const MIN_SECS: i64 = -8_334_601_228_800;

/// Last second that an instant can have: the end of the year 262142.
pub const MAX_SECS: i64 = 8_210_266_876_799;

pub const NANOS_PER_SEC: u32 = 1_000_000_000;

pub const SECS_PER_DAY: i64 = 86_400;

/// An instant: whole seconds since the start of 1970 and the nanoseconds after them.
/// Nanoseconds from one second on stand for a leap second, after the last second of a
/// minute.
#[derive(Clone, Copy, Debug, PartialEq, Eq, Structural)]
pub struct Timestamp {
    secs: i64,
    nanos: u32,
}

/// The seconds and nanoseconds that an instant can have.
pub open spec fn is_instant(secs: int, nanos: int) -> bool {
    &&& MIN_SECS <= secs <= MAX_SECS
    &&& 0 <= nanos < 2 * NANOS_PER_SEC
    &&& nanos >= NANOS_PER_SEC ==> secs % 60 == 59
}

/// The instant that `chrono::DateTime::parse_from_rfc3339` reads from a text.
pub uninterp spec fn rfc3339_instant(s: Seq<char>) -> Option<Timestamp>;

/// The midnight, as seconds since the start of 1970, that starts the day which
/// `chrono::NaiveDate::parse_from_str` reads from a text under the format `%Y-%m-%d`.
pub uninterp spec fn calendar_day_start(s: Seq<char>) -> Option<Timestamp>;

/// What `chrono::DateTime::format` writes for an instant under a format.
pub uninterp spec fn formatted(t: Timestamp, format: Seq<char>) -> Seq<char>;

/// What `chrono::TimeDelta::num_seconds` gives for the span from `b` to `a`.
pub uninterp spec fn span_seconds(a: Timestamp, b: Timestamp) -> i64;

/// The month, from 1, of the day that lies `day` days after the first of 1970.
pub uninterp spec fn month_of_day(day: i64) -> u32;

/// The day of its month, from 1, of the day that lies `day` days after the first of 1970.
pub uninterp spec fn day_of_month(day: i64) -> u32;

/// The formats under which the library writes instants.
pub open spec fn is_known_format(f: Seq<char>) -> bool {
    ||| f == "%Y-%m-%d"@
    ||| f == "%Y-%m-%d %H:%M"@
    ||| f == "%Y-%m-%d %H:%M:%S"@
    ||| f == "%Y-%m-%d %H:%M UTC"@
    ||| f == "%m-%d"@
    ||| f == "%m-%d %H"@
    ||| f == "%m-%d %H:%M"@
    ||| f == "%m-%d %H:%M:%S"@
    ||| f == "%b %d %H:%M"@
    ||| f == "%H:%M"@
    ||| f == "%b"@
}

impl DeepView for Timestamp {
    type V = Timestamp;

    open spec fn deep_view(&self) -> Timestamp {
        *self
    }
}

impl Timestamp {
    #[verifier::type_invariant]
    spec fn inv(self) -> bool {
        is_instant(self.secs as int, self.nanos as int)
    }

    /// Seconds since the start of 1970.
    pub closed spec fn spec_secs(self) -> int {
        self.secs as int
    }

    /// Nanoseconds after those seconds.
    pub closed spec fn spec_nanos(self) -> int {
        self.nanos as int
    }

    /// The instant at the start of a second.
    pub closed spec fn instant_at(secs: int) -> Timestamp {
        Timestamp { secs: secs as i64, nanos: 0 }
    }

    /// Whether the instant lies outside a leap second.
    pub open spec fn is_plain(self) -> bool {
        self.spec_nanos() < NANOS_PER_SEC
    }

    /// The order of instants in time.
    pub open spec fn le(self, other: Timestamp) -> bool {
        self.spec_secs() < other.spec_secs() || (self.spec_secs() == other.spec_secs()
            && self.spec_nanos() <= other.spec_nanos())
    }

    pub open spec fn lt(self, other: Timestamp) -> bool {
        !other.le(self)
    }

    /// The number of the day on which the instant lies; the first day of 1970 is day 0.
    pub open spec fn day_number(self) -> int {
        self.spec_secs() / SECS_PER_DAY as int
    }

    pub proof fn lemma_nanos(self)
        ensures
            self.spec_nanos() >= 0,
    {
    }

    /// The seconds and nanoseconds of an instant at the start of a second.
    pub proof fn lemma_instant_at(secs: int)
        requires
            MIN_SECS <= secs <= MAX_SECS,
        ensures
            Timestamp::instant_at(secs).spec_secs() == secs,
            Timestamp::instant_at(secs).spec_nanos() == 0,
    {
    }

    /// The instant at those seconds and nanoseconds, where there is one.
    pub fn new(secs: i64, nanos: u32) -> (r: Option<Timestamp>)
        ensures
            r is Some <==> is_instant(secs as int, nanos as int),
            r is Some ==> r->0.spec_secs() == secs && r->0.spec_nanos() == nanos,
    {
        if secs < MIN_SECS || secs > MAX_SECS || nanos >= 2_000_000_000 {
            return None;
        }
        if nanos >= NANOS_PER_SEC && (secs - MIN_SECS) % 60 != 59 {
            return None;
        }
        Some(Timestamp { secs, nanos })
    }

    /// The instant at the start of a second.
    pub fn at_second(secs: i64) -> (r: Timestamp)
        requires
            MIN_SECS <= secs <= MAX_SECS,
        ensures
            r == Timestamp::instant_at(secs as int),
            r.spec_secs() == secs,
            r.spec_nanos() == 0,
    {
        Timestamp { secs, nanos: 0 }
    }

    pub fn secs(&self) -> (r: i64)
        ensures
            r == self.spec_secs(),
            is_instant(self.spec_secs(), self.spec_nanos()),
    {
        proof {
            use_type_invariant(*self);
        }
        self.secs
    }

    pub fn nanos(&self) -> (r: u32)
        ensures
            r == self.spec_nanos(),
    {
        self.nanos
    }

    /// Whether `self` is no later than `other`.
    pub fn at_most(&self, other: &Timestamp) -> (r: bool)
        ensures
            r == self.le(*other),
    {
        self.secs < other.secs || (self.secs == other.secs && self.nanos <= other.nanos)
    }

    /// The instant `n` seconds before, where there is one.
    pub fn minus_seconds(&self, n: i64) -> (r: Option<Timestamp>)
        requires
            self.is_plain(),
        ensures
            r is Some <==> MIN_SECS <= self.spec_secs() - n <= MAX_SECS,
            r is Some ==> r->0.spec_secs() == self.spec_secs() - n && r->0.spec_nanos()
                == self.spec_nanos(),
    {
        proof {
            use_type_invariant(*self);
        }
        match self.secs.checked_sub(n) {
            Some(secs) => Timestamp::new(secs, self.nanos),
            None => None,
        }
    }

    pub fn day(&self) -> (r: i64)
        ensures
            r == self.day_number(),
            -100_000_000 < r < 100_000_000,
    {
        proof {
            use_type_invariant(*self);
        }
        let shifted: i64 = self.secs + 100_000_000 * 86_400;
        assert((self.secs + 100_000_000 * 86_400) / 86_400 == self.secs as int / 86_400
            + 100_000_000);
        shifted / 86_400 - 100_000_000
    }

    /// Of two instants of which neither is later, both are the same.
    pub proof fn lemma_same_instant(self, other: Timestamp)
        requires
            self.le(other),
            other.le(self),
        ensures
            self == other,
    {
    }

    /// `chrono::Utc::now`: an instant read from the clock, never inside a leap second.
    #[verifier::external_body]
    pub(crate) fn now() -> (r: Timestamp)
        ensures
            r.is_plain(),
    {
        let t = Utc::now();
        Timestamp { secs: t.timestamp(), nanos: t.timestamp_subsec_nanos() }
    }

    /// `chrono::DateTime::parse_from_rfc3339`: the instant that the text stands for, if it
    /// has that form, which depends on the text alone.
    #[verifier::external_body]
    pub(crate) fn parse_rfc3339(s: &str) -> (r: Option<Timestamp>)
        ensures
            r == rfc3339_instant(s@),
    {
        let t = DateTime::parse_from_rfc3339(s).ok()?;
        Some(Timestamp { secs: t.timestamp(), nanos: t.timestamp_subsec_nanos() })
    }

    /// `chrono::NaiveDate::parse_from_str` under the format `%Y-%m-%d`: the start of the
    /// day in UTC, if the text has that form, which depends on the text alone. A midnight
    /// is never inside a leap second.
    #[verifier::external_body]
    pub(crate) fn parse_calendar_day(s: &str) -> (r: Option<Timestamp>)
        ensures
            r == calendar_day_start(s@),
            r is Some ==> r->0.spec_nanos() == 0 && r->0.spec_secs() % SECS_PER_DAY as int == 0,
    {
        let day = NaiveDate::parse_from_str(s, "%Y-%m-%d").ok()?;
        let t = day.and_hms_opt(0, 0, 0)?.and_utc();
        Some(Timestamp { secs: t.timestamp(), nanos: 0 })
    }

    /// `chrono::DateTime::format`: the instant as text, which depends on the instant and
    /// the format alone. The formats are those that the library uses; chrono accepts each.
    #[verifier::external_body]
    pub(crate) fn format(&self, format: &str) -> (r: String)
        requires
            is_known_format(format@),
        ensures
            r@ == formatted(*self, format@),
    {
        DateTime::<Utc>::from_timestamp(self.secs, self.nanos).unwrap().format(format).to_string()
    }

    /// `chrono::DateTime::signed_duration_since` with `chrono::TimeDelta::num_seconds`: the
    /// whole seconds from `earlier` to `self`, rounded towards zero, where neither instant
    /// lies in a leap second. How chrono counts a leap second is not stated.
    #[verifier::external_body]
    pub(crate) fn seconds_since(&self, earlier: &Timestamp) -> (r: i64)
        ensures
            r == span_seconds(*self, *earlier),
            self.is_plain() && earlier.is_plain() && earlier.le(*self) ==> r == self.spec_secs()
                - earlier.spec_secs() - (if self.spec_nanos() < earlier.spec_nanos() {
                1int
            } else {
                0int
            }),
            self.is_plain() && earlier.is_plain() && self.le(*earlier) ==> r == self.spec_secs()
                - earlier.spec_secs() + (if earlier.spec_nanos() < self.spec_nanos() {
                1int
            } else {
                0int
            }),
    {
        let a = DateTime::<Utc>::from_timestamp(self.secs, self.nanos).unwrap();
        let b = DateTime::<Utc>::from_timestamp(earlier.secs, earlier.nanos).unwrap();
        a.signed_duration_since(b).num_seconds()
    }
}

/// `chrono::Datelike::month` of the day that lies `day` days after the first of 1970.
#[verifier::external_body]
pub(crate) fn calendar_month(day: i64) -> (r: u32)
    requires
        MIN_SECS <= day * SECS_PER_DAY <= MAX_SECS,
    ensures
        r == month_of_day(day),
        1 <= r <= 12,
{
    DateTime::<Utc>::from_timestamp(day * 86_400, 0).unwrap().month()
}

/// `chrono::Datelike::day` of the day that lies `day` days after the first of 1970.
#[verifier::external_body]
pub(crate) fn calendar_day(day: i64) -> (r: u32)
    requires
        MIN_SECS <= day * SECS_PER_DAY <= MAX_SECS,
    ensures
        r == day_of_month(day),
        1 <= r <= 31,
{
    DateTime::<Utc>::from_timestamp(day * 86_400, 0).unwrap().day()
}

} // verus!
