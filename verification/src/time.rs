//! Instants in UTC and how they are written.

use vstd::prelude::*;

verus! {

/// The first second that a calendar date can be written for (year -262143).
pub const MIN_SECS: i64 = -8_334_601_228_800;

/// The last second that a calendar date can be written for (year 262142).
pub const MAX_SECS: i64 = 8_210_266_876_799;

/// Nanoseconds in a second.
pub const NANOS_PER_SEC: u32 = 1_000_000_000;

/// An instant: seconds since the Unix epoch, and nanoseconds within the second.
#[derive(Clone, Copy, Debug, PartialEq, Eq)]
pub struct Timestamp {
    secs: i64,
    nanos: u32,
}

/// Whether seconds and nanoseconds make an instant of the supported calendar.
pub open spec fn in_calendar(secs: int, nanos: int) -> bool {
    MIN_SECS <= secs <= MAX_SECS && 0 <= nanos < NANOS_PER_SEC
}

/// `chrono::DateTime::to_rfc3339_opts` with milliseconds and `Z`: the instant as text.
pub uninterp spec fn rfc3339_millis(secs: int, nanos: int) -> Seq<char>;

/// `chrono::DateTime::to_rfc3339`: the instant as text.
pub uninterp spec fn rfc3339(secs: int, nanos: int) -> Seq<char>;

impl Timestamp {
    #[verifier::type_invariant]
    spec fn valid(self) -> bool {
        in_calendar(self.secs as int, self.nanos as int)
    }

    /// Seconds since the Unix epoch.
    pub closed spec fn seconds(self) -> int {
        self.secs as int
    }

    /// Nanoseconds within the second.
    pub closed spec fn subsec_nanos(self) -> int {
        self.nanos as int
    }

    /// The instant as one number of nanoseconds since the Unix epoch.
    pub open spec fn total_nanos(self) -> int {
        self.seconds() * 1_000_000_000 + self.subsec_nanos()
    }

    /// Whether the instant is what a reading of the clock gave, second and nanosecond.
    pub closed spec fn read_from_clock(self) -> bool {
        call_ensures(clock, (), (self.secs, self.nanos))
    }

    /// Whether the instant was read from the clock, and so is not before the epoch.
    pub open spec fn is_reading(self) -> bool {
        self.read_from_clock() && self.seconds() >= 0
    }

    /// The instant of the given seconds and nanoseconds, if the calendar has it.
    pub fn new(secs: i64, nanos: u32) -> (r: Option<Timestamp>)
        ensures
            r is Some <==> in_calendar(secs as int, nanos as int),
            r matches Some(t) ==> t.seconds() == secs && t.subsec_nanos() == nanos,
    {
        if MIN_SECS <= secs && secs <= MAX_SECS && nanos < NANOS_PER_SEC {
            Some(Timestamp { secs, nanos })
        } else {
            None
        }
    }

    /// The current instant: what the clock gives, unchanged. It is never before the epoch.
    pub fn now() -> (t: Timestamp)
        ensures
            t.read_from_clock(),
            t.seconds() >= 0,
            t.is_reading(),
    {
        let (secs, nanos) = clock();
        Timestamp { secs, nanos }
    }

    /// The instant with milliseconds, ending in `Z`.
    pub fn to_millis_text(&self) -> (s: String)
        ensures
            s@ == rfc3339_millis(self.seconds(), self.subsec_nanos()),
    {
        proof {
            use_type_invariant(self);
        }
        format_millis(self.secs, self.nanos)
    }

    /// The instant with as many subsecond digits as it needs.
    pub fn to_text(&self) -> (s: String)
        ensures
            s@ == rfc3339(self.seconds(), self.subsec_nanos()),
    {
        proof {
            use_type_invariant(self);
        }
        format_auto(self.secs, self.nanos)
    }
}

/// Whole milliseconds from `start` to `end`; 0 when `end` comes first.
pub open spec fn elapsed_ms(start: Timestamp, end: Timestamp) -> int {
    let d = end.total_nanos() - start.total_nanos();
    if d < 0 {
        0
    } else {
        d / 1_000_000
    }
}

/// Whole milliseconds from `start` to `end`; 0 when `end` comes first.
pub fn millis_between(start: &Timestamp, end: &Timestamp) -> (ms: u64)
    ensures
        ms == elapsed_ms(*start, *end),
{
    proof {
        use_type_invariant(start);
        use_type_invariant(end);
    }
    let a: i128 = start.secs as i128 * 1_000_000_000 + start.nanos as i128;
    let b: i128 = end.secs as i128 * 1_000_000_000 + end.nanos as i128;
    if b < a {
        0
    } else {
        ((b - a) / 1_000_000) as u64
    }
}

/// `chrono::Utc::now`, as seconds since the Unix epoch and nanoseconds within the
/// second. It panics when the system clock stands before the epoch; whatever
/// instant it gives is not before the epoch and lies in the calendar.
#[verifier::external_body]
fn clock() -> (r: (i64, u32))
    ensures
        in_calendar(r.0 as int, r.1 as int),
        r.0 >= 0,
{
    let t = chrono::Utc::now();
    (t.timestamp(), t.timestamp_subsec_nanos())
}

/// `chrono::DateTime::to_rfc3339_opts(SecondsFormat::Millis, true)` of the instant
/// with these seconds and nanoseconds: its text depends on them alone.
#[verifier::external_body]
fn format_millis(secs: i64, nanos: u32) -> (s: String)
    requires
        in_calendar(secs as int, nanos as int),
    ensures
        s@ == rfc3339_millis(secs as int, nanos as int),
{
    let t = chrono::DateTime::<chrono::Utc>::from_timestamp(secs, nanos).unwrap();
    t.to_rfc3339_opts(chrono::SecondsFormat::Millis, true)
}

/// `chrono::DateTime::to_rfc3339` of the instant with these seconds and
/// nanoseconds: its text depends on them alone.
#[verifier::external_body]
fn format_auto(secs: i64, nanos: u32) -> (s: String)
    requires
        in_calendar(secs as int, nanos as int),
    ensures
        s@ == rfc3339(secs as int, nanos as int),
{
    chrono::DateTime::<chrono::Utc>::from_timestamp(secs, nanos).unwrap().to_rfc3339()
}

} // verus!
