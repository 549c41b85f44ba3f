//! Plain-value time model: UTC instants, fixed local offsets, calendar days,
//! wall-clock times of day and exact spans between instants.
//!
//! Everything here is integer arithmetic. An instant is an exact number of
//! nanoseconds since the Unix epoch; a calendar day is the number of whole days
//! since 1970-01-01 on a wall clock that runs a fixed number of seconds ahead of
//! UTC.

use vstd::prelude::*;

verus! {

/// Nanoseconds in one second.
pub const NANOS_PER_SEC: u32 = 1_000_000_000;

/// Seconds in one minute.
pub const SECS_PER_MINUTE: i64 = 60;

/// Seconds in one calendar day.
pub const SECS_PER_DAY: i64 = 86_400;

/// Minutes in one calendar day.
pub const MINUTES_PER_DAY: u32 = 1_440;

/// Earliest instant the ledger stores: 0000-01-01T00:00:00Z.
pub const MIN_EPOCH_SECS: i64 = -62_167_219_200;

/// Latest whole second the ledger stores: 9999-12-31T23:59:59Z.
pub const MAX_EPOCH_SECS: i64 = 253_402_300_799;

/// No two instants are this many nanoseconds apart: the length of the range
/// from the earliest to the latest instant.
pub const MAX_GAP_NANOS: i128 = 315_569_520_000_000_000_000;

/// Whole seconds since the epoch of an instant given in nanoseconds (rounded down).
pub open spec fn epoch_secs(at: int) -> int {
    at / (NANOS_PER_SEC as int)
}

/// Whether a nanosecond count lies in the range that an [`Instant`] can hold.
pub open spec fn representable(at: int) -> bool {
    MIN_EPOCH_SECS <= epoch_secs(at) <= MAX_EPOCH_SECS
}

/// Calendar day (days since 1970-01-01) that a clock `offset` seconds ahead of
/// UTC shows at the instant `at`.
pub open spec fn local_day(at: int, offset: int) -> int {
    (epoch_secs(at) + offset) / (SECS_PER_DAY as int)
}

/// Minute of the day (0 to 1439) that a clock `offset` seconds ahead of UTC
/// shows at the instant `at`; seconds are cut off, not rounded.
pub open spec fn local_minute(at: int, offset: int) -> int {
    ((epoch_secs(at) + offset) % (SECS_PER_DAY as int)) / (SECS_PER_MINUTE as int)
}

/// The instant, in nanoseconds, at which a clock `offset` seconds ahead of UTC
/// shows minute `minute` of calendar day `day`.
pub open spec fn wall_clock_nanos(day: int, minute: int, offset: int) -> int {
    (day * (SECS_PER_DAY as int) + minute * (SECS_PER_MINUTE as int) - offset) * (
    NANOS_PER_SEC as int)
}

/// Absolute value of a span, in whole minutes (seconds and fractions cut off).
pub open spec fn magnitude_minutes(nanos: int) -> int {
    let magnitude = if nanos < 0 {
        -nanos
    } else {
        nanos
    };
    (magnitude / (NANOS_PER_SEC as int)) / (SECS_PER_MINUTE as int)
}

/// A fixed difference between a local wall clock and UTC, in seconds east of
/// Greenwich. Always strictly within one day.
#[derive(Clone, Copy, Debug, PartialEq, Eq, Structural)]
pub struct UtcOffset {
    seconds: i32,
}

impl View for UtcOffset {
    type V = int;

    closed spec fn view(&self) -> int {
        self.seconds as int
    }
}

impl UtcOffset {
    #[verifier::type_invariant]
    spec fn within_a_day(self) -> bool {
        -SECS_PER_DAY < self.seconds < SECS_PER_DAY
    }

    /// The offset `seconds` east of UTC, if it is strictly within one day.
    pub fn new(seconds: i32) -> (r: Option<UtcOffset>)
        ensures
            r is Some <==> -SECS_PER_DAY < seconds < SECS_PER_DAY,
            r matches Some(zone) ==> zone@ == seconds,
    {
        if -86_400 < seconds && seconds < 86_400 {
            Some(UtcOffset { seconds })
        } else {
            None
        }
    }

    /// UTC itself.
    pub fn utc() -> (zone: UtcOffset)
        ensures
            zone@ == 0,
    {
        UtcOffset { seconds: 0 }
    }

    /// Seconds east of UTC.
    pub fn seconds(&self) -> (s: i32)
        ensures
            s == self@,
            -SECS_PER_DAY < s < SECS_PER_DAY,
    {
        proof {
            use_type_invariant(self);
        }
        self.seconds
    }
}

/// A calendar day, counted in days since 1970-01-01.
#[derive(Clone, Copy, Debug, PartialEq, Eq, Structural, PartialOrd, Ord, Hash)]
pub struct Date {
    days: i64,
}

impl View for Date {
    type V = int;

    closed spec fn view(&self) -> int {
        self.days as int
    }
}

impl Date {
    /// The day `days` days after 1970-01-01 (before it, if negative).
    pub fn from_days(days: i64) -> (d: Date)
        ensures
            d@ == days,
    {
        Date { days }
    }

    /// Days since 1970-01-01.
    pub fn days(&self) -> (n: i64)
        ensures
            n == self@,
    {
        self.days
    }

    /// Whether both are the same calendar day.
    pub fn same_day(&self, other: &Date) -> (r: bool)
        ensures
            r == (self@ == other@),
    {
        self.days == other.days
    }
}

/// A wall-clock time of day with minute precision. Its view is the minute of
/// the day, from 0 (00:00) to 1439 (23:59).
#[derive(Clone, Copy, Debug, PartialEq, Eq, Structural)]
pub struct TimeOfDay {
    hour: u32,
    minute: u32,
}

impl View for TimeOfDay {
    type V = int;

    closed spec fn view(&self) -> int {
        self.hour * 60 + self.minute
    }
}

impl TimeOfDay {
    #[verifier::type_invariant]
    spec fn on_the_dial(self) -> bool {
        self.hour < 24 && self.minute < 60
    }

    /// `hour:minute` on a 24-hour clock, if there is such a time.
    pub fn new(hour: u32, minute: u32) -> (r: Option<TimeOfDay>)
        ensures
            r is Some <==> hour < 24 && minute < 60,
            r matches Some(t) ==> t@ == hour * 60 + minute,
    {
        if hour < 24 && minute < 60 {
            Some(TimeOfDay { hour, minute })
        } else {
            None
        }
    }

    /// Hour of the day, 0 to 23.
    pub fn hour(&self) -> (h: u32)
        ensures
            h == self@ / 60,
            h < 24,
    {
        proof {
            use_type_invariant(self);
        }
        self.hour
    }

    /// Minute of the hour, 0 to 59.
    pub fn minute(&self) -> (m: u32)
        ensures
            m == self@ % 60,
            m < 60,
    {
        proof {
            use_type_invariant(self);
        }
        self.minute
    }

    /// Minute of the day, 0 to 1439.
    pub fn minute_of_day(&self) -> (m: u32)
        ensures
            m == self@,
            m < MINUTES_PER_DAY,
    {
        proof {
            use_type_invariant(self);
        }
        self.hour * 60 + self.minute
    }

    /// Whether this time is strictly later in the day than `other`.
    pub fn is_after(&self, other: &TimeOfDay) -> (r: bool)
        ensures
            r == (self@ > other@),
    {
        proof {
            use_type_invariant(self);
            use_type_invariant(other);
        }
        self.hour > other.hour || (self.hour == other.hour && self.minute > other.minute)
    }
}

/// An instant on the UTC time line with nanosecond precision, between
/// 0000-01-01T00:00:00Z and 9999-12-31T23:59:59.999999999Z. Its view is the
/// number of nanoseconds since 1970-01-01T00:00:00Z.
#[derive(Clone, Copy, Debug, PartialEq, Eq, Structural, PartialOrd, Ord, Hash)]
pub struct Instant {
    secs: i64,
    nanos: u32,
}

impl View for Instant {
    type V = int;

    closed spec fn view(&self) -> int {
        self.secs * (NANOS_PER_SEC as int) + self.nanos
    }
}

/// Number of the day that holds second `secs`, days being 86 400 seconds long.
fn day_index(secs: i64) -> (day: i64)
    ensures
        day == (secs as int) / (SECS_PER_DAY as int),
{
    let quotient: i64 = secs / 86_400;
    if secs % 86_400 < 0 {
        quotient - 1
    } else {
        quotient
    }
}

/// Position of second `secs` within its day.
fn second_of_day(secs: i64) -> (s: i64)
    ensures
        s == (secs as int) % (SECS_PER_DAY as int),
        0 <= s < SECS_PER_DAY,
{
    let remainder: i64 = secs % 86_400;
    if remainder < 0 {
        remainder + 86_400
    } else {
        remainder
    }
}

impl Instant {
    #[verifier::type_invariant]
    spec fn in_range(self) -> bool {
        MIN_EPOCH_SECS <= self.secs <= MAX_EPOCH_SECS && self.nanos < NANOS_PER_SEC
    }

    /// The instant `nanos` nanoseconds after second `secs` of the Unix epoch, if
    /// `nanos` is less than a second and the instant is in range.
    pub fn new(secs: i64, nanos: u32) -> (r: Option<Instant>)
        ensures
            r is Some <==> MIN_EPOCH_SECS <= secs <= MAX_EPOCH_SECS && nanos < NANOS_PER_SEC,
            r matches Some(at) ==> at@ == secs * (NANOS_PER_SEC as int) + nanos,
    {
        if MIN_EPOCH_SECS <= secs && secs <= MAX_EPOCH_SECS && nanos < NANOS_PER_SEC {
            Some(Instant { secs, nanos })
        } else {
            None
        }
    }

    /// Whole seconds since the epoch, rounded down.
    pub fn epoch_seconds(&self) -> (s: i64)
        ensures
            s == epoch_secs(self@),
            MIN_EPOCH_SECS <= s <= MAX_EPOCH_SECS,
    {
        proof {
            use_type_invariant(self);
        }
        self.secs
    }

    /// Nanoseconds past the whole second.
    pub fn subsec_nanos(&self) -> (n: u32)
        ensures
            n == self@ % (NANOS_PER_SEC as int),
            n < NANOS_PER_SEC,
    {
        proof {
            use_type_invariant(self);
        }
        self.nanos
    }

    /// Whether this instant is strictly later than `other`.
    pub fn is_after(&self, other: &Instant) -> (r: bool)
        ensures
            r == (self@ > other@),
    {
        proof {
            use_type_invariant(self);
            use_type_invariant(other);
        }
        self.secs > other.secs || (self.secs == other.secs && self.nanos > other.nanos)
    }

    /// The exact time from `earlier` to this instant; negative if `earlier` is
    /// in fact later.
    pub fn since(&self, earlier: &Instant) -> (span: Span)
        ensures
            span@ == self@ - earlier@,
            -MAX_GAP_NANOS < span@ < MAX_GAP_NANOS,
    {
        proof {
            use_type_invariant(self);
            use_type_invariant(earlier);
        }
        let secs: i128 = self.secs as i128 - earlier.secs as i128;
        if self.nanos >= earlier.nanos {
            Span { secs, nanos: self.nanos - earlier.nanos }
        } else {
            Span { secs: secs - 1, nanos: self.nanos + NANOS_PER_SEC - earlier.nanos }
        }
    }

    /// The calendar day that a clock in `zone` shows at this instant.
    pub fn local_date(&self, zone: UtcOffset) -> (d: Date)
        ensures
            d@ == local_day(self@, zone@),
    {
        proof {
            use_type_invariant(self);
            use_type_invariant(&zone);
        }
        let local: i64 = self.secs + zone.seconds as i64;
        Date { days: day_index(local) }
    }

    /// The time of day that a clock in `zone` shows at this instant, to the
    /// minute.
    pub fn local_time(&self, zone: UtcOffset) -> (t: TimeOfDay)
        ensures
            t@ == local_minute(self@, zone@),
    {
        proof {
            use_type_invariant(self);
            use_type_invariant(&zone);
        }
        let local: i64 = self.secs + zone.seconds as i64;
        let second: i64 = second_of_day(local);
        let hour: u32 = (second / 3_600) as u32;
        let minute: u32 = ((second % 3_600) / 60) as u32;
        TimeOfDay { hour, minute }
    }

    /// The instant at which a clock in `zone` shows `time` on `date`, if that
    /// instant is in range.
    pub fn at_local(date: Date, time: TimeOfDay, zone: UtcOffset) -> (r: Option<Instant>)
        ensures
            r is Some <==> representable(wall_clock_nanos(date@, time@, zone@)),
            r matches Some(at) ==> at@ == wall_clock_nanos(date@, time@, zone@),
    {
        proof {
            use_type_invariant(&time);
            use_type_invariant(&zone);
        }
        let secs: i128 = date.days as i128 * 86_400 + time.hour as i128 * 3_600 + time.minute as i128
            * 60 - zone.seconds as i128;
        if MIN_EPOCH_SECS as i128 <= secs && secs <= MAX_EPOCH_SECS as i128 {
            Some(Instant { secs: secs as i64, nanos: 0 })
        } else {
            None
        }
    }
}

/// An exact, signed length of time. Its view is the length in nanoseconds.
#[derive(Clone, Copy, Debug, PartialEq, Eq, Structural)]
pub struct Span {
    secs: i128,
    nanos: u32,
}

impl View for Span {
    type V = int;

    closed spec fn view(&self) -> int {
        self.secs * (NANOS_PER_SEC as int) + self.nanos
    }
}

impl Span {
    #[verifier::type_invariant]
    spec fn normalized(self) -> bool {
        self.nanos < NANOS_PER_SEC
    }

    /// The empty span.
    pub fn zero() -> (span: Span)
        ensures
            span@ == 0,
    {
        Span { secs: 0, nanos: 0 }
    }

    /// A span of `secs` whole seconds.
    pub fn from_seconds(secs: i128) -> (span: Span)
        ensures
            span@ == secs * (NANOS_PER_SEC as int),
    {
        Span { secs, nanos: 0 }
    }

    /// Whole seconds of the span, rounded down (towards minus infinity).
    pub fn seconds(&self) -> (s: i128)
        ensures
            s == self@ / (NANOS_PER_SEC as int),
    {
        proof {
            use_type_invariant(self);
        }
        self.secs
    }

    /// Nanoseconds on top of [`Span::seconds`].
    pub fn subsec_nanos(&self) -> (n: u32)
        ensures
            n == self@ % (NANOS_PER_SEC as int),
            n < NANOS_PER_SEC,
    {
        proof {
            use_type_invariant(self);
        }
        self.nanos
    }

    /// Whether the span is shorter than nothing.
    pub fn is_negative(&self) -> (r: bool)
        ensures
            r == (self@ < 0),
    {
        proof {
            use_type_invariant(self);
        }
        self.secs < 0
    }

    /// The span's absolute length in whole minutes.
    pub fn whole_minutes(&self) -> (m: u128)
        ensures
            m == magnitude_minutes(self@),
    {
        proof {
            use_type_invariant(self);
        }
        let whole_secs: u128 = if self.secs >= 0 {
            self.secs as u128
        } else if self.nanos > 0 {
            (-(self.secs + 1)) as u128
        } else {
            (-(self.secs + 1)) as u128 + 1
        };
        whole_secs / 60
    }

    /// The span's absolute length as whole hours and the minutes left over (0 to
    /// 59): the two numbers that a report shows. Neither is ever negative, and
    /// seconds are never shown.
    pub fn hours_minutes(&self) -> (hm: (u128, u32))
        ensures
            hm.0 == magnitude_minutes(self@) / 60,
            hm.1 == magnitude_minutes(self@) % 60,
            hm.1 < 60,
    {
        let minutes: u128 = self.whole_minutes();
        (minutes / 60, (minutes % 60) as u32)
    }

    /// The sum of two spans, given that its whole seconds fit.
    pub(crate) fn plus(&self, other: &Span) -> (sum: Span)
        requires
            i128::MIN + 1 < self@ / (NANOS_PER_SEC as int) + other@ / (NANOS_PER_SEC as int)
                < i128::MAX - 1,
        ensures
            sum@ == self@ + other@,
    {
        proof {
            use_type_invariant(self);
            use_type_invariant(other);
        }
        let nanos: u32 = self.nanos + other.nanos;
        if nanos >= NANOS_PER_SEC {
            Span { secs: self.secs + other.secs + 1, nanos: nanos - NANOS_PER_SEC }
        } else {
            Span { secs: self.secs + other.secs, nanos }
        }
    }
}

/// The clock reading that [`Instant::at_local`] turns into an instant is the
/// reading that [`Instant::local_date`] and [`Instant::local_time`] give back
/// for that instant.
pub proof fn lemma_wall_clock_round_trip(day: int, minute: int, offset: int)
    requires
        0 <= minute < MINUTES_PER_DAY,
    ensures
        local_day(wall_clock_nanos(day, minute, offset), offset) == day,
        local_minute(wall_clock_nanos(day, minute, offset), offset) == minute,
{
    let secs = day * 86_400 + minute * 60 - offset;
    assert(wall_clock_nanos(day, minute, offset) == secs * 1_000_000_000);
    assert(epoch_secs(secs * 1_000_000_000) == secs);
    assert(secs + offset == day * 86_400 + minute * 60);
}

/// On one calendar day of one clock, a later minute is a later instant: the
/// instant at which the clock shows a minute of the day that is past the one it
/// shows at `at` is after `at`.
pub proof fn lemma_later_minute_is_later(at: int, minute: int, offset: int)
    requires
        local_minute(at, offset) < minute,
    ensures
        wall_clock_nanos(local_day(at, offset), minute, offset) > at,
{
    let secs = epoch_secs(at);
    let local = secs + offset;
    let day = local / 86_400;
    let second = local % 86_400;
    assert(local == day * 86_400 + second);
    assert(second / 60 < minute);
    assert(second < minute * 60);
    let wall = day * 86_400 + minute * 60 - offset;
    assert(wall >= secs + 1);
    assert(wall_clock_nanos(day, minute, offset) == wall * 1_000_000_000);
    assert(at < (secs + 1) * 1_000_000_000);
}

} // verus!
