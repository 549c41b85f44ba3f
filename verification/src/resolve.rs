//! Closing sessions that were left open: which sessions they are, what a typed
//! clock-out time must satisfy, and how the session is rewritten.
//!
//! The clock-out of a resolved session lies on the calendar day on which the
//! session began, as a clock in the given zone shows it. Sessions that run past
//! midnight cannot be written down this way.

use crate::clock_text::{
    clock_time_of, hour_minute_reading, minute_result, parse_string_to_time, reading_minute,
    ClockTextError,
};
use crate::ledger::{ledger_ok, with_clock_out, Day, DayView, TimeTable};
use crate::time::{
    lemma_later_minute_is_later, local_day, local_minute, representable, wall_clock_nanos, Date,
    Instant, TimeOfDay, UtcOffset,
};
use vstd::prelude::*;

verus! {

/// Why a typed clock-out was not accepted, or a session not resolved. Nothing
/// is changed when one of these comes back.
#[derive(Clone, Copy, Debug, PartialEq, Eq, Structural)]
pub enum ResolveError {
    /// The position does not name a session that is open.
    NotOpen,
    /// The text is not a time of day.
    Unreadable(ClockTextError),
    /// The time is not later in the day than the clock-in.
    NotAfterClockIn,
    /// The clock-out would lie past the last instant that the ledger can hold.
    OutOfRange,
}

impl ResolveError {
    /// The sentence shown to the person who typed the text.
    pub fn reason(&self) -> (text: &'static str)
        ensures
            self is NotOpen ==> text@ == "this session is not open"@,
            self matches ResolveError::Unreadable(ClockTextError::Malformed) ==> text@
                == "expected a time such as 16:30, or an hour such as 16"@,
            self matches ResolveError::Unreadable(ClockTextError::HourOutOfRange) ==> text@
                == "hours have to be within 0 and 23"@,
            self is NotAfterClockIn ==> text@ == "clock out has to be after clock in"@,
            self is OutOfRange ==> text@ == "clock out is beyond the last day of the calendar"@,
    {
        match self {
            ResolveError::NotOpen => "this session is not open",
            ResolveError::Unreadable(e) => e.reason(),
            ResolveError::NotAfterClockIn => "clock out has to be after clock in",
            ResolveError::OutOfRange => "clock out is beyond the last day of the calendar",
        }
    }
}

/// Whether `(d, e)` is the position of an open session: session `e` of bucket
/// `d`.
pub open spec fn is_open_position(days: Seq<DayView>, d: int, e: int) -> bool {
    &&& 0 <= d < days.len()
    &&& 0 <= e < days[d].entry.len()
    &&& days[d].entry[e].clock_out is None
}

/// Whether position `p` comes before position `q` in storage order.
pub open spec fn comes_before(p: (usize, usize), q: (usize, usize)) -> bool {
    p.0 < q.0 || (p.0 == q.0 && p.1 < q.1)
}

/// Whether the position `(d, e)` is among `positions`.
pub open spec fn lists(positions: Seq<(usize, usize)>, d: int, e: int) -> bool {
    exists|k: int| 0 <= k < positions.len() && (#[trigger] positions[k]).0 == d && positions[k].1 == e
}

/// The verdict on a typed clock-out, as a minute of the day: it must be a time
/// of day, and later in the day than the minute at which the session began.
pub open spec fn checked_clock_out(
    parsed: Result<int, ClockTextError>,
    clock_in_minute: int,
) -> Result<int, ResolveError> {
    match parsed {
        Err(e) => Err(ResolveError::Unreadable(e)),
        Ok(minute) => if minute > clock_in_minute {
            Ok(minute)
        } else {
            Err(ResolveError::NotAfterClockIn)
        },
    }
}

/// The clock-out instant, in nanoseconds, that a typed clock-out gives to a
/// session begun at `clock_in`: the accepted time of day, on the calendar day
/// that a clock `offset` seconds ahead of UTC shows at `clock_in`, turned back
/// into UTC.
pub open spec fn resolved_clock_out(
    parsed: Result<int, ClockTextError>,
    clock_in: int,
    offset: int,
) -> Result<int, ResolveError> {
    match checked_clock_out(parsed, local_minute(clock_in, offset)) {
        Err(e) => Err(e),
        Ok(minute) => {
            let at = wall_clock_nanos(local_day(clock_in, offset), minute, offset);
            if representable(at) {
                Ok(at)
            } else {
                Err(ResolveError::OutOfRange)
            }
        },
    }
}

/// The minute of the day inside a verdict.
pub open spec fn verdict_minute(r: Result<TimeOfDay, ResolveError>) -> Result<int, ResolveError> {
    match r {
        Ok(time) => Ok(time@),
        Err(e) => Err(e),
    }
}

/// The nanoseconds since the epoch inside a resolution.
pub open spec fn verdict_instant(r: Result<Instant, ResolveError>) -> Result<int, ResolveError> {
    match r {
        Ok(at) => Ok(at@),
        Err(e) => Err(e),
    }
}

/// The ledger after the attempt to resolve the session at `(d, e)` with the
/// outcome `outcome`: rewritten if the session is open and the outcome a
/// clock-out instant, unchanged otherwise.
pub open spec fn resolution(
    before: Seq<DayView>,
    d: int,
    e: int,
    parsed: Result<int, ClockTextError>,
    offset: int,
) -> (Seq<DayView>, Result<(), ResolveError>) {
    if !is_open_position(before, d, e) {
        (before, Err(ResolveError::NotOpen))
    } else {
        match resolved_clock_out(parsed, before[d].entry[e].clock_in, offset) {
            Ok(at) => (before.update(d, with_clock_out(before[d], e, at)), Ok(())),
            Err(err) => (before, Err(err)),
        }
    }
}

/// Judges a clock-out time that was read from a text against the time of day
/// at which the session began: what could not be read is rejected as such, and
/// a time that is not later in the day than the clock-in is rejected too.
pub fn check_clock_out(parsed: Result<TimeOfDay, ClockTextError>, clock_in: TimeOfDay) -> (r:
    Result<TimeOfDay, ResolveError>)
    ensures
        verdict_minute(r) == checked_clock_out(minute_result(parsed), clock_in@),
{
    match parsed {
        Err(e) => Err(ResolveError::Unreadable(e)),
        Ok(time) => {
            if time.is_after(&clock_in) {
                Ok(time)
            } else {
                Err(ResolveError::NotAfterClockIn)
            }
        },
    }
}

/// Judges a typed clock-out for a session begun at `clock_in`, as seen on a
/// clock in `zone`. This is the test to run on every answer before it is
/// accepted; a rejected answer is asked for again.
pub fn validate_clock_out(text: &str, clock_in: &Instant, zone: UtcOffset) -> (r: Result<
    TimeOfDay,
    ResolveError,
>)
    ensures
        verdict_minute(r) == checked_clock_out(
            clock_time_of(reading_minute(hour_minute_reading(text@)), text@),
            local_minute(clock_in@, zone@),
        ),
{
    check_clock_out(parse_string_to_time(text), clock_in.local_time(zone))
}

/// The instant at which a session begun at `clock_in` is clocked out by a
/// clock-out time read from a text: that time of day on the calendar day of the
/// clock-in, both as a clock in `zone` shows them. The instant is after the
/// clock-in.
pub fn clock_out_instant(
    parsed: Result<TimeOfDay, ClockTextError>,
    clock_in: &Instant,
    zone: UtcOffset,
) -> (r: Result<Instant, ResolveError>)
    ensures
        verdict_instant(r) == resolved_clock_out(minute_result(parsed), clock_in@, zone@),
        r matches Ok(at) ==> at@ > clock_in@,
{
    match check_clock_out(parsed, clock_in.local_time(zone)) {
        Err(e) => Err(e),
        Ok(time) => {
            let date: Date = clock_in.local_date(zone);
            proof {
                lemma_later_minute_is_later(clock_in@, time@, zone@);
            }
            match Instant::at_local(date, time, zone) {
                Some(at) => Ok(at),
                None => Err(ResolveError::OutOfRange),
            }
        },
    }
}

impl TimeTable {
    /// The positions of all open sessions, in storage order: each as the index
    /// of its bucket and its index within the bucket. An empty list means that
    /// there is nothing to resolve.
    pub fn open_entries(&self) -> (found: Vec<(usize, usize)>)
        ensures
            forall|k: int|
                0 <= k < found.len() ==> is_open_position(
                    self@,
                    (#[trigger] found[k]).0 as int,
                    found[k].1 as int,
                ),
            forall|d: int, e: int| is_open_position(self@, d, e) ==> lists(found@, d, e),
            forall|k: int, l: int|
                0 <= k < l < found.len() ==> comes_before(#[trigger] found[k], #[trigger] found[l]),
    {
        let days: &Vec<Day> = self.days();
        let ghost views = self@;
        let mut found: Vec<(usize, usize)> = Vec::new();
        let mut d: usize = 0;
        while d < days.len()
            invariant
                d <= days.len(),
                views == self@,
                views == crate::ledger::day_views(days@),
                forall|k: int|
                    0 <= k < found.len() ==> is_open_position(
                        views,
                        (#[trigger] found[k]).0 as int,
                        found[k].1 as int,
                    ) && found[k].0 < d,
                forall|x: int, y: int| is_open_position(views, x, y) && x < d ==> lists(found@, x, y),
                forall|k: int, l: int|
                    0 <= k < l < found.len() ==> comes_before(
                        #[trigger] found[k],
                        #[trigger] found[l],
                    ),
            decreases days.len() - d,
        {
            let day: &Day = &days[d];
            assert(views[d as int] == day@);
            let mut e: usize = 0;
            while e < day.entry.len()
                invariant
                    e <= day.entry.len(),
                    d < days.len(),
                    views == crate::ledger::day_views(days@),
                    views[d as int] == day@,
                    forall|k: int|
                        0 <= k < found.len() ==> is_open_position(
                            views,
                            (#[trigger] found[k]).0 as int,
                            found[k].1 as int,
                        ) && (found[k].0 < d || (found[k].0 == d && found[k].1 < e)),
                    forall|x: int, y: int|
                        is_open_position(views, x, y) && (x < d || (x == d && y < e)) ==> lists(
                            found@,
                            x,
                            y,
                        ),
                    forall|k: int, l: int|
                        0 <= k < l < found.len() ==> comes_before(
                            #[trigger] found[k],
                            #[trigger] found[l],
                        ),
                decreases day.entry.len() - e,
            {
                assert(views[d as int].entry[e as int] == day.entry@[e as int]@);
                if day.entry[e].clock_out.is_none() {
                    let ghost before = found@;
                    found.push((d, e));
                    proof {
                        assert forall|x: int, y: int|
                            is_open_position(views, x, y) && (x < d || (x == d && y < e + 1))
                            implies lists(found@, x, y) by {
                            if x == d && y == e {
                                assert(found@[before.len() as int] == (d, e));
                            } else {
                                assert(lists(before, x, y));
                                let k = choose|k: int|
                                    0 <= k < before.len() && (#[trigger] before[k]).0 == x
                                        && before[k].1 == y;
                                assert(found@[k] == before[k]);
                            }
                        }
                    }
                }
                e = e + 1;
            }
            d = d + 1;
        }
        found
    }

    /// Resolves the open session at position `(day, entry)` with a clock-out
    /// time that was read from a text. The time must be later in the day than
    /// the clock-in, as a clock in `zone` shows both; the session is then
    /// clocked out at that time on the calendar day of its clock-in. Otherwise
    /// nothing changes.
    pub fn resolve_entry_with(
        &mut self,
        day: usize,
        entry: usize,
        parsed: Result<TimeOfDay, ClockTextError>,
        zone: UtcOffset,
    ) -> (r: Result<(), ResolveError>)
        ensures
            ledger_ok(final(self)@),
            (final(self)@, r) == resolution(
                old(self)@,
                day as int,
                entry as int,
                minute_result(parsed),
                zone@,
            ),
    {
        let days: &Vec<Day> = self.days();
        if day >= days.len() {
            return Err(ResolveError::NotOpen);
        }
        assert(self@[day as int] == days@[day as int]@);
        if entry >= days[day].entry.len() {
            return Err(ResolveError::NotOpen);
        }
        assert(self@[day as int].entry[entry as int] == days@[day as int].entry@[entry as int]@);
        if days[day].entry[entry].clock_out.is_some() {
            return Err(ResolveError::NotOpen);
        }
        let clock_in: Instant = days[day].entry[entry].clock_in;
        match clock_out_instant(parsed, &clock_in, zone) {
            Err(e) => Err(e),
            Ok(at) => {
                self.stamp_clock_out(day, entry, at);
                Ok(())
            },
        }
    }

    /// Resolves the open session at position `(day, entry)` with the clock-out
    /// that the user typed: `16:30`, or a bare hour such as `16`.
    pub fn resolve_entry(&mut self, day: usize, entry: usize, text: &str, zone: UtcOffset) -> (r:
        Result<(), ResolveError>)
        ensures
            ledger_ok(final(self)@),
            (final(self)@, r) == resolution(
                old(self)@,
                day as int,
                entry as int,
                clock_time_of(reading_minute(hour_minute_reading(text@)), text@),
                zone@,
            ),
    {
        self.resolve_entry_with(day, entry, parse_string_to_time(text), zone)
    }
}

} // verus!
