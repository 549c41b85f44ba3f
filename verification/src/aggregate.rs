//! Worked time and break time of an ordered sequence of events.
//!
//! Worked time pairs each clock-out with the clock-in that was last seen before
//! it. Break time is a flat half hour for every break marker.

use crate::event::{event_views, label_view, same_project, ClockEvent, EventKind, EventView};
use crate::time::Span;
use vstd::prelude::*;

verus! {

/// Minutes that every break marker counts for, whatever time really passed.
pub const BREAK_MINUTES: u32 = 30;

/// Nanoseconds that every break marker counts for.
pub open spec fn break_marker_nanos() -> int {
    1_800_000_000_000
}

/// What the walk over the events carries along: the time worked so far, and
/// the clock-in that still waits for its clock-out.
pub struct Tally {
    pub worked: int,
    pub pending: Option<EventView>,
}

/// One step of the walk. A clock-in becomes the pending one, displacing any
/// other. A clock-out settles the pending clock-in: the time between the two is
/// added if that clock-in belongs to `project`, and nothing is pending
/// afterwards; with nothing pending it adds nothing. A break changes nothing.
pub open spec fn tally_step(before: Tally, event: EventView, project: Option<Seq<char>>) -> Tally {
    match event.kind {
        EventKind::ClockIn => Tally { worked: before.worked, pending: Some(event) },
        EventKind::ClockOut => match before.pending {
            Some(clock_in) => if clock_in.project == project {
                Tally { worked: before.worked + (event.at - clock_in.at), pending: None }
            } else {
                Tally { worked: before.worked, pending: None }
            },
            None => Tally { worked: before.worked, pending: None },
        },
        EventKind::Break => before,
    }
}

/// The walk over all of `events`, in order.
pub open spec fn tally(events: Seq<EventView>, project: Option<Seq<char>>) -> Tally
    decreases events.len(),
{
    if events.len() == 0 {
        Tally { worked: 0, pending: None }
    } else {
        tally_step(tally(events.drop_last(), project), events.last(), project)
    }
}

/// Nanoseconds worked on `project` according to `events`.
pub open spec fn worked_nanos(events: Seq<EventView>, project: Option<Seq<char>>) -> int {
    tally(events, project).worked
}

/// Number of break markers among `events`.
pub open spec fn break_count(events: Seq<EventView>) -> nat
    decreases events.len(),
{
    if events.len() == 0 {
        0
    } else {
        break_count(events.drop_last()) + if events.last().kind is Break {
            1nat
        } else {
            0nat
        }
    }
}

/// Nanoseconds of break according to `events`: half an hour per marker.
pub open spec fn break_nanos(events: Seq<EventView>) -> int {
    break_count(events) * break_marker_nanos()
}

/// Time worked on `project` according to `events`, taken in the order given.
///
/// Each clock-out is paired with the clock-in last seen before it and counts
/// only if that clock-in carries exactly the label `project`. A clock-out that
/// follows no clock-in is ignored, and so is a clock-in that no clock-out
/// follows.
pub fn worked_duration(events: &Vec<ClockEvent>, project: &Option<String>) -> (total: Span)
    ensures
        total@ == worked_nanos(event_views(events@), label_view(*project)),
{
    let ghost views = event_views(events@);
    let ghost filter = label_view(*project);
    let mut total: Span = Span::zero();
    let mut pending: Option<usize> = None;
    let mut i: usize = 0;
    while i < events.len()
        invariant
            i <= events.len(),
            views == event_views(events@),
            filter == label_view(*project),
            total@ == tally(views.take(i as int), filter).worked,
            -(i as int) * 315_569_520_000_000_000_000 <= total@ <= i * 315_569_520_000_000_000_000,
            match pending {
                Some(k) => k < i && tally(views.take(i as int), filter).pending == Some(views[k as int]),
                None => tally(views.take(i as int), filter).pending is None,
            },
        decreases events.len() - i,
    {
        proof {
            assert(views.take(i + 1).drop_last() == views.take(i as int));
            assert(views.take(i + 1).last() == views[i as int]);
            assert(views[i as int] == events@[i as int]@);
        }
        let event: &ClockEvent = &events[i];
        match event.kind {
            EventKind::ClockIn => {
                pending = Some(i);
            },
            EventKind::ClockOut => {
                match pending {
                    Some(k) => {
                        let clock_in: &ClockEvent = &events[k];
                        proof {
                            assert(views[k as int] == events@[k as int]@);
                        }
                        if same_project(&clock_in.project, project) {
                            let span: Span = event.timestamp.since(&clock_in.timestamp);
                            total = total.plus(&span);
                        }
                    },
                    None => {},
                }
                pending = None;
            },
            EventKind::Break => {},
        }
        i = i + 1;
    }
    proof {
        assert(views.take(events.len() as int) == views);
    }
    total
}

/// Break time according to `events`: thirty minutes for every break marker,
/// whenever it was recorded.
pub fn break_duration(events: &Vec<ClockEvent>) -> (total: Span)
    ensures
        total@ == break_nanos(event_views(events@)),
{
    let ghost views = event_views(events@);
    let mut seconds: i128 = 0;
    let mut i: usize = 0;
    while i < events.len()
        invariant
            i <= events.len(),
            views == event_views(events@),
            seconds == break_count(views.take(i as int)) * 1_800,
            0 <= seconds <= i * 1_800,
        decreases events.len() - i,
    {
        proof {
            assert(views.take(i + 1).drop_last() == views.take(i as int));
            assert(views.take(i + 1).last() == views[i as int]);
            assert(views[i as int] == events@[i as int]@);
        }
        match events[i].kind {
            EventKind::Break => {
                seconds = seconds + 1_800;
            },
            _ => {},
        }
        i = i + 1;
    }
    proof {
        assert(views.take(events.len() as int) == views);
    }
    Span::from_seconds(seconds)
}

/// The events that a run of closed sessions of one project leaves behind:
/// for each session, given as its clock-in and clock-out instants, a clock-in
/// event followed by a clock-out event.
pub open spec fn session_events(sessions: Seq<(int, int)>, project: Option<Seq<char>>) -> Seq<
    EventView,
>
    decreases sessions.len(),
{
    if sessions.len() == 0 {
        Seq::empty()
    } else {
        session_events(sessions.drop_last(), project).push(
            EventView { at: sessions.last().0, kind: EventKind::ClockIn, project },
        ).push(EventView { at: sessions.last().1, kind: EventKind::ClockOut, project })
    }
}

/// The sum of the lengths of the sessions.
pub open spec fn session_total(sessions: Seq<(int, int)>) -> int
    decreases sessions.len(),
{
    if sessions.len() == 0 {
        0
    } else {
        session_total(sessions.drop_last()) + (sessions.last().1 - sessions.last().0)
    }
}

/// The sessions of all buckets, in order, as one run.
pub open spec fn joined(buckets: Seq<Seq<(int, int)>>) -> Seq<(int, int)>
    decreases buckets.len(),
{
    if buckets.len() == 0 {
        Seq::empty()
    } else {
        joined(buckets.drop_last()) + buckets.last()
    }
}

/// Worked time computed bucket by bucket and then added up.
pub open spec fn worked_by_bucket(buckets: Seq<Seq<(int, int)>>, project: Option<Seq<char>>) -> int
    decreases buckets.len(),
{
    if buckets.len() == 0 {
        0
    } else {
        worked_by_bucket(buckets.drop_last(), project) + worked_nanos(
            session_events(buckets.last(), project),
            project,
        )
    }
}

/// For every run of clock-in/clock-out pairs of one project, the worked time of
/// that project is the sum of the pairs' lengths, and no clock-in is left
/// pending at the end.
pub proof fn lemma_worked_is_session_total(sessions: Seq<(int, int)>, project: Option<Seq<char>>)
    ensures
        worked_nanos(session_events(sessions, project), project) == session_total(sessions),
        tally(session_events(sessions, project), project).pending is None,
    decreases sessions.len(),
{
    if sessions.len() > 0 {
        lemma_worked_is_session_total(sessions.drop_last(), project);
        let before = session_events(sessions.drop_last(), project);
        let clock_in = EventView { at: sessions.last().0, kind: EventKind::ClockIn, project };
        let clock_out = EventView { at: sessions.last().1, kind: EventKind::ClockOut, project };
        let opened = before.push(clock_in);
        let closed = opened.push(clock_out);
        assert(opened.drop_last() == before);
        assert(closed.drop_last() == opened);
        assert(tally(opened, project) == tally_step(tally(before, project), clock_in, project));
        assert(tally(closed, project) == tally_step(tally(opened, project), clock_out, project));
    }
}

/// The total length of two runs of sessions, one after the other, is the sum of
/// their totals.
pub proof fn lemma_session_total_of_concat(a: Seq<(int, int)>, b: Seq<(int, int)>)
    ensures
        session_total(a + b) == session_total(a) + session_total(b),
    decreases b.len(),
{
    if b.len() == 0 {
        assert(a + b == a);
    } else {
        lemma_session_total_of_concat(a, b.drop_last());
        assert((a + b).drop_last() == a + b.drop_last());
        assert((a + b).last() == b.last());
    }
}

/// Worked time does not depend on where the day buckets are cut: however a run
/// of clock-in/clock-out pairs of one project is split into consecutive
/// buckets, the worked times of the buckets add up to the worked time of the
/// whole run, which is the sum of the pairs' lengths.
pub proof fn lemma_worked_ignores_bucket_boundaries(
    buckets: Seq<Seq<(int, int)>>,
    project: Option<Seq<char>>,
)
    ensures
        worked_by_bucket(buckets, project) == worked_nanos(
            session_events(joined(buckets), project),
            project,
        ),
        worked_by_bucket(buckets, project) == session_total(joined(buckets)),
    decreases buckets.len(),
{
    lemma_worked_is_session_total(joined(buckets), project);
    if buckets.len() > 0 {
        lemma_worked_ignores_bucket_boundaries(buckets.drop_last(), project);
        lemma_worked_is_session_total(buckets.last(), project);
        lemma_session_total_of_concat(joined(buckets.drop_last()), buckets.last());
    }
}

/// One more break marker adds exactly half an hour of break time, wherever it
/// stands and whatever its timestamp.
pub proof fn lemma_break_adds_half_hour(events: Seq<EventView>, position: int, marker: EventView)
    requires
        0 <= position <= events.len(),
        marker.kind is Break,
    ensures
        break_nanos(events.insert(position, marker)) == break_nanos(events) + break_marker_nanos(),
        break_marker_nanos() == BREAK_MINUTES * 60 * 1_000_000_000,
    decreases events.len(),
{
    let longer = events.insert(position, marker);
    if position == events.len() {
        assert(longer.drop_last() == events);
        assert(longer.last() == marker);
    } else {
        lemma_break_adds_half_hour(events.drop_last(), position, marker);
        assert(longer.drop_last() == events.drop_last().insert(position, marker));
        assert(longer.last() == events.last());
    }
}

} // verus!
