//! Read-only views of the ledger: the sessions of one project, a day's sessions
//! as a sequence of events, and the report that the `list` command shows.

use crate::aggregate::{tally, tally_step, worked_nanos};
use crate::event::{copy_project, event_views, label_view, same_project, ClockEvent, EventKind, EventView};
use crate::aggregate::worked_duration;
use crate::ledger::{
    break_views, copy_breaks, copy_entries, day_break_nanos, day_views, entry_views, BreakView,
    ClockIn, Day, DayView, EntryView, TimeTable,
};
use crate::time::{local_day, local_minute, magnitude_minutes, Date, Instant, Span, TimeOfDay, UtcOffset};
use vstd::prelude::*;

verus! {

/// The test "belongs to the project called `name`".
pub open spec fn of_project(name: Seq<char>) -> spec_fn(EntryView) -> bool {
    |e: EntryView| e.project == Some(name)
}

/// The test "holds at least one session".
pub open spec fn has_sessions() -> spec_fn(DayView) -> bool {
    |d: DayView| d.entry.len() > 0
}

/// A bucket as seen through a project filter: with a project named, only the
/// sessions of that project; with none named, all sessions. Breaks stay.
pub open spec fn day_filtered(day: DayView, project: Option<Seq<char>>) -> DayView {
    match project {
        Some(name) => DayView {
            date: day.date,
            entry: day.entry.filter(of_project(name)),
            breaks: day.breaks,
        },
        None => day,
    }
}

/// [`day_filtered`] as a function of the bucket.
pub open spec fn filtering(project: Option<Seq<char>>) -> spec_fn(DayView) -> DayView {
    |d: DayView| day_filtered(d, project)
}

/// The ledger as seen through a project filter: every bucket filtered, and
/// only the buckets in which a session is left.
pub open spec fn days_filtered(days: Seq<DayView>, project: Option<Seq<char>>) -> Seq<DayView> {
    days.map_values(filtering(project)).filter(has_sessions())
}

/// The events that a session stands for: its clock-in and, if it has ended,
/// its clock-out.
pub open spec fn entry_events(entry: EntryView) -> Seq<EventView> {
    let clock_in = EventView {
        at: entry.clock_in,
        kind: EventKind::ClockIn,
        project: entry.project,
    };
    match entry.clock_out {
        Some(at) => seq![clock_in, EventView { at, kind: EventKind::ClockOut, project: entry.project }],
        None => seq![clock_in],
    }
}

/// The events of a list of sessions, session by session.
pub open spec fn sessions_events(entries: Seq<EntryView>) -> Seq<EventView>
    decreases entries.len(),
{
    if entries.len() == 0 {
        Seq::empty()
    } else {
        sessions_events(entries.drop_last()) + entry_events(entries.last())
    }
}

/// The event that a break marker stands for.
pub open spec fn break_event(marker: BreakView) -> EventView {
    EventView { at: marker.at, kind: EventKind::Break, project: marker.project }
}

/// The events of a bucket: those of its sessions, then its break markers.
pub open spec fn day_events(day: DayView) -> Seq<EventView> {
    sessions_events(day.entry) + day.breaks.map_values(|b: BreakView| break_event(b))
}

/// The total length of the sessions of `project` among `entries` that have
/// ended.
pub open spec fn closed_total(entries: Seq<EntryView>, project: Option<Seq<char>>) -> int
    decreases entries.len(),
{
    if entries.len() == 0 {
        0
    } else {
        let last = entries.last();
        closed_total(entries.drop_last(), project) + match last.clock_out {
            Some(at) => if last.project == project {
                at - last.clock_in
            } else {
                0
            },
            None => 0,
        }
    }
}

/// Worked time over the events of a list of sessions is the total length of
/// the sessions of that project that have ended. A clock-in left pending at the
/// end is that of the last session, which is then open.
pub proof fn lemma_worked_of_sessions(entries: Seq<EntryView>, project: Option<Seq<char>>)
    ensures
        worked_nanos(sessions_events(entries), project) == closed_total(entries, project),
        tally(sessions_events(entries), project).pending is Some ==> entries.len() > 0
            && entries.last().clock_out is None,
    decreases entries.len(),
{
    if entries.len() > 0 {
        let rest = entries.drop_last();
        let last = entries.last();
        lemma_worked_of_sessions(rest, project);
        let before = sessions_events(rest);
        let clock_in = EventView {
            at: last.clock_in,
            kind: EventKind::ClockIn,
            project: last.project,
        };
        let opened = before.push(clock_in);
        assert(opened.drop_last() == before);
        assert(tally(opened, project) == tally_step(tally(before, project), clock_in, project));
        match last.clock_out {
            Some(at) => {
                let clock_out = EventView {
                    at,
                    kind: EventKind::ClockOut,
                    project: last.project,
                };
                let closed = opened.push(clock_out);
                assert(closed.drop_last() == opened);
                assert(tally(closed, project) == tally_step(
                    tally(opened, project),
                    clock_out,
                    project,
                ));
                assert(sessions_events(entries) == closed);
            },
            None => {
                assert(sessions_events(entries) == opened);
            },
        }
    }
}

/// Break markers at the end of a sequence of events change neither the worked
/// time nor what is pending.
pub proof fn lemma_breaks_do_not_count(
    events: Seq<EventView>,
    breaks: Seq<BreakView>,
    project: Option<Seq<char>>,
)
    ensures
        tally(events + breaks.map_values(|b: BreakView| break_event(b)), project) == tally(
            events,
            project,
        ),
    decreases breaks.len(),
{
    let markers = breaks.map_values(|b: BreakView| break_event(b));
    if breaks.len() == 0 {
        assert(events + markers == events);
    } else {
        let fewer = breaks.drop_last().map_values(|b: BreakView| break_event(b));
        lemma_breaks_do_not_count(events, breaks.drop_last(), project);
        assert((events + markers).drop_last() == events + fewer);
        assert((events + markers).last() == break_event(breaks.last()));
    }
}

/// The worked time that the events of a bucket give for `project` is the total
/// length of the bucket's sessions of that project that have ended.
pub proof fn lemma_worked_of_day(day: DayView, project: Option<Seq<char>>)
    ensures
        worked_nanos(day_events(day), project) == closed_total(day.entry, project),
{
    lemma_worked_of_sessions(day.entry, project);
    lemma_breaks_do_not_count(sessions_events(day.entry), day.breaks, project);
}

/// The sessions of the project called `project` among `entries`, copied, in
/// order.
fn entries_of_project(entries: &Vec<ClockIn>, project: &Option<String>) -> (kept: Vec<ClockIn>)
    requires
        project is Some,
    ensures
        entry_views(kept@) == entry_views(entries@).filter(of_project(project->0@)),
{
    let ghost views = entry_views(entries@);
    let ghost pred = of_project(project->0@);
    let mut kept: Vec<ClockIn> = Vec::new();
    let mut i: usize = 0;
    proof {
        assert(views.take(0).filter(pred) =~= Seq::<EntryView>::empty()) by {
            reveal(Seq::filter);
        }
        assert(entry_views(kept@) =~= Seq::<EntryView>::empty());
    }
    while i < entries.len()
        invariant
            i <= entries.len(),
            project is Some,
            views == entry_views(entries@),
            pred == of_project(project->0@),
            entry_views(kept@) == views.take(i as int).filter(pred),
        decreases entries.len() - i,
    {
        let entry: &ClockIn = &entries[i];
        proof {
            assert(views.take(i + 1) == views.take(i as int).push(views[i as int]));
            views.take(i as int).lemma_filter_push(views[i as int], pred);
            assert(views[i as int] == entry@);
            assert(pred(entry@) == (label_view(entry.project) == label_view(*project)));
        }
        if same_project(&entry.project, project) {
            let ghost before = entry_views(kept@);
            kept.push(entry.duplicate());
            assert(entry_views(kept@) =~= before.push(entry@));
        }
        i = i + 1;
    }
    assert(views.take(entries.len() as int) == views);
    kept
}

impl Day {
    /// The bucket's sessions and break markers as a sequence of events: for
    /// each session its clock-in and, if it has ended, its clock-out; then one
    /// event for each break marker.
    pub fn events(&self) -> (events: Vec<ClockEvent>)
        ensures
            event_views(events@) == day_events(self@),
    {
        let ghost entries = entry_views(self.entry@);
        let ghost breaks = break_views(self.breaks@);
        let ghost markers = breaks.map_values(|b: BreakView| break_event(b));
        let mut events: Vec<ClockEvent> = Vec::new();
        let mut i: usize = 0;
        assert(event_views(events@) =~= sessions_events(entries.take(0)));
        while i < self.entry.len()
            invariant
                i <= self.entry.len(),
                entries == entry_views(self.entry@),
                event_views(events@) == sessions_events(entries.take(i as int)),
            decreases self.entry.len() - i,
        {
            let entry: &ClockIn = &self.entry[i];
            let ghost before = event_views(events@);
            proof {
                assert(entries.take(i + 1).drop_last() == entries.take(i as int));
                assert(entries.take(i + 1).last() == entry@);
            }
            events.push(
                ClockEvent {
                    timestamp: entry.clock_in,
                    kind: EventKind::ClockIn,
                    project: copy_project(&entry.project),
                },
            );
            match entry.clock_out {
                Some(at) => {
                    events.push(
                        ClockEvent {
                            timestamp: at,
                            kind: EventKind::ClockOut,
                            project: copy_project(&entry.project),
                        },
                    );
                },
                None => {},
            }
            assert(event_views(events@) =~= before + entry_events(entry@));
            i = i + 1;
        }
        assert(entries.take(self.entry.len() as int) == entries);
        let mut j: usize = 0;
        assert(event_views(events@) =~= sessions_events(entries) + markers.take(0));
        while j < self.breaks.len()
            invariant
                j <= self.breaks.len(),
                breaks == break_views(self.breaks@),
                markers == breaks.map_values(|b: BreakView| break_event(b)),
                event_views(events@) == sessions_events(entries) + markers.take(j as int),
            decreases self.breaks.len() - j,
        {
            let marker = &self.breaks[j];
            let ghost before = event_views(events@);
            events.push(
                ClockEvent {
                    timestamp: marker.at,
                    kind: EventKind::Break,
                    project: copy_project(&marker.project),
                },
            );
            proof {
                assert(markers[j as int] == break_event(breaks[j as int]));
                assert(event_views(events@) =~= before.push(markers[j as int]));
                assert(sessions_events(entries) + markers.take(j + 1) =~= (sessions_events(entries)
                    + markers.take(j as int)).push(markers[j as int]));
            }
            j = j + 1;
        }
        assert(markers.take(self.breaks.len() as int) == markers);
        events
    }
}

impl TimeTable {
    /// The ledger as seen through a project filter, as copies that leave the
    /// ledger as it is. With a project named, every bucket keeps only the
    /// sessions of that project; with none named, all of them. Buckets in which
    /// no session is left are passed over.
    pub fn filter_by_project(&self, project: &Option<String>) -> (shown: Vec<Day>)
        ensures
            day_views(shown@) == days_filtered(self@, label_view(*project)),
    {
        let days: &Vec<Day> = self.days();
        let ghost all = day_views(days@);
        let ghost filter = label_view(*project);
        let ghost mapped = all.map_values(filtering(filter));
        let mut shown: Vec<Day> = Vec::new();
        let mut i: usize = 0;
        proof {
            assert(mapped.take(0).filter(has_sessions()) =~= Seq::<DayView>::empty()) by {
                reveal(Seq::filter);
            }
            assert(day_views(shown@) =~= Seq::<DayView>::empty());
        }
        while i < days.len()
            invariant
                i <= days.len(),
                all == day_views(days@),
                filter == label_view(*project),
                mapped == all.map_values(filtering(filter)),
                day_views(shown@) == mapped.take(i as int).filter(has_sessions()),
            decreases days.len() - i,
        {
            let day: &Day = &days[i];
            let kept: Vec<ClockIn> = match project {
                Some(_) => entries_of_project(&day.entry, project),
                None => copy_entries(&day.entry),
            };
            proof {
                assert(all[i as int] == day@);
                assert(mapped[i as int] == day_filtered(day@, filter));
                assert(entry_views(kept@) == mapped[i as int].entry);
                assert(mapped.take(i + 1) == mapped.take(i as int).push(mapped[i as int]));
                mapped.take(i as int).lemma_filter_push(mapped[i as int], has_sessions());
            }
            if kept.len() > 0 {
                let ghost before = day_views(shown@);
                let copy = Day { date: day.date, entry: kept, breaks: copy_breaks(&day.breaks) };
                assert(copy@ == mapped[i as int]);
                shown.push(copy);
                assert(day_views(shown@) =~= before.push(mapped[i as int]));
            }
            i = i + 1;
        }
        assert(mapped.take(days.len() as int) == mapped);
        shown
    }
}

/// How a session ended, or that it has not.
#[derive(Clone, Copy, Debug, PartialEq, Eq, Structural)]
pub enum SessionStatus {
    /// The session ended at this time of day.
    Closed(TimeOfDay),
    /// The session is open and began on the day of the report: it has been
    /// running for this many whole hours and minutes (0 to 59).
    Running { hours: u128, minutes: u32 },
    /// The session is open and began on another day. No length is guessed.
    Unclosed,
}

/// One line of a day's report: a session as the report shows it.
#[derive(Clone, Debug, PartialEq, Eq)]
pub struct SessionLine {
    /// Time of day of the clock-in.
    pub clock_in: TimeOfDay,
    pub status: SessionStatus,
    pub project: Option<String>,
}

/// The report of one day.
#[derive(Clone, Debug, PartialEq, Eq)]
pub struct DayReport {
    pub date: Date,
    /// Time worked on the project that the report was asked for.
    pub worked: Span,
    /// Break time: half an hour for every break marker of the day.
    pub breaks: Span,
    /// The day's sessions, in storage order.
    pub sessions: Vec<SessionLine>,
}

/// The mathematical content of a [`SessionStatus`]: times of day as minutes of
/// the day, a running time in whole minutes.
pub enum StatusView {
    Closed(int),
    Running(int),
    Unclosed,
}

/// The mathematical content of a [`SessionLine`].
pub struct LineView {
    pub clock_in: int,
    pub status: StatusView,
    pub project: Option<Seq<char>>,
}

/// The mathematical content of a [`DayReport`]; lengths of time are in
/// nanoseconds.
pub struct ReportView {
    pub date: int,
    pub worked: int,
    pub breaks: int,
    pub sessions: Seq<LineView>,
}

impl View for SessionStatus {
    type V = StatusView;

    open spec fn view(&self) -> StatusView {
        match *self {
            SessionStatus::Closed(time) => StatusView::Closed(time@),
            SessionStatus::Running { hours, minutes } => StatusView::Running(hours * 60 + minutes),
            SessionStatus::Unclosed => StatusView::Unclosed,
        }
    }
}

impl View for SessionLine {
    type V = LineView;

    open spec fn view(&self) -> LineView {
        LineView {
            clock_in: self.clock_in@,
            status: self.status@,
            project: label_view(self.project),
        }
    }
}

/// The contents of a list of report lines, element by element.
pub open spec fn line_views(lines: Seq<SessionLine>) -> Seq<LineView> {
    lines.map_values(|l: SessionLine| l@)
}

impl View for DayReport {
    type V = ReportView;

    open spec fn view(&self) -> ReportView {
        ReportView {
            date: self.date@,
            worked: self.worked@,
            breaks: self.breaks@,
            sessions: line_views(self.sessions@),
        }
    }
}

/// The contents of a list of reports, element by element.
pub open spec fn report_views(reports: Seq<DayReport>) -> Seq<ReportView> {
    reports.map_values(|r: DayReport| r@)
}

/// What the report says of a session's end. A session that has ended shows the
/// time of day of its clock-out. An open session shows for how long it has been
/// running at `now`, but only in the report of the day that is today at `now`;
/// in the report of any other day it shows as unclosed, without a length.
pub open spec fn status_of(entry: EntryView, today: bool, now: int, offset: int) -> StatusView {
    match entry.clock_out {
        Some(at) => StatusView::Closed(local_minute(at, offset)),
        None => if today {
            StatusView::Running(magnitude_minutes(now - entry.clock_in))
        } else {
            StatusView::Unclosed
        },
    }
}

/// The report line of a session.
pub open spec fn line_of(entry: EntryView, today: bool, now: int, offset: int) -> LineView {
    LineView {
        clock_in: local_minute(entry.clock_in, offset),
        status: status_of(entry, today, now, offset),
        project: entry.project,
    }
}

/// [`line_of`] as a function of the session.
pub open spec fn lining(today: bool, now: int, offset: int) -> spec_fn(EntryView) -> LineView {
    |e: EntryView| line_of(e, today, now, offset)
}

/// The report of a bucket at the instant `now`, on a clock `offset` seconds
/// ahead of UTC.
pub open spec fn report_of(day: DayView, project: Option<Seq<char>>, now: int, offset: int) -> ReportView {
    ReportView {
        date: day.date,
        worked: worked_nanos(day_events(day), project),
        breaks: day_break_nanos(day),
        sessions: day.entry.map_values(lining(day.date == local_day(now, offset), now, offset)),
    }
}

/// [`report_of`] as a function of the bucket.
pub open spec fn reporting(project: Option<Seq<char>>, now: int, offset: int) -> spec_fn(
    DayView,
) -> ReportView {
    |d: DayView| report_of(d, project, now, offset)
}

/// The last `limit` buckets of `days`, the last one first; all of them, the
/// last one first, if there are no more than `limit`.
pub open spec fn most_recent(days: Seq<DayView>, limit: int) -> Seq<DayView> {
    let shown = if limit < days.len() {
        limit
    } else {
        days.len() as int
    };
    Seq::new(shown as nat, |k: int| days[days.len() - 1 - k])
}

/// What the `list` command shows: the reports of the most recent `limit`
/// buckets that hold a session of the project asked for, the most recent first.
pub open spec fn listing(
    days: Seq<DayView>,
    limit: int,
    project: Option<Seq<char>>,
    now: int,
    offset: int,
) -> Seq<ReportView> {
    most_recent(days_filtered(days, project), limit).map_values(reporting(project, now, offset))
}

/// Listing twice, with no change to the ledger in between, shows the same
/// twice: a listing is determined by the ledger, the limit, the project, the
/// instant and the clock's offset.
pub proof fn lemma_listing_is_repeatable(
    days: Seq<DayView>,
    limit: int,
    project: Option<Seq<char>>,
    now: int,
    offset: int,
    first: Seq<ReportView>,
    second: Seq<ReportView>,
)
    requires
        first == listing(days, limit, project, now, offset),
        second == listing(days, limit, project, now, offset),
    ensures
        first == second,
{
}

/// The report line of one session.
fn session_line(entry: &ClockIn, today: bool, now: Instant, zone: UtcOffset) -> (line: SessionLine)
    ensures
        line@ == line_of(entry@, today, now@, zone@),
{
    let status: SessionStatus = match entry.clock_out {
        Some(at) => SessionStatus::Closed(at.local_time(zone)),
        None => {
            if today {
                let running: (u128, u32) = now.since(&entry.clock_in).hours_minutes();
                SessionStatus::Running { hours: running.0, minutes: running.1 }
            } else {
                SessionStatus::Unclosed
            }
        },
    };
    SessionLine {
        clock_in: entry.clock_in.local_time(zone),
        status,
        project: copy_project(&entry.project),
    }
}

/// The report of one bucket.
fn day_report(day: &Day, project: &Option<String>, now: Instant, zone: UtcOffset) -> (report:
    DayReport)
    ensures
        report@ == report_of(day@, label_view(*project), now@, zone@),
{
    let today: bool = day.date.same_day(&now.local_date(zone));
    let ghost entries = entry_views(day.entry@);
    let ghost f = lining(today, now@, zone@);
    let mut sessions: Vec<SessionLine> = Vec::new();
    let mut i: usize = 0;
    assert(line_views(sessions@) =~= entries.take(0).map_values(f));
    while i < day.entry.len()
        invariant
            i <= day.entry.len(),
            entries == entry_views(day.entry@),
            f == lining(today, now@, zone@),
            line_views(sessions@) == entries.take(i as int).map_values(f),
        decreases day.entry.len() - i,
    {
        let ghost before = line_views(sessions@);
        let line: SessionLine = session_line(&day.entry[i], today, now, zone);
        sessions.push(line);
        proof {
            assert(entries[i as int] == day.entry@[i as int]@);
            assert(line_views(sessions@) =~= before.push(f(entries[i as int])));
            assert(entries.take(i + 1).map_values(f) =~= entries.take(i as int).map_values(f).push(
                f(entries[i as int]),
            ));
        }
        i = i + 1;
    }
    assert(entries.take(day.entry.len() as int) == entries);
    let events: Vec<ClockEvent> = day.events();
    let worked: Span = worked_duration(&events, project);
    let breaks: Span = Span::from_seconds(day.breaks.len() as i128 * 1_800);
    DayReport { date: day.date, worked, breaks, sessions }
}

impl TimeTable {
    /// The report that the `list` command shows at the instant `now`, on a
    /// clock in `zone`: one report for each of the `limit` most recent buckets
    /// that hold a session of `project`, the most recent first. With no project
    /// named, every bucket that holds a session counts, and all sessions are
    /// shown. The ledger is left as it is.
    ///
    /// A report's worked time is that of the sessions that carry exactly the
    /// label `project` and have ended.
    pub fn list(&self, limit: usize, project: &Option<String>, now: Instant, zone: UtcOffset) -> (reports:
        Vec<DayReport>)
        ensures
            report_views(reports@) == listing(
                self@,
                limit as int,
                label_view(*project),
                now@,
                zone@,
            ),
    {
        let shown: Vec<Day> = self.filter_by_project(project);
        let ghost days = day_views(shown@);
        let ghost recent = most_recent(days, limit as int);
        let ghost f = reporting(label_view(*project), now@, zone@);
        let count: usize = if limit < shown.len() {
            limit
        } else {
            shown.len()
        };
        let mut reports: Vec<DayReport> = Vec::new();
        let mut k: usize = 0;
        assert(report_views(reports@) =~= recent.take(0).map_values(f));
        while k < count
            invariant
                k <= count,
                count <= shown.len(),
                count == recent.len(),
                days == day_views(shown@),
                recent == most_recent(days, limit as int),
                f == reporting(label_view(*project), now@, zone@),
                report_views(reports@) == recent.take(k as int).map_values(f),
            decreases count - k,
        {
            let ghost before = report_views(reports@);
            let day: &Day = &shown[shown.len() - 1 - k];
            let report: DayReport = day_report(day, project, now, zone);
            reports.push(report);
            proof {
                assert(recent[k as int] == days[days.len() - 1 - k]);
                assert(days[days.len() - 1 - k] == day@);
                assert(report_views(reports@) =~= before.push(f(recent[k as int])));
                assert(recent.take(k + 1).map_values(f) =~= recent.take(k as int).map_values(f).push(
                    f(recent[k as int]),
                ));
            }
            k = k + 1;
        }
        assert(recent.take(count as int) == recent);
        reports
    }
}

} // verus!
