use clock::clock_text::ClockTextError;
use clock::event::{ClockEvent, EventKind};
use clock::grouping::{chronological_order, group_events_by_day};
use clock::ledger::TimeTable;
use clock::listing::SessionStatus;
use clock::resolve::{check_clock_out, clock_out_instant, validate_clock_out, ResolveError};
use clock::time::{Date, Instant, Span, TimeOfDay, UtcOffset};

const MAY_FIRST: i64 = 19_844;

fn at(day: i64, hour: i64, minute: i64) -> Instant {
    Instant::new(day * 86_400 + hour * 3_600 + minute * 60, 0).unwrap()
}

fn time(hour: u32, minute: u32) -> TimeOfDay {
    TimeOfDay::new(hour, minute).unwrap()
}

fn label(name: &str) -> Option<String> {
    Some(name.to_string())
}

fn utc() -> UtcOffset {
    UtcOffset::utc()
}

fn event(kind: EventKind, when: Instant, project: Option<String>) -> ClockEvent {
    ClockEvent { timestamp: when, kind, project }
}

fn sample() -> TimeTable {
    let mut table = TimeTable::new();
    table.open(label("demo"), at(MAY_FIRST, 9, 0), utc());
    table.close(&label("demo"), at(MAY_FIRST, 12, 30), utc()).unwrap();
    table.open(None, at(MAY_FIRST, 13, 0), utc());
    table.close(&None, at(MAY_FIRST, 14, 0), utc()).unwrap();
    table.record_break(None, at(MAY_FIRST, 13, 30), utc()).unwrap();
    table.open(None, at(MAY_FIRST + 1, 8, 0), utc());
    table.open(label("demo"), at(MAY_FIRST + 2, 9, 0), utc());
    table
}

#[test]
fn filter_keeps_the_sessions_of_the_project() {
    let table = sample();
    let all = table.filter_by_project(&None);
    assert_eq!(&all, table.days());
    let demo = table.filter_by_project(&label("demo"));
    assert_eq!(demo.len(), 2);
    assert_eq!(demo[0].date, Date::from_days(MAY_FIRST));
    assert_eq!(demo[0].entry.len(), 1);
    assert_eq!(demo[0].entry[0].project, label("demo"));
    assert_eq!(demo[0].breaks.len(), 1);
    assert_eq!(demo[1].date, Date::from_days(MAY_FIRST + 2));
    assert!(table.filter_by_project(&label("other")).is_empty());
    assert_eq!(table.days().len(), 3);
}

#[test]
fn a_day_shows_its_sessions_as_events() {
    let table = sample();
    let events = table.days()[0].events();
    assert_eq!(
        events,
        vec![
            event(EventKind::ClockIn, at(MAY_FIRST, 9, 0), label("demo")),
            event(EventKind::ClockOut, at(MAY_FIRST, 12, 30), label("demo")),
            event(EventKind::ClockIn, at(MAY_FIRST, 13, 0), None),
            event(EventKind::ClockOut, at(MAY_FIRST, 14, 0), None),
            event(EventKind::Break, at(MAY_FIRST, 13, 30), None),
        ]
    );
    assert_eq!(
        table.days()[1].events(),
        vec![event(EventKind::ClockIn, at(MAY_FIRST + 1, 8, 0), None)]
    );
}

#[test]
fn list_shows_the_most_recent_days_first() {
    let table = sample();
    let now = at(MAY_FIRST + 2, 10, 15);
    let reports = table.list(5, &None, now, utc());
    assert_eq!(reports.len(), 3);
    assert_eq!(reports[0].date, Date::from_days(MAY_FIRST + 2));
    assert_eq!(reports[1].date, Date::from_days(MAY_FIRST + 1));
    assert_eq!(reports[2].date, Date::from_days(MAY_FIRST));
    let two = table.list(2, &None, now, utc());
    assert_eq!(two.len(), 2);
    assert_eq!(two[0], reports[0]);
    assert_eq!(two[1], reports[1]);
    assert!(table.list(0, &None, now, utc()).is_empty());
    assert!(TimeTable::new().list(5, &None, now, utc()).is_empty());
}

#[test]
fn list_reports_worked_and_break_time() {
    let table = sample();
    let now = at(MAY_FIRST + 2, 10, 15);
    let reports = table.list(5, &None, now, utc());
    let first_day = &reports[2];
    // without a project, worked time is that of the sessions without project
    assert_eq!(first_day.worked, Span::from_seconds(3_600));
    assert_eq!(first_day.breaks.whole_minutes(), 30);
    assert_eq!(first_day.sessions.len(), 2);
    assert_eq!(first_day.sessions[0].clock_in, time(9, 0));
    assert_eq!(first_day.sessions[0].status, SessionStatus::Closed(time(12, 30)));
    assert_eq!(first_day.sessions[0].project, label("demo"));
    assert_eq!(first_day.sessions[1].status, SessionStatus::Closed(time(14, 0)));

    let demo = table.list(5, &label("demo"), now, utc());
    assert_eq!(demo.len(), 2);
    assert_eq!(demo[1].date, Date::from_days(MAY_FIRST));
    assert_eq!(demo[1].worked.hours_minutes(), (3, 30));
    assert_eq!(demo[1].sessions.len(), 1);
    assert_eq!(demo[0].worked, Span::zero());
}

#[test]
fn an_open_session_shows_its_running_time_only_today() {
    let mut table = TimeTable::new();
    table.open(None, at(MAY_FIRST, 9, 0), utc());
    let same_day = table.list(5, &None, at(MAY_FIRST, 11, 47), utc());
    assert_eq!(same_day[0].sessions[0].clock_in, time(9, 0));
    assert_eq!(same_day[0].sessions[0].status, SessionStatus::Running { hours: 2, minutes: 47 });
    let later = table.list(5, &None, at(MAY_FIRST + 1, 0, 0), utc());
    assert_eq!(later[0].sessions[0].status, SessionStatus::Unclosed);
    // "today" is a matter of the clock's zone
    let east = UtcOffset::new(3_600).unwrap();
    let over_midnight = table.list(5, &None, at(MAY_FIRST, 23, 30), east);
    assert_eq!(over_midnight[0].sessions[0].status, SessionStatus::Unclosed);
    assert_eq!(over_midnight[0].sessions[0].clock_in, time(10, 0));
}

#[test]
fn listing_twice_shows_the_same() {
    let table = sample();
    let before = table.days().clone();
    let now = at(MAY_FIRST + 2, 10, 15);
    let first = table.list(5, &label("demo"), now, utc());
    let second = table.list(5, &label("demo"), now, utc());
    assert_eq!(first, second);
    assert_eq!(table.days(), &before);
}

#[test]
fn a_clock_out_must_be_later_in_the_day_than_the_clock_in() {
    let clock_in = at(MAY_FIRST, 9, 0);
    assert_eq!(validate_clock_out("07", &clock_in, utc()), Err(ResolveError::NotAfterClockIn));
    assert_eq!(validate_clock_out("09:00", &clock_in, utc()), Err(ResolveError::NotAfterClockIn));
    assert_eq!(validate_clock_out("17", &clock_in, utc()), Ok(time(17, 0)));
    assert_eq!(validate_clock_out("09:01", &clock_in, utc()), Ok(time(9, 1)));
    assert_eq!(
        validate_clock_out("soon", &clock_in, utc()),
        Err(ResolveError::Unreadable(ClockTextError::Malformed))
    );
    assert_eq!(
        validate_clock_out("25", &clock_in, utc()),
        Err(ResolveError::Unreadable(ClockTextError::HourOutOfRange))
    );
    assert_eq!(ResolveError::NotAfterClockIn.reason(), "clock out has to be after clock in");
    assert_eq!(
        ResolveError::Unreadable(ClockTextError::HourOutOfRange).reason(),
        "hours have to be within 0 and 23"
    );
    assert_eq!(check_clock_out(Ok(time(9, 0)), time(9, 0)), Err(ResolveError::NotAfterClockIn));
    assert_eq!(check_clock_out(Ok(time(9, 1)), time(9, 0)), Ok(time(9, 1)));
}

#[test]
fn the_comparison_is_made_on_the_local_clock() {
    // 07:00 UTC is 09:00 two hours east
    let clock_in = at(MAY_FIRST, 7, 0);
    let east = UtcOffset::new(7_200).unwrap();
    assert_eq!(validate_clock_out("08", &clock_in, east), Err(ResolveError::NotAfterClockIn));
    assert_eq!(validate_clock_out("08", &clock_in, utc()), Ok(time(8, 0)));
    assert_eq!(
        clock_out_instant(Ok(time(17, 0)), &clock_in, east),
        Ok(at(MAY_FIRST, 15, 0))
    );
}

#[test]
fn resolving_stores_the_local_time_as_utc() {
    let east = UtcOffset::new(7_200).unwrap();
    let mut table = TimeTable::new();
    // clocked in at 09:00 local
    table.open(label("demo"), at(MAY_FIRST, 7, 0), east);
    assert_eq!(table.open_entries(), vec![(0, 0)]);
    let before = table.days().clone();
    assert_eq!(table.resolve_entry(0, 0, "07", east), Err(ResolveError::NotAfterClockIn));
    assert_eq!(table.days(), &before);
    assert_eq!(table.resolve_entry(0, 0, "17", east), Ok(()));
    assert_eq!(table.days()[0].entry[0].clock_out, Some(at(MAY_FIRST, 15, 0)));
    assert_eq!(table.days()[0].entry[0].clock_in, at(MAY_FIRST, 7, 0));
    assert!(table.open_entries().is_empty());
    assert_eq!(table.resolve_entry(0, 0, "18", east), Err(ResolveError::NotOpen));
}

#[test]
fn resolving_drops_the_seconds_of_the_clock_in() {
    let mut table = TimeTable::new();
    let clock_in = Instant::new(MAY_FIRST * 86_400 + 9 * 3_600 + 42, 500).unwrap();
    table.open(None, clock_in, utc());
    assert_eq!(table.resolve_entry(0, 0, "09:00", utc()), Err(ResolveError::NotAfterClockIn));
    assert_eq!(table.resolve_entry(0, 0, "09:01", utc()), Ok(()));
    assert_eq!(table.days()[0].entry[0].clock_out, Some(at(MAY_FIRST, 9, 1)));
}

#[test]
fn open_entries_come_in_storage_order() {
    let mut table = sample();
    assert_eq!(table.open_entries(), vec![(1, 0), (2, 0)]);
    table.open(label("demo"), at(MAY_FIRST, 15, 0), utc());
    assert_eq!(table.open_entries(), vec![(0, 2), (1, 0), (2, 0)]);
    assert!(TimeTable::new().open_entries().is_empty());
}

#[test]
fn resolving_refuses_positions_that_name_no_open_session() {
    let mut table = sample();
    let before = table.days().clone();
    assert_eq!(table.resolve_entry(0, 0, "17", utc()), Err(ResolveError::NotOpen));
    assert_eq!(table.resolve_entry(0, 9, "17", utc()), Err(ResolveError::NotOpen));
    assert_eq!(table.resolve_entry(9, 0, "17", utc()), Err(ResolveError::NotOpen));
    assert_eq!(
        table.resolve_entry(1, 0, "later", utc()),
        Err(ResolveError::Unreadable(ClockTextError::Malformed))
    );
    assert_eq!(table.days(), &before);
    assert_eq!(table.resolve_entry_with(1, 0, Ok(time(8, 30)), utc()), Ok(()));
    assert_eq!(table.days()[1].entry[0].clock_out, Some(at(MAY_FIRST + 1, 8, 30)));
}

#[test]
fn a_clock_out_past_the_calendar_is_refused() {
    // the last day of the calendar, seen from a zone west of Greenwich
    let west = UtcOffset::new(-3_600).unwrap();
    let clock_in = Instant::new(253_402_300_799 - 3_600, 0).unwrap();
    assert_eq!(clock_in.local_time(west), time(21, 59));
    assert_eq!(
        clock_out_instant(Ok(time(23, 30)), &clock_in, west),
        Err(ResolveError::OutOfRange)
    );
    assert!(clock_out_instant(Ok(time(22, 30)), &clock_in, west).is_ok());
}

#[test]
fn chronological_order_is_stable() {
    let events = vec![
        event(EventKind::ClockOut, at(MAY_FIRST, 12, 0), label("b")),
        event(EventKind::ClockIn, at(MAY_FIRST, 9, 0), label("a")),
        event(EventKind::Break, at(MAY_FIRST, 12, 0), label("c")),
        event(EventKind::ClockIn, at(MAY_FIRST, 9, 0), label("d")),
        event(EventKind::ClockIn, at(MAY_FIRST - 1, 9, 0), None),
    ];
    let sorted = chronological_order(&events);
    assert_eq!(
        sorted,
        vec![events[4].clone(), events[1].clone(), events[3].clone(), events[0].clone(), events[2].clone()]
    );
    assert!(chronological_order(&Vec::new()).is_empty());
}

#[test]
fn events_are_grouped_by_their_own_day() {
    let events = vec![
        event(EventKind::ClockIn, at(MAY_FIRST + 1, 9, 0), None),
        event(EventKind::ClockOut, at(MAY_FIRST, 23, 30), None),
        event(EventKind::ClockIn, at(MAY_FIRST, 22, 0), None),
        event(EventKind::Break, at(MAY_FIRST + 3, 0, 0), None),
    ];
    let groups = group_events_by_day(&events, utc());
    assert_eq!(groups.len(), 3);
    assert_eq!(groups[0].date, Date::from_days(MAY_FIRST));
    assert_eq!(groups[0].events, vec![events[2].clone(), events[1].clone()]);
    assert_eq!(groups[1].date, Date::from_days(MAY_FIRST + 1));
    assert_eq!(groups[1].events, vec![events[0].clone()]);
    assert_eq!(groups[2].date, Date::from_days(MAY_FIRST + 3));
    // an hour east, 23:30 is already the next day
    let east = UtcOffset::new(3_600).unwrap();
    let groups = group_events_by_day(&events, east);
    assert_eq!(groups.len(), 3);
    assert_eq!(groups[0].events, vec![events[2].clone()]);
    assert_eq!(groups[1].date, Date::from_days(MAY_FIRST + 1));
    assert_eq!(groups[1].events, vec![events[1].clone(), events[0].clone()]);
    assert!(group_events_by_day(&Vec::new(), utc()).is_empty());
}

#[test]
fn the_ledger_groups_by_day_whatever_the_buckets() {
    let east = UtcOffset::new(2 * 3_600).unwrap();
    let mut table = TimeTable::new();
    // bucketed on a clock two hours east: 23:00 UTC is the next day there
    table.open(None, at(MAY_FIRST, 23, 0), east);
    table.open(label("demo"), at(MAY_FIRST, 9, 0), east);
    table.close(&label("demo"), at(MAY_FIRST, 10, 0), east).unwrap();
    assert_eq!(table.days()[0].date, Date::from_days(MAY_FIRST + 1));
    assert_eq!(table.events().len(), 3);
    let groups = table.group_by_day(utc());
    assert_eq!(groups.len(), 1);
    assert_eq!(groups[0].date, Date::from_days(MAY_FIRST));
    assert_eq!(
        groups[0].events,
        vec![
            event(EventKind::ClockIn, at(MAY_FIRST, 9, 0), label("demo")),
            event(EventKind::ClockOut, at(MAY_FIRST, 10, 0), label("demo")),
            event(EventKind::ClockIn, at(MAY_FIRST, 23, 0), None),
        ]
    );
    let groups = table.group_by_day(east);
    assert_eq!(groups.len(), 2);
    assert_eq!(groups[1].date, Date::from_days(MAY_FIRST + 1));
    assert!(TimeTable::new().group_by_day(utc()).is_empty());
}
