use clock::aggregate::{break_duration, worked_duration};
use clock::event::{same_project, ClockEvent, EventKind};
use clock::ledger::{Break, ClockIn, Day, LedgerError, TimeTable};
use clock::time::{Date, Instant, Span, UtcOffset};

const MAY_FIRST: i64 = 19_844;

fn at(day: i64, hour: i64, minute: i64) -> Instant {
    Instant::new(day * 86_400 + hour * 3_600 + minute * 60, 0).unwrap()
}

fn label(name: &str) -> Option<String> {
    Some(name.to_string())
}

fn event(kind: EventKind, when: Instant, project: Option<String>) -> ClockEvent {
    ClockEvent { timestamp: when, kind, project }
}

fn utc() -> UtcOffset {
    UtcOffset::utc()
}

#[test]
fn no_project_matches_only_no_project() {
    assert!(same_project(&None, &None));
    assert!(same_project(&label("demo"), &label("demo")));
    assert!(!same_project(&label("demo"), &None));
    assert!(!same_project(&None, &label("demo")));
    assert!(!same_project(&label("demo"), &label("other")));
    assert!(!same_project(&label(""), &None));
}

#[test]
fn worked_time_is_the_sum_of_the_pairs() {
    let events = vec![
        event(EventKind::ClockIn, at(MAY_FIRST, 9, 0), label("demo")),
        event(EventKind::ClockOut, at(MAY_FIRST, 12, 30), label("demo")),
        event(EventKind::ClockIn, at(MAY_FIRST, 13, 15), label("demo")),
        event(EventKind::ClockOut, at(MAY_FIRST, 17, 0), label("demo")),
    ];
    let worked = worked_duration(&events, &label("demo"));
    assert_eq!(worked, Span::from_seconds(3 * 3_600 + 30 * 60 + 3 * 3_600 + 45 * 60));
    assert_eq!(worked.hours_minutes(), (7, 15));
}

#[test]
fn worked_time_does_not_depend_on_where_the_days_are_cut() {
    let pairs = vec![
        (at(MAY_FIRST, 9, 0), at(MAY_FIRST, 12, 0)),
        (at(MAY_FIRST, 22, 0), at(MAY_FIRST, 23, 30)),
        (at(MAY_FIRST + 1, 8, 0), at(MAY_FIRST + 1, 8, 45)),
    ];
    let mut whole: Vec<ClockEvent> = Vec::new();
    for (start, end) in &pairs {
        whole.push(event(EventKind::ClockIn, *start, label("demo")));
        whole.push(event(EventKind::ClockOut, *end, label("demo")));
    }
    let total = worked_duration(&whole, &label("demo"));
    assert_eq!(total, Span::from_seconds(3 * 3_600 + 90 * 60 + 45 * 60));
    for cut in 0..=pairs.len() {
        let first: Vec<ClockEvent> = whole[..2 * cut].to_vec();
        let second: Vec<ClockEvent> = whole[2 * cut..].to_vec();
        let a = worked_duration(&first, &label("demo"));
        let b = worked_duration(&second, &label("demo"));
        assert_eq!(a.seconds() + b.seconds(), total.seconds());
    }
}

#[test]
fn worked_time_counts_only_the_project_asked_for() {
    let events = vec![
        event(EventKind::ClockIn, at(MAY_FIRST, 9, 0), label("demo")),
        event(EventKind::ClockOut, at(MAY_FIRST, 10, 0), label("demo")),
        event(EventKind::ClockIn, at(MAY_FIRST, 10, 0), None),
        event(EventKind::ClockOut, at(MAY_FIRST, 10, 20), None),
    ];
    assert_eq!(worked_duration(&events, &label("demo")), Span::from_seconds(3_600));
    assert_eq!(worked_duration(&events, &None), Span::from_seconds(1_200));
    assert_eq!(worked_duration(&events, &label("other")), Span::zero());
}

#[test]
fn a_clock_out_without_clock_in_adds_nothing() {
    let events = vec![
        event(EventKind::ClockOut, at(MAY_FIRST, 8, 0), None),
        event(EventKind::ClockIn, at(MAY_FIRST, 9, 0), None),
        event(EventKind::Break, at(MAY_FIRST, 9, 30), None),
        event(EventKind::ClockOut, at(MAY_FIRST, 10, 0), None),
        event(EventKind::ClockOut, at(MAY_FIRST, 11, 0), None),
        event(EventKind::ClockIn, at(MAY_FIRST, 12, 0), None),
    ];
    assert_eq!(worked_duration(&events, &None), Span::from_seconds(3_600));
    assert_eq!(worked_duration(&Vec::new(), &None), Span::zero());
}

#[test]
fn a_later_clock_in_displaces_the_pending_one() {
    let events = vec![
        event(EventKind::ClockIn, at(MAY_FIRST, 9, 0), None),
        event(EventKind::ClockIn, at(MAY_FIRST, 10, 0), None),
        event(EventKind::ClockOut, at(MAY_FIRST, 10, 30), None),
    ];
    assert_eq!(worked_duration(&events, &None), Span::from_seconds(1_800));
}

#[test]
fn every_break_counts_thirty_minutes() {
    let mut events = vec![
        event(EventKind::ClockIn, at(MAY_FIRST, 9, 0), None),
        event(EventKind::Break, at(MAY_FIRST, 9, 30), None),
        event(EventKind::ClockOut, at(MAY_FIRST, 10, 0), None),
    ];
    assert_eq!(break_duration(&events), Span::from_seconds(1_800));
    assert_eq!(break_duration(&events).whole_minutes(), 30);
    events.push(event(EventKind::Break, at(MAY_FIRST, 9, 31), label("demo")));
    assert_eq!(break_duration(&events).whole_minutes(), 60);
    assert_eq!(break_duration(&Vec::new()), Span::zero());
}

#[test]
fn opening_creates_the_bucket_and_then_appends_to_it() {
    let mut table = TimeTable::new();
    assert!(table.days().is_empty());
    table.open(label("demo"), at(MAY_FIRST, 9, 0), utc());
    table.open(None, at(MAY_FIRST, 9, 5), utc());
    table.open(label("demo"), at(MAY_FIRST + 1, 8, 0), utc());
    let days = table.days();
    assert_eq!(days.len(), 2);
    assert_eq!(days[0].date, Date::from_days(MAY_FIRST));
    assert_eq!(days[0].entry.len(), 2);
    assert_eq!(
        days[0].entry[0],
        ClockIn { clock_in: at(MAY_FIRST, 9, 0), clock_out: None, project: label("demo") }
    );
    assert_eq!(days[0].entry[1].project, None);
    assert!(days[0].breaks.is_empty());
    assert_eq!(days[1].date, Date::from_days(MAY_FIRST + 1));
    assert_eq!(days[1].entry.len(), 1);
}

#[test]
fn the_bucket_is_that_of_the_local_day() {
    let mut table = TimeTable::new();
    let east = UtcOffset::new(2 * 3_600).unwrap();
    table.open(None, at(MAY_FIRST, 23, 0), east);
    assert_eq!(table.days()[0].date, Date::from_days(MAY_FIRST + 1));
    assert!(table.get_day(Date::from_days(MAY_FIRST)).is_none());
    assert!(table.get_day(Date::from_days(MAY_FIRST + 1)).is_some());
}

#[test]
fn clocking_in_twice_is_refused() {
    let mut table = TimeTable::new();
    assert_eq!(table.clock_in(label("demo"), at(MAY_FIRST, 9, 0), utc()), Ok(()));
    let before = table.days().clone();
    assert_eq!(
        table.clock_in(label("demo"), at(MAY_FIRST, 9, 30), utc()),
        Err(LedgerError::AlreadyOpen)
    );
    assert_eq!(table.days(), &before);
    assert_eq!(table.clock_in(None, at(MAY_FIRST, 9, 30), utc()), Ok(()));
    assert_eq!(table.clock_in(label("demo"), at(MAY_FIRST + 1, 9, 0), utc()), Ok(()));
    assert_eq!(table.close(&label("demo"), at(MAY_FIRST, 12, 0), utc()), Ok(()));
    assert_eq!(table.clock_in(label("demo"), at(MAY_FIRST, 13, 0), utc()), Ok(()));
    assert_eq!(table.days()[0].entry.len(), 3);
}

#[test]
fn clocking_out_closes_the_open_session() {
    let mut table = TimeTable::new();
    table.open(label("demo"), at(MAY_FIRST, 9, 0), utc());
    table.open(None, at(MAY_FIRST, 9, 5), utc());
    assert_eq!(table.close(&label("demo"), at(MAY_FIRST, 17, 0), utc()), Ok(()));
    let days = table.days();
    assert_eq!(days[0].entry[0].clock_out, Some(at(MAY_FIRST, 17, 0)));
    assert_eq!(days[0].entry[1].clock_out, None);
    assert!(table.get_day_entry(&label("demo"), Date::from_days(MAY_FIRST)).is_none());
    assert!(table.get_day_entry(&None, Date::from_days(MAY_FIRST)).is_some());
}

#[test]
fn clocking_out_without_clocking_in_fails_and_changes_nothing() {
    let mut table = TimeTable::new();
    assert_eq!(
        table.close(&label("demo"), at(MAY_FIRST, 17, 0), utc()),
        Err(LedgerError::NoOpenEntry)
    );
    assert!(table.days().is_empty());
    table.open(None, at(MAY_FIRST, 9, 0), utc());
    table.open(label("demo"), at(MAY_FIRST - 1, 9, 0), utc());
    let before = table.days().clone();
    assert_eq!(
        table.close(&label("demo"), at(MAY_FIRST, 17, 0), utc()),
        Err(LedgerError::NoOpenEntry)
    );
    assert_eq!(table.days(), &before);
}

#[test]
fn clocking_out_at_or_before_the_clock_in_is_refused() {
    let mut table = TimeTable::new();
    table.open(None, at(MAY_FIRST, 9, 0), utc());
    let before = table.days().clone();
    assert_eq!(
        table.close(&None, at(MAY_FIRST, 9, 0), utc()),
        Err(LedgerError::ClockOutNotAfterClockIn)
    );
    assert_eq!(
        table.close(&None, at(MAY_FIRST, 8, 0), utc()),
        Err(LedgerError::ClockOutNotAfterClockIn)
    );
    assert_eq!(table.days(), &before);
}

#[test]
fn a_break_adds_thirty_minutes_to_the_day() {
    let mut table = TimeTable::new();
    table.open(label("demo"), at(MAY_FIRST, 9, 0), utc());
    let report = table.list(5, &None, at(MAY_FIRST, 10, 0), utc());
    assert_eq!(report[0].breaks.whole_minutes(), 0);
    assert_eq!(table.record_break(label("demo"), at(MAY_FIRST, 10, 0), utc()), Ok(()));
    let report = table.list(5, &None, at(MAY_FIRST, 10, 0), utc());
    assert_eq!(report[0].breaks.whole_minutes(), 30);
    assert_eq!(table.record_break(label("demo"), at(MAY_FIRST, 10, 1), utc()), Ok(()));
    let report = table.list(5, &None, at(MAY_FIRST, 23, 0), utc());
    assert_eq!(report[0].breaks.whole_minutes(), 60);
    assert_eq!(
        table.days()[0].breaks,
        vec![
            Break { at: at(MAY_FIRST, 10, 0), project: label("demo") },
            Break { at: at(MAY_FIRST, 10, 1), project: label("demo") },
        ]
    );
}

#[test]
fn a_break_needs_a_session_of_the_project_on_that_day() {
    let mut table = TimeTable::new();
    assert_eq!(
        table.record_break(None, at(MAY_FIRST, 10, 0), utc()),
        Err(LedgerError::NoMatchingDay)
    );
    table.open(label("demo"), at(MAY_FIRST, 9, 0), utc());
    let before = table.days().clone();
    assert_eq!(
        table.record_break(None, at(MAY_FIRST, 10, 0), utc()),
        Err(LedgerError::NoMatchingDay)
    );
    assert_eq!(
        table.record_break(label("demo"), at(MAY_FIRST + 1, 10, 0), utc()),
        Err(LedgerError::NoMatchingDay)
    );
    assert_eq!(table.days(), &before);
    assert_eq!(table.close(&label("demo"), at(MAY_FIRST, 12, 0), utc()), Ok(()));
    assert_eq!(table.record_break(label("demo"), at(MAY_FIRST, 12, 30), utc()), Ok(()));
}

#[test]
fn get_day_finds_the_bucket_of_a_date() {
    let mut table = TimeTable::new();
    table.open(None, at(MAY_FIRST, 9, 0), utc());
    table.open(label("demo"), at(MAY_FIRST + 2, 9, 0), utc());
    let day = table.get_day(Date::from_days(MAY_FIRST + 2)).unwrap();
    assert_eq!(day.date, Date::from_days(MAY_FIRST + 2));
    assert_eq!(day.entry[0].project, label("demo"));
    assert!(table.get_day(Date::from_days(MAY_FIRST + 1)).is_none());
}

#[test]
fn get_day_entry_finds_only_open_sessions_of_the_project() {
    let mut table = TimeTable::new();
    table.open(label("demo"), at(MAY_FIRST, 9, 0), utc());
    assert_eq!(table.close(&label("demo"), at(MAY_FIRST, 10, 0), utc()), Ok(()));
    table.open(label("demo"), at(MAY_FIRST, 11, 0), utc());
    let found = table.get_day_entry(&label("demo"), Date::from_days(MAY_FIRST)).unwrap();
    assert_eq!(found.clock_in, at(MAY_FIRST, 11, 0));
    assert!(found.is_open());
    assert!(table.get_day_entry(&None, Date::from_days(MAY_FIRST)).is_none());
    assert!(table.get_day_entry(&label("demo"), Date::from_days(MAY_FIRST + 1)).is_none());
}

#[test]
fn from_days_takes_only_sound_ledgers() {
    let good = Day {
        date: Date::from_days(MAY_FIRST),
        entry: vec![
            ClockIn {
                clock_in: at(MAY_FIRST, 9, 0),
                clock_out: Some(at(MAY_FIRST, 10, 0)),
                project: None,
            },
            ClockIn { clock_in: at(MAY_FIRST, 11, 0), clock_out: None, project: None },
            ClockIn { clock_in: at(MAY_FIRST, 11, 0), clock_out: None, project: label("demo") },
        ],
        breaks: Vec::new(),
    };
    assert!(good.is_valid());
    let table = TimeTable::from_days(vec![good.clone()]).unwrap();
    assert_eq!(table.days(), &vec![good.clone()]);
    assert_eq!(table.into_days(), vec![good.clone()]);

    // the same date twice
    assert!(TimeTable::from_days(vec![good.clone(), good.clone()]).is_none());

    // a clock-out that is not after the clock-in
    let backwards = Day {
        date: Date::from_days(MAY_FIRST),
        entry: vec![ClockIn {
            clock_in: at(MAY_FIRST, 9, 0),
            clock_out: Some(at(MAY_FIRST, 9, 0)),
            project: None,
        }],
        breaks: Vec::new(),
    };
    assert!(!backwards.is_valid());
    assert!(!backwards.entry[0].is_valid());
    assert!(TimeTable::from_days(vec![backwards]).is_none());

    // two open sessions of one project
    let doubled = Day {
        date: Date::from_days(MAY_FIRST),
        entry: vec![
            ClockIn { clock_in: at(MAY_FIRST, 9, 0), clock_out: None, project: label("demo") },
            ClockIn { clock_in: at(MAY_FIRST, 10, 0), clock_out: None, project: label("demo") },
        ],
        breaks: Vec::new(),
    };
    assert!(!doubled.is_valid());
    assert!(TimeTable::from_days(vec![doubled]).is_none());
    assert!(TimeTable::from_days(Vec::new()).is_some());
}

#[test]
fn a_ledger_comes_back_from_its_parts_unchanged() {
    let mut table = TimeTable::new();
    table.open(label("demo"), at(MAY_FIRST, 9, 0), utc());
    assert_eq!(table.record_break(label("demo"), at(MAY_FIRST, 10, 0), utc()), Ok(()));
    assert_eq!(table.close(&label("demo"), at(MAY_FIRST, 17, 0), utc()), Ok(()));
    table.open(None, at(MAY_FIRST + 1, 9, 0), utc());
    let parts = table.days().clone();
    let again = TimeTable::from_days(parts.clone()).unwrap();
    assert_eq!(again, table);
    assert_eq!(again.into_days(), parts);
    assert_eq!(TimeTable::default(), TimeTable::new());
}

#[test]
fn ledger_errors_explain_themselves() {
    assert_eq!(LedgerError::NoOpenEntry.reason(), "no open session for this project today");
    assert_eq!(LedgerError::NoMatchingDay.reason(), "no session for this project today");
    assert_eq!(
        LedgerError::AlreadyOpen.reason(),
        "a session is already open for this project today"
    );
    assert_eq!(
        LedgerError::ClockOutNotAfterClockIn.reason(),
        "clock out has to be after clock in"
    );
}
