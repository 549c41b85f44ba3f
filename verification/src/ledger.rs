//! The ledger: work sessions and break markers, grouped into one bucket per
//! calendar day, with the operations that look them up and change them.

use crate::aggregate::break_marker_nanos;
use crate::event::{copy_project, label_view, same_project};
use crate::time::{local_day, Date, Instant, UtcOffset};
use vstd::prelude::*;

verus! {

/// One work session: a clock-in, the clock-out that ended it (if it has ended)
/// and the project it was spent on (if any). A session without a clock-out is
/// open.
#[derive(Clone, Debug, PartialEq, Eq)]
pub struct ClockIn {
    pub clock_in: Instant,
    pub clock_out: Option<Instant>,
    pub project: Option<String>,
}

/// A break marker: the instant at which a break was recorded and the project
/// it was recorded for.
#[derive(Clone, Debug, PartialEq, Eq)]
pub struct Break {
    pub at: Instant,
    pub project: Option<String>,
}

/// The bucket of one calendar day: its sessions and its break markers, each in
/// the order in which they were recorded.
#[derive(Clone, Debug, PartialEq, Eq)]
pub struct Day {
    pub date: Date,
    pub entry: Vec<ClockIn>,
    pub breaks: Vec<Break>,
}

/// The mathematical content of a [`ClockIn`]; instants are in nanoseconds
/// since the epoch.
pub struct EntryView {
    pub clock_in: int,
    pub clock_out: Option<int>,
    pub project: Option<Seq<char>>,
}

/// The mathematical content of a [`Break`].
pub struct BreakView {
    pub at: int,
    pub project: Option<Seq<char>>,
}

/// The mathematical content of a [`Day`]; the date is in days since 1970-01-01.
pub struct DayView {
    pub date: int,
    pub entry: Seq<EntryView>,
    pub breaks: Seq<BreakView>,
}

/// Nanoseconds since the epoch of an instant that may be absent.
pub open spec fn instant_view(at: Option<Instant>) -> Option<int> {
    match at {
        Some(instant) => Some(instant@),
        None => None,
    }
}

impl View for ClockIn {
    type V = EntryView;

    open spec fn view(&self) -> EntryView {
        EntryView {
            clock_in: self.clock_in@,
            clock_out: instant_view(self.clock_out),
            project: label_view(self.project),
        }
    }
}

impl View for Break {
    type V = BreakView;

    open spec fn view(&self) -> BreakView {
        BreakView { at: self.at@, project: label_view(self.project) }
    }
}

/// The contents of a list of sessions, element by element.
pub open spec fn entry_views(entries: Seq<ClockIn>) -> Seq<EntryView> {
    entries.map_values(|e: ClockIn| e@)
}

/// The contents of a list of break markers, element by element.
pub open spec fn break_views(breaks: Seq<Break>) -> Seq<BreakView> {
    breaks.map_values(|b: Break| b@)
}

impl View for Day {
    type V = DayView;

    open spec fn view(&self) -> DayView {
        DayView {
            date: self.date@,
            entry: entry_views(self.entry@),
            breaks: break_views(self.breaks@),
        }
    }
}

/// The contents of a list of day buckets, element by element.
pub open spec fn day_views(days: Seq<Day>) -> Seq<DayView> {
    days.map_values(|d: Day| d@)
}

/// A session is sound if its clock-out, when present, is strictly after its
/// clock-in.
pub open spec fn entry_ok(entry: EntryView) -> bool {
    entry.clock_out matches Some(clock_out) ==> clock_out > entry.clock_in
}

/// Whether a session is open and belongs to `project`.
pub open spec fn is_open_for(entry: EntryView, project: Option<Seq<char>>) -> bool {
    entry.clock_out is None && entry.project == project
}

/// A day bucket is sound if each of its sessions is, and no two of its open
/// sessions belong to the same project.
pub open spec fn day_ok(day: DayView) -> bool {
    &&& forall|i: int| 0 <= i < day.entry.len() ==> entry_ok(#[trigger] day.entry[i])
    &&& forall|i: int, j: int|
        0 <= i < j < day.entry.len() && (#[trigger] day.entry[i]).clock_out is None && (
        #[trigger] day.entry[j]).clock_out is None ==> day.entry[i].project
            != day.entry[j].project
}

/// A ledger is sound if each of its day buckets is, and no two buckets are for
/// the same date.
pub open spec fn ledger_ok(days: Seq<DayView>) -> bool {
    &&& forall|i: int| 0 <= i < days.len() ==> day_ok(#[trigger] days[i])
    &&& forall|i: int, j: int|
        0 <= i < j < days.len() ==> (#[trigger] days[i]).date != (#[trigger] days[j]).date
}

/// Whether bucket `i` is the first bucket of `days` for `date`.
pub open spec fn is_first_day(days: Seq<DayView>, date: int, i: int) -> bool {
    &&& 0 <= i < days.len()
    &&& days[i].date == date
    &&& forall|j: int| 0 <= j < i ==> (#[trigger] days[j]).date != date
}

/// Whether `days` has a bucket for `date`.
pub open spec fn has_day(days: Seq<DayView>, date: int) -> bool {
    exists|i: int| 0 <= i < days.len() && (#[trigger] days[i]).date == date
}

/// Whether session `e` of bucket `d` is the open session of `project` on
/// `date`.
pub open spec fn open_entry_at(
    days: Seq<DayView>,
    project: Option<Seq<char>>,
    date: int,
    d: int,
    e: int,
) -> bool {
    &&& 0 <= d < days.len()
    &&& days[d].date == date
    &&& 0 <= e < days[d].entry.len()
    &&& is_open_for(days[d].entry[e], project)
}

/// Whether `project` has an open session on `date`.
pub open spec fn has_open_entry(days: Seq<DayView>, project: Option<Seq<char>>, date: int) -> bool {
    exists|d: int, e: int| open_entry_at(days, project, date, d, e)
}

/// In a sound ledger a project has at most one open session on any one date.
pub proof fn lemma_open_entry_is_unique(
    days: Seq<DayView>,
    project: Option<Seq<char>>,
    date: int,
    d1: int,
    e1: int,
    d2: int,
    e2: int,
)
    requires
        ledger_ok(days),
        open_entry_at(days, project, date, d1, e1),
        open_entry_at(days, project, date, d2, e2),
    ensures
        d1 == d2,
        e1 == e2,
{
    if d1 != d2 {
        if d1 < d2 {
            assert(days[d1].date != days[d2].date);
        } else {
            assert(days[d2].date != days[d1].date);
        }
    }
    assert(day_ok(days[d1]));
    if e1 != e2 {
        if e1 < e2 {
            assert(days[d1].entry[e1].project != days[d1].entry[e2].project);
        } else {
            assert(days[d1].entry[e2].project != days[d1].entry[e1].project);
        }
    }
}

/// Why the ledger refused an operation. A refused operation changes nothing.
#[derive(Clone, Copy, Debug, PartialEq, Eq, Structural)]
pub enum LedgerError {
    /// Clocking in: the project already has an open session on that day.
    AlreadyOpen,
    /// Clocking out: the project has no open session on that day.
    NoOpenEntry,
    /// Recording a break: the ledger has no bucket for that day that holds a
    /// session of the project.
    NoMatchingDay,
    /// Clocking out: the clock-out would not be after the clock-in.
    ClockOutNotAfterClockIn,
}

impl LedgerError {
    /// The sentence shown to the user.
    pub fn reason(&self) -> (text: &'static str)
        ensures
            self is AlreadyOpen ==> text@ == "a session is already open for this project today"@,
            self is NoOpenEntry ==> text@ == "no open session for this project today"@,
            self is NoMatchingDay ==> text@ == "no session for this project today"@,
            self is ClockOutNotAfterClockIn ==> text@ == "clock out has to be after clock in"@,
    {
        match self {
            LedgerError::AlreadyOpen => "a session is already open for this project today",
            LedgerError::NoOpenEntry => "no open session for this project today",
            LedgerError::NoMatchingDay => "no session for this project today",
            LedgerError::ClockOutNotAfterClockIn => "clock out has to be after clock in",
        }
    }
}

/// The bucket `day` with one more session at its end.
pub open spec fn with_entry(day: DayView, entry: EntryView) -> DayView {
    DayView { date: day.date, entry: day.entry.push(entry), breaks: day.breaks }
}

/// The bucket `day` with its session `e` clocked out at `at`.
pub open spec fn with_clock_out(day: DayView, e: int, at: int) -> DayView {
    DayView {
        date: day.date,
        entry: day.entry.update(
            e,
            EntryView {
                clock_in: day.entry[e].clock_in,
                clock_out: Some(at),
                project: day.entry[e].project,
            },
        ),
        breaks: day.breaks,
    }
}

/// The bucket `day` with one more break marker at its end.
pub open spec fn with_break(day: DayView, marker: BreakView) -> DayView {
    DayView { date: day.date, entry: day.entry, breaks: day.breaks.push(marker) }
}

/// A fresh bucket for `date` that holds the one session `entry`.
pub open spec fn day_of_one(date: int, entry: EntryView) -> DayView {
    DayView { date, entry: seq![entry], breaks: Seq::empty() }
}

/// An open session of `project` that starts at `at`.
pub open spec fn open_session(at: int, project: Option<Seq<char>>) -> EntryView {
    EntryView { clock_in: at, clock_out: None, project }
}

/// Whether the bucket holds a session of `project`, open or not.
pub open spec fn day_has_project(day: DayView, project: Option<Seq<char>>) -> bool {
    exists|e: int| 0 <= e < day.entry.len() && (#[trigger] day.entry[e]).project == project
}

/// Whether bucket `d` is the bucket for `date` and holds a session of
/// `project`.
pub open spec fn break_day_at(days: Seq<DayView>, project: Option<Seq<char>>, date: int, d: int) -> bool {
    &&& is_first_day(days, date, d)
    &&& day_has_project(days[d], project)
}

/// Break time that a report shows for a bucket, in nanoseconds: half an hour
/// per marker.
pub open spec fn day_break_nanos(day: DayView) -> int {
    day.breaks.len() * break_marker_nanos()
}

/// The ledger after a session was added on `date`: at the end of the bucket for
/// `date`, or in a new bucket at the end of the ledger if there was none.
pub open spec fn session_added(
    before: Seq<DayView>,
    after: Seq<DayView>,
    date: int,
    entry: EntryView,
) -> bool {
    &&& forall|i: int| #[trigger]
        is_first_day(before, date, i) ==> after == before.update(i, with_entry(before[i], entry))
    &&& !has_day(before, date) ==> after == before.push(day_of_one(date, entry))
}

/// A sound ledger stays sound when a sound session is added to one of its
/// buckets, as long as the session, if open, is the only open one of its
/// project in that bucket.
pub proof fn lemma_entry_keeps_ledger_ok(days: Seq<DayView>, i: int, entry: EntryView)
    requires
        ledger_ok(days),
        0 <= i < days.len(),
        entry_ok(entry),
        entry.clock_out is None ==> forall|e: int|
            0 <= e < days[i].entry.len() ==> !is_open_for(
                #[trigger] days[i].entry[e],
                entry.project,
            ),
    ensures
        ledger_ok(days.update(i, with_entry(days[i], entry))),
{
    let day = with_entry(days[i], entry);
    let after = days.update(i, day);
    assert(day_ok(days[i]));
    assert forall|k: int, l: int|
        0 <= k < l < day.entry.len() && (#[trigger] day.entry[k]).clock_out is None && (
        #[trigger] day.entry[l]).clock_out is None implies day.entry[k].project
        != day.entry[l].project by {
        if l == day.entry.len() - 1 {
            assert(day.entry[k] == days[i].entry[k]);
            assert(!is_open_for(days[i].entry[k], entry.project));
        } else {
            assert(day.entry[k] == days[i].entry[k]);
            assert(day.entry[l] == days[i].entry[l]);
        }
    }
    assert forall|k: int| 0 <= k < day.entry.len() implies entry_ok(#[trigger] day.entry[k]) by {
        if k < days[i].entry.len() {
            assert(day.entry[k] == days[i].entry[k]);
        }
    }
    assert(day_ok(day));
    assert forall|k: int| 0 <= k < after.len() implies day_ok(#[trigger] after[k]) by {
        if k != i {
            assert(after[k] == days[k]);
        }
    }
    assert forall|k: int, l: int| 0 <= k < l < after.len() implies (#[trigger] after[k]).date != (
    #[trigger] after[l]).date by {
        assert(after[k].date == days[k].date);
        assert(after[l].date == days[l].date);
    }
}

/// A sound ledger stays sound when a bucket with one sound session is added
/// for a date that has no bucket yet.
pub proof fn lemma_new_day_keeps_ledger_ok(days: Seq<DayView>, date: int, entry: EntryView)
    requires
        ledger_ok(days),
        !has_day(days, date),
        entry_ok(entry),
    ensures
        ledger_ok(days.push(day_of_one(date, entry))),
{
    let day = day_of_one(date, entry);
    let after = days.push(day);
    assert(day_ok(day));
    assert forall|k: int| 0 <= k < after.len() implies day_ok(#[trigger] after[k]) by {
        if k < days.len() {
            assert(after[k] == days[k]);
        }
    }
    assert forall|k: int, l: int| 0 <= k < l < after.len() implies (#[trigger] after[k]).date != (
    #[trigger] after[l]).date by {
        assert(after[k] == days[k]);
        if l < days.len() {
            assert(after[l] == days[l]);
        } else {
            assert(days[k].date != date);
        }
    }
}

/// A sound ledger stays sound when one of its sessions is given a clock-out
/// that is after the session's clock-in.
pub proof fn lemma_clock_out_keeps_ledger_ok(days: Seq<DayView>, d: int, e: int, at: int)
    requires
        ledger_ok(days),
        0 <= d < days.len(),
        0 <= e < days[d].entry.len(),
        at > days[d].entry[e].clock_in,
    ensures
        ledger_ok(days.update(d, with_clock_out(days[d], e, at))),
{
    let day = with_clock_out(days[d], e, at);
    let after = days.update(d, day);
    assert(day_ok(days[d]));
    assert forall|k: int| 0 <= k < day.entry.len() implies entry_ok(#[trigger] day.entry[k]) by {
        if k != e {
            assert(day.entry[k] == days[d].entry[k]);
        }
    }
    assert forall|k: int, l: int|
        0 <= k < l < day.entry.len() && (#[trigger] day.entry[k]).clock_out is None && (
        #[trigger] day.entry[l]).clock_out is None implies day.entry[k].project
        != day.entry[l].project by {
        assert(day.entry[k] == days[d].entry[k]);
        assert(day.entry[l] == days[d].entry[l]);
    }
    assert(day_ok(day));
    assert forall|k: int| 0 <= k < after.len() implies day_ok(#[trigger] after[k]) by {
        if k != d {
            assert(after[k] == days[k]);
        }
    }
    assert forall|k: int, l: int| 0 <= k < l < after.len() implies (#[trigger] after[k]).date != (
    #[trigger] after[l]).date by {
        assert(after[k].date == days[k].date);
        assert(after[l].date == days[l].date);
    }
}

/// A sound ledger stays sound when a break marker is added to one of its
/// buckets.
pub proof fn lemma_break_keeps_ledger_ok(days: Seq<DayView>, d: int, marker: BreakView)
    requires
        ledger_ok(days),
        0 <= d < days.len(),
    ensures
        ledger_ok(days.update(d, with_break(days[d], marker))),
{
    let day = with_break(days[d], marker);
    let after = days.update(d, day);
    assert(day_ok(days[d]));
    assert(day_ok(day));
    assert forall|k: int| 0 <= k < after.len() implies day_ok(#[trigger] after[k]) by {
        if k != d {
            assert(after[k] == days[k]);
        }
    }
    assert forall|k: int, l: int| 0 <= k < l < after.len() implies (#[trigger] after[k]).date != (
    #[trigger] after[l]).date by {
        assert(after[k].date == days[k].date);
        assert(after[l].date == days[l].date);
    }
}

impl ClockIn {
    /// A copy of this session.
    pub fn duplicate(&self) -> (copy: ClockIn)
        ensures
            copy == *self,
    {
        ClockIn {
            clock_in: self.clock_in,
            clock_out: self.clock_out,
            project: copy_project(&self.project),
        }
    }

    /// Whether the session has no clock-out yet.
    pub fn is_open(&self) -> (open: bool)
        ensures
            open == (self@.clock_out is None),
    {
        self.clock_out.is_none()
    }

    /// Whether the session's clock-out, if it has one, is after its clock-in.
    pub fn is_valid(&self) -> (valid: bool)
        ensures
            valid == entry_ok(self@),
    {
        match &self.clock_out {
            Some(clock_out) => clock_out.is_after(&self.clock_in),
            None => true,
        }
    }
}

impl Break {
    /// A copy of this marker.
    pub fn duplicate(&self) -> (copy: Break)
        ensures
            copy == *self,
    {
        Break { at: self.at, project: copy_project(&self.project) }
    }
}

/// A copy of a list of sessions.
pub fn copy_entries(entries: &Vec<ClockIn>) -> (copy: Vec<ClockIn>)
    ensures
        copy@ == entries@,
{
    let mut copy: Vec<ClockIn> = Vec::new();
    let mut i: usize = 0;
    while i < entries.len()
        invariant
            i <= entries.len(),
            copy@ == entries@.take(i as int),
        decreases entries.len() - i,
    {
        copy.push(entries[i].duplicate());
        assert(copy@ == entries@.take(i + 1));
        i = i + 1;
    }
    assert(entries@.take(entries.len() as int) == entries@);
    copy
}

/// A copy of a list of break markers.
pub fn copy_breaks(breaks: &Vec<Break>) -> (copy: Vec<Break>)
    ensures
        copy@ == breaks@,
{
    let mut copy: Vec<Break> = Vec::new();
    let mut i: usize = 0;
    while i < breaks.len()
        invariant
            i <= breaks.len(),
            copy@ == breaks@.take(i as int),
        decreases breaks.len() - i,
    {
        copy.push(breaks[i].duplicate());
        assert(copy@ == breaks@.take(i + 1));
        i = i + 1;
    }
    assert(breaks@.take(breaks.len() as int) == breaks@);
    copy
}

/// Position of the first open session of `project` among `entries`.
fn find_open_in(entries: &Vec<ClockIn>, project: &Option<String>) -> (found: Option<usize>)
    ensures
        match found {
            Some(e) => {
                &&& e < entries.len()
                &&& is_open_for(entry_views(entries@)[e as int], label_view(*project))
                &&& forall|k: int|
                    0 <= k < e ==> !is_open_for(
                        #[trigger] entry_views(entries@)[k],
                        label_view(*project),
                    )
            },
            None => forall|k: int|
                0 <= k < entries.len() ==> !is_open_for(
                    #[trigger] entry_views(entries@)[k],
                    label_view(*project),
                ),
        },
{
    let mut e: usize = 0;
    while e < entries.len()
        invariant
            e <= entries.len(),
            forall|k: int|
                0 <= k < e ==> !is_open_for(
                    #[trigger] entry_views(entries@)[k],
                    label_view(*project),
                ),
        decreases entries.len() - e,
    {
        let entry: &ClockIn = &entries[e];
        if entry.clock_out.is_none() && same_project(&entry.project, project) {
            return Some(e);
        }
        e = e + 1;
    }
    None
}

impl Day {
    /// A copy of this bucket.
    pub fn duplicate(&self) -> (copy: Day)
        ensures
            copy@ == self@,
    {
        Day {
            date: self.date,
            entry: copy_entries(&self.entry),
            breaks: copy_breaks(&self.breaks),
        }
    }

    /// Whether the bucket is sound: every session ends after it starts, and no
    /// project has two open sessions.
    pub fn is_valid(&self) -> (valid: bool)
        ensures
            valid == day_ok(self@),
    {
        let ghost entries = entry_views(self.entry@);
        let mut i: usize = 0;
        while i < self.entry.len()
            invariant
                i <= self.entry.len(),
                entries == entry_views(self.entry@),
                entries == self@.entry,
                forall|k: int| 0 <= k < i ==> entry_ok(#[trigger] entries[k]),
                forall|k: int, l: int|
                    0 <= k < l < entries.len() && k < i && (#[trigger] entries[k]).clock_out is None
                        && (#[trigger] entries[l]).clock_out is None ==> entries[k].project
                        != entries[l].project,
            decreases self.entry.len() - i,
        {
            let entry: &ClockIn = &self.entry[i];
            if !entry.is_valid() {
                assert(!entry_ok(entries[i as int]));
                return false;
            }
            if entry.clock_out.is_none() {
                let mut j: usize = i + 1;
                while j < self.entry.len()
                    invariant
                        i < j <= self.entry.len(),
                        entries == entry_views(self.entry@),
                        entries == self@.entry,
                        entry == self.entry@[i as int],
                        entries[i as int].clock_out is None,
                        forall|l: int|
                            i < l < j && (#[trigger] entries[l]).clock_out is None
                                ==> entries[i as int].project != entries[l].project,
                    decreases self.entry.len() - j,
                {
                    let other: &ClockIn = &self.entry[j];
                    if other.clock_out.is_none() && same_project(&entry.project, &other.project) {
                        assert(entries[i as int].project == entries[j as int].project);
                        return false;
                    }
                    j = j + 1;
                }
            }
            i = i + 1;
        }
        true
    }
}

/// Position of the first bucket for `on`.
fn find_day(days: &Vec<Day>, on: Date) -> (found: Option<usize>)
    ensures
        match found {
            Some(i) => is_first_day(day_views(days@), on@, i as int),
            None => !has_day(day_views(days@), on@),
        },
{
    let mut i: usize = 0;
    while i < days.len()
        invariant
            i <= days.len(),
            forall|j: int| 0 <= j < i ==> (#[trigger] day_views(days@)[j]).date != on@,
        decreases days.len() - i,
    {
        if days[i].date.same_day(&on) {
            return Some(i);
        }
        i = i + 1;
    }
    None
}

/// Position of the open session of `project` on `on`, as a bucket index and an
/// index within the bucket.
fn find_open(days: &Vec<Day>, project: &Option<String>, on: Date) -> (found: Option<(usize, usize)>)
    requires
        ledger_ok(day_views(days@)),
    ensures
        match found {
            Some((d, e)) => open_entry_at(
                day_views(days@),
                label_view(*project),
                on@,
                d as int,
                e as int,
            ),
            None => !has_open_entry(day_views(days@), label_view(*project), on@),
        },
{
    let ghost views = day_views(days@);
    match find_day(days, on) {
        Some(d) => {
            assert(views[d as int] == days@[d as int]@);
            match find_open_in(&days[d].entry, project) {
                Some(e) => Some((d, e)),
                None => {
                    assert forall|d2: int, e2: int|
                        !open_entry_at(views, label_view(*project), on@, d2, e2) by {
                        if open_entry_at(views, label_view(*project), on@, d2, e2) {
                            if d2 < d {
                                assert(views[d2].date != views[d as int].date);
                            } else if d < d2 {
                                assert(views[d as int].date != views[d2].date);
                            }
                            assert(!is_open_for(
                                entry_views(days@[d as int].entry@)[e2],
                                label_view(*project),
                            ));
                        }
                    }
                    None
                },
            }
        },
        None => None,
    }
}

/// Adds a session on `date`: to the bucket for that date, or to a new bucket
/// at the end.
fn push_session(days: &mut Vec<Day>, date: Date, entry: ClockIn)
    requires
        ledger_ok(day_views(old(days)@)),
        entry_ok(entry@),
        entry@.clock_out is None ==> !has_open_entry(
            day_views(old(days)@),
            entry@.project,
            date@,
        ),
    ensures
        ledger_ok(day_views(final(days)@)),
        session_added(day_views(old(days)@), day_views(final(days)@), date@, entry@),
{
    let ghost before = day_views(days@);
    match find_day(days, date) {
        Some(i) => {
            let ghost old_day = days@[i as int];
            assert(before[i as int] == old_day@);
            days[i].entry.push(entry);
            proof {
                let after = day_views(days@);
                assert(entry_views(days@[i as int].entry@) =~= entry_views(old_day.entry@).push(
                    entry@,
                ));
                assert(days@[i as int]@ == with_entry(before[i as int], entry@));
                assert(after =~= before.update(i as int, with_entry(before[i as int], entry@)));
                assert forall|e: int| 0 <= e < before[i as int].entry.len() implies !is_open_for(
                    #[trigger] before[i as int].entry[e],
                    entry@.project,
                ) || entry@.clock_out is Some by {
                    if entry@.clock_out is None && is_open_for(
                        before[i as int].entry[e],
                        entry@.project,
                    ) {
                        assert(open_entry_at(before, entry@.project, date@, i as int, e));
                    }
                }
                lemma_entry_keeps_ledger_ok(before, i as int, entry@);
                assert forall|k: int| #[trigger] is_first_day(before, date@, k) implies k == i by {
                    if k < i {
                        assert(before[k].date != date@);
                    } else if i < k {
                        assert(before[i as int].date != date@);
                    }
                }
            }
        },
        None => {
            let day = Day { date, entry: vec![entry], breaks: Vec::new() };
            proof {
                assert(entry_views(day.entry@) =~= seq![entry@]);
                assert(break_views(day.breaks@) =~= Seq::<BreakView>::empty());
                assert(day@ == day_of_one(date@, entry@));
            }
            days.push(day);
            proof {
                assert(day_views(days@) =~= before.push(day_of_one(date@, entry@)));
                lemma_new_day_keeps_ledger_ok(before, date@, entry@);
            }
        },
    }
}

/// Gives session `e` of bucket `d` the clock-out `at`.
fn set_clock_out(days: &mut Vec<Day>, d: usize, e: usize, at: Instant)
    requires
        ledger_ok(day_views(old(days)@)),
        d < old(days).len(),
        e < old(days)[d as int].entry.len(),
        at@ > old(days)[d as int].entry[e as int].clock_in@,
    ensures
        ledger_ok(day_views(final(days)@)),
        day_views(final(days)@) == day_views(old(days)@).update(
            d as int,
            with_clock_out(day_views(old(days)@)[d as int], e as int, at@),
        ),
{
    let ghost before = day_views(days@);
    let ghost old_day = days@[d as int];
    assert(before[d as int] == old_day@);
    assert(before[d as int].entry[e as int] == old_day.entry@[e as int]@);
    days[d].entry[e].clock_out = Some(at);
    proof {
        let after = day_views(days@);
        assert(entry_views(days@[d as int].entry@) =~= with_clock_out(
            before[d as int],
            e as int,
            at@,
        ).entry);
        assert(days@[d as int]@ == with_clock_out(before[d as int], e as int, at@));
        assert(after =~= before.update(
            d as int,
            with_clock_out(before[d as int], e as int, at@),
        ));
        lemma_clock_out_keeps_ledger_ok(before, d as int, e as int, at@);
    }
}

/// Adds a break marker at the end of bucket `d`.
fn push_break(days: &mut Vec<Day>, d: usize, marker: Break)
    requires
        ledger_ok(day_views(old(days)@)),
        d < old(days).len(),
    ensures
        ledger_ok(day_views(final(days)@)),
        day_views(final(days)@) == day_views(old(days)@).update(
            d as int,
            with_break(day_views(old(days)@)[d as int], marker@),
        ),
{
    let ghost before = day_views(days@);
    let ghost old_day = days@[d as int];
    assert(before[d as int] == old_day@);
    days[d].breaks.push(marker);
    proof {
        let after = day_views(days@);
        assert(break_views(days@[d as int].breaks@) =~= break_views(old_day.breaks@).push(marker@));
        assert(days@[d as int]@ == with_break(before[d as int], marker@));
        assert(after =~= before.update(d as int, with_break(before[d as int], marker@)));
        lemma_break_keeps_ledger_ok(before, d as int, marker@);
    }
}

/// Whether one of `entries` belongs to `project`.
fn any_of_project(entries: &Vec<ClockIn>, project: &Option<String>) -> (found: bool)
    ensures
        found == exists|e: int|
            0 <= e < entries.len() && (#[trigger] entry_views(entries@)[e]).project == label_view(
                *project,
            ),
{
    let mut e: usize = 0;
    while e < entries.len()
        invariant
            e <= entries.len(),
            forall|k: int|
                0 <= k < e ==> (#[trigger] entry_views(entries@)[k]).project != label_view(
                    *project,
                ),
        decreases entries.len() - e,
    {
        if same_project(&entries[e].project, project) {
            assert(entry_views(entries@)[e as int].project == label_view(*project));
            return true;
        }
        e = e + 1;
    }
    false
}

/// Whether a list of day buckets is a sound ledger.
fn is_sound(days: &Vec<Day>) -> (sound: bool)
    ensures
        sound == ledger_ok(day_views(days@)),
{
    let ghost views = day_views(days@);
    let mut i: usize = 0;
    while i < days.len()
        invariant
            i <= days.len(),
            views == day_views(days@),
            forall|k: int| 0 <= k < i ==> day_ok(#[trigger] views[k]),
            forall|k: int, l: int|
                0 <= k < l < views.len() && k < i ==> (#[trigger] views[k]).date != (
                #[trigger] views[l]).date,
        decreases days.len() - i,
    {
        assert(views[i as int] == days@[i as int]@);
        if !days[i].is_valid() {
            return false;
        }
        let mut j: usize = i + 1;
        while j < days.len()
            invariant
                i < j <= days.len(),
                views == day_views(days@),
                forall|l: int| i < l < j ==> views[i as int].date != (#[trigger] views[l]).date,
            decreases days.len() - j,
        {
            assert(views[j as int] == days@[j as int]@);
            if days[i].date.same_day(&days[j].date) {
                assert(views[i as int].date == views[j as int].date);
                return false;
            }
            j = j + 1;
        }
        i = i + 1;
    }
    true
}

/// The whole ledger: the day buckets in the order in which they were created.
///
/// A ledger is always sound, in the sense of [`ledger_ok`]: no two buckets
/// share a date, every clock-out is after its clock-in, and a project has at
/// most one open session per day. Its view is the contents of its buckets.
#[derive(Debug, PartialEq, Eq)]
pub struct TimeTable {
    days: Vec<Day>,
}

impl View for TimeTable {
    type V = Seq<DayView>;

    closed spec fn view(&self) -> Seq<DayView> {
        day_views(self.days@)
    }
}

impl TimeTable {
    #[verifier::type_invariant]
    spec fn sound(self) -> bool {
        ledger_ok(day_views(self.days@))
    }

    /// The empty ledger.
    pub fn new() -> (table: TimeTable)
        ensures
            table@ == Seq::<DayView>::empty(),
    {
        TimeTable { days: Vec::new() }
    }

    /// The ledger made of `days`, if they form a sound ledger.
    pub fn from_days(days: Vec<Day>) -> (r: Option<TimeTable>)
        ensures
            r is Some <==> ledger_ok(day_views(days@)),
            r matches Some(table) ==> table@ == day_views(days@),
    {
        if is_sound(&days) {
            Some(TimeTable { days })
        } else {
            None
        }
    }

    /// The day buckets, in storage order.
    pub fn days(&self) -> (days: &Vec<Day>)
        ensures
            day_views(days@) == self@,
            ledger_ok(self@),
    {
        proof {
            use_type_invariant(self);
        }
        &self.days
    }

    /// Gives the day buckets back, taking the ledger apart.
    pub fn into_days(self) -> (days: Vec<Day>)
        ensures
            day_views(days@) == self@,
            ledger_ok(self@),
    {
        proof {
            use_type_invariant(&self);
        }
        self.days
    }

    /// The bucket for the date `on`, if the ledger has one.
    pub fn get_day(&self, on: Date) -> (found: Option<&Day>)
        ensures
            match found {
                Some(day) => exists|i: int| is_first_day(self@, on@, i) && self@[i] == day@,
                None => !has_day(self@, on@),
            },
    {
        match find_day(&self.days, on) {
            Some(i) => {
                assert(self@[i as int] == self.days@[i as int]@);
                Some(&self.days[i])
            },
            None => None,
        }
    }

    /// The open session of `project` on the date `on`, if there is one. No
    /// project is a label of its own: it finds only a session without project.
    pub fn get_day_entry(&self, project: &Option<String>, on: Date) -> (found: Option<&ClockIn>)
        ensures
            ledger_ok(self@),
            match found {
                Some(entry) => exists|d: int, e: int|
                    open_entry_at(self@, label_view(*project), on@, d, e) && self@[d].entry[e]
                        == entry@,
                None => !has_open_entry(self@, label_view(*project), on@),
            },
    {
        proof {
            use_type_invariant(self);
        }
        match find_open(&self.days, project, on) {
            Some((d, e)) => {
                assert(self@[d as int] == self.days@[d as int]@);
                assert(self@[d as int].entry[e as int] == self.days@[d as int].entry@[e as int]@);
                Some(&self.days[d].entry[e])
            },
            None => None,
        }
    }
    /// Starts a session of `project` at `at`, on the calendar day that a clock
    /// in `zone` shows then. The session goes to the end of that day's bucket;
    /// a day without bucket gets one, at the end of the ledger.
    ///
    /// This does not look for a session that is already open: that `project`
    /// has none on that day is the caller's part of the contract. See
    /// [`TimeTable::clock_in`] for the operation that looks first.
    pub fn open(&mut self, project: Option<String>, at: Instant, zone: UtcOffset)
        requires
            !has_open_entry(old(self)@, label_view(project), local_day(at@, zone@)),
        ensures
            ledger_ok(final(self)@),
            session_added(
                old(self)@,
                final(self)@,
                local_day(at@, zone@),
                open_session(at@, label_view(project)),
            ),
    {
        proof {
            use_type_invariant(&*self);
        }
        let date: Date = at.local_date(zone);
        let entry = ClockIn { clock_in: at, clock_out: None, project };
        let mut days: Vec<Day> = Vec::new();
        std::mem::swap(&mut days, &mut self.days);
        push_session(&mut days, date, entry);
        self.days = days;
    }

    /// Clocks `project` in at `at`: starts a session as [`TimeTable::open`]
    /// does, unless the project already has an open session on that day.
    pub fn clock_in(&mut self, project: Option<String>, at: Instant, zone: UtcOffset) -> (r: Result<
        (),
        LedgerError,
    >)
        ensures
            ledger_ok(final(self)@),
            match r {
                Ok(()) => {
                    &&& !has_open_entry(old(self)@, label_view(project), local_day(at@, zone@))
                    &&& session_added(
                        old(self)@,
                        final(self)@,
                        local_day(at@, zone@),
                        open_session(at@, label_view(project)),
                    )
                },
                Err(e) => {
                    &&& e == LedgerError::AlreadyOpen
                    &&& has_open_entry(old(self)@, label_view(project), local_day(at@, zone@))
                    &&& final(self)@ == old(self)@
                },
            },
    {
        proof {
            use_type_invariant(&*self);
        }
        let date: Date = at.local_date(zone);
        match find_open(&self.days, &project, date) {
            Some(_) => Err(LedgerError::AlreadyOpen),
            None => {
                self.open(project, at, zone);
                Ok(())
            },
        }
    }

    /// Clocks `project` out at `at`: ends the session of that project that is
    /// open on the calendar day which a clock in `zone` shows at `at`.
    ///
    /// Fails, and changes nothing, if the project has no open session on that
    /// day, or if `at` is not after that session's clock-in.
    pub fn close(&mut self, project: &Option<String>, at: Instant, zone: UtcOffset) -> (r: Result<
        (),
        LedgerError,
    >)
        ensures
            ledger_ok(final(self)@),
            match r {
                Ok(()) => exists|d: int, e: int|
                    {
                        &&& open_entry_at(
                            old(self)@,
                            label_view(*project),
                            local_day(at@, zone@),
                            d,
                            e,
                        )
                        &&& at@ > old(self)@[d].entry[e].clock_in
                        &&& final(self)@ == old(self)@.update(
                            d,
                            with_clock_out(old(self)@[d], e, at@),
                        )
                    },
                Err(LedgerError::NoOpenEntry) => {
                    &&& !has_open_entry(old(self)@, label_view(*project), local_day(at@, zone@))
                    &&& final(self)@ == old(self)@
                },
                Err(LedgerError::ClockOutNotAfterClockIn) => {
                    &&& exists|d: int, e: int|
                        open_entry_at(
                            old(self)@,
                            label_view(*project),
                            local_day(at@, zone@),
                            d,
                            e,
                        ) && at@ <= old(self)@[d].entry[e].clock_in
                    &&& final(self)@ == old(self)@
                },
                Err(_) => false,
            },
    {
        proof {
            use_type_invariant(&*self);
        }
        let date: Date = at.local_date(zone);
        match find_open(&self.days, project, date) {
            None => Err(LedgerError::NoOpenEntry),
            Some((d, e)) => {
                assert(self@[d as int] == self.days@[d as int]@);
                assert(self@[d as int].entry[e as int] == self.days@[d as int].entry@[e as int]@);
                if at.is_after(&self.days[d].entry[e].clock_in) {
                    let mut days: Vec<Day> = Vec::new();
                    std::mem::swap(&mut days, &mut self.days);
                    set_clock_out(&mut days, d, e, at);
                    self.days = days;
                    Ok(())
                } else {
                    Err(LedgerError::ClockOutNotAfterClockIn)
                }
            },
        }
    }

    /// Records a break of `project` at `at`: adds a marker to the bucket of the
    /// calendar day that a clock in `zone` shows at `at`. Every marker adds
    /// half an hour to that day's break time.
    ///
    /// Fails, and changes nothing, unless the ledger has a bucket for that day
    /// and the bucket holds a session of `project`.
    pub fn record_break(&mut self, project: Option<String>, at: Instant, zone: UtcOffset) -> (r:
        Result<(), LedgerError>)
        ensures
            ledger_ok(final(self)@),
            match r {
                Ok(()) => exists|d: int|
                    {
                        &&& break_day_at(old(self)@, label_view(project), local_day(at@, zone@), d)
                        &&& final(self)@ == old(self)@.update(
                            d,
                            with_break(
                                old(self)@[d],
                                BreakView { at: at@, project: label_view(project) },
                            ),
                        )
                        &&& day_break_nanos(final(self)@[d]) == day_break_nanos(old(self)@[d])
                            + break_marker_nanos()
                    },
                Err(e) => {
                    &&& e == LedgerError::NoMatchingDay
                    &&& forall|d: int|
                        !break_day_at(old(self)@, label_view(project), local_day(at@, zone@), d)
                    &&& final(self)@ == old(self)@
                },
            },
    {
        proof {
            use_type_invariant(&*self);
        }
        let date: Date = at.local_date(zone);
        match find_day(&self.days, date) {
            None => {
                assert forall|d: int| !break_day_at(self@, label_view(project), date@, d) by {
                    if is_first_day(self@, date@, d) {
                        assert(self@[d].date == date@);
                    }
                }
                Err(LedgerError::NoMatchingDay)
            },
            Some(d) => {
                assert(self@[d as int] == self.days@[d as int]@);
                if any_of_project(&self.days[d].entry, &project) {
                    assert(day_has_project(self@[d as int], label_view(project)));
                    let marker = Break { at, project };
                    let mut days: Vec<Day> = Vec::new();
                    std::mem::swap(&mut days, &mut self.days);
                    push_break(&mut days, d, marker);
                    self.days = days;
                    assert(break_day_at(old(self)@, label_view(project), date@, d as int));
                    Ok(())
                } else {
                    assert forall|k: int| !break_day_at(self@, label_view(project), date@, k) by {
                        if break_day_at(self@, label_view(project), date@, k) {
                            if k < d {
                                assert(self@[k].date != date@);
                            } else if d < k {
                                assert(self@[d as int].date != date@);
                            }
                        }
                    }
                    Err(LedgerError::NoMatchingDay)
                }
            },
        }
    }
    /// Gives session `entry` of bucket `day` the clock-out `at`.
    pub(crate) fn stamp_clock_out(&mut self, day: usize, entry: usize, at: Instant)
        requires
            day < old(self)@.len(),
            entry < old(self)@[day as int].entry.len(),
            at@ > old(self)@[day as int].entry[entry as int].clock_in,
        ensures
            ledger_ok(final(self)@),
            final(self)@ == old(self)@.update(
                day as int,
                with_clock_out(old(self)@[day as int], entry as int, at@),
            ),
    {
        proof {
            use_type_invariant(&*self);
            assert(self@[day as int] == self.days@[day as int]@);
            assert(self@[day as int].entry[entry as int] == self.days@[day as int].entry@[entry as int]@);
        }
        let mut days: Vec<Day> = Vec::new();
        std::mem::swap(&mut days, &mut self.days);
        set_clock_out(&mut days, day, entry, at);
        self.days = days;
    }
}

impl Default for TimeTable {
    fn default() -> (table: TimeTable)
        ensures
            table@ == Seq::<DayView>::empty(),
    {
        TimeTable::new()
    }
}

} // verus!
