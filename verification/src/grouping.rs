//! The ledger as a log of events, put into chronological order and grouped by
//! the calendar day of each event.

use crate::event::{event_views, ClockEvent, EventView};
use crate::ledger::{day_views, Day, DayView, TimeTable};
use crate::listing::day_events;
use crate::time::{local_day, Date, UtcOffset};
use vstd::prelude::*;

verus! {

/// The events of one calendar day.
#[derive(Clone, Debug, PartialEq, Eq)]
pub struct DayEvents {
    pub date: Date,
    pub events: Vec<ClockEvent>,
}

/// The mathematical content of a [`DayEvents`].
pub struct DayEventsView {
    pub date: int,
    pub events: Seq<EventView>,
}

impl View for DayEvents {
    type V = DayEventsView;

    open spec fn view(&self) -> DayEventsView {
        DayEventsView { date: self.date@, events: event_views(self.events@) }
    }
}

/// The contents of a list of groups, element by element.
pub open spec fn group_views(groups: Seq<DayEvents>) -> Seq<DayEventsView> {
    groups.map_values(|g: DayEvents| g@)
}

/// The events of all buckets of a ledger, bucket by bucket in storage order.
pub open spec fn ledger_events(days: Seq<DayView>) -> Seq<EventView>
    decreases days.len(),
{
    if days.len() == 0 {
        Seq::empty()
    } else {
        ledger_events(days.drop_last()) + day_events(days.last())
    }
}

/// The events of all groups, group by group.
pub open spec fn all_events(groups: Seq<DayEventsView>) -> Seq<EventView>
    decreases groups.len(),
{
    if groups.len() == 0 {
        Seq::empty()
    } else {
        all_events(groups.drop_last()) + groups.last().events
    }
}

/// The test "happened at the instant `at`".
pub open spec fn at_instant(at: int) -> spec_fn(EventView) -> bool {
    |e: EventView| e.at == at
}

/// Whether no event comes before an earlier one.
pub open spec fn chronological(events: Seq<EventView>) -> bool {
    forall|i: int, j: int|
        0 <= i <= j < events.len() ==> (#[trigger] events[i]).at <= (#[trigger] events[j]).at
}

/// Whether `sorted` is `log` put into chronological order: it is
/// chronological, and for every instant it holds exactly the events of `log`
/// at that instant, in the order in which `log` holds them. There is one such
/// sequence for every log.
pub open spec fn is_chronological_order_of(sorted: Seq<EventView>, log: Seq<EventView>) -> bool {
    &&& chronological(sorted)
    &&& forall|at: int| #[trigger] sorted.filter(at_instant(at)) == log.filter(at_instant(at))
}

/// Whether `groups` are the events of `log` grouped by calendar day, on a clock
/// `offset` seconds ahead of UTC: taken one after the other the groups are the
/// log in chronological order; no group is empty; each event lies on the day of
/// its group; and the days ascend from group to group.
pub open spec fn grouped_by_day(groups: Seq<DayEventsView>, log: Seq<EventView>, offset: int) -> bool {
    &&& is_chronological_order_of(all_events(groups), log)
    &&& forall|g: int| 0 <= g < groups.len() ==> (#[trigger] groups[g]).events.len() > 0
    &&& forall|g: int, k: int|
        0 <= g < groups.len() && 0 <= k < groups[g].events.len() ==> local_day(
            (#[trigger] groups[g].events[k]).at,
            offset,
        ) == groups[g].date
    &&& forall|g: int, h: int|
        0 <= g < h < groups.len() ==> (#[trigger] groups[g]).date < (#[trigger] groups[h]).date
}

/// A test that holds of none of the events selects none of them.
proof fn lemma_filter_none(events: Seq<EventView>, pred: spec_fn(EventView) -> bool)
    requires
        forall|k: int| 0 <= k < events.len() ==> !pred(#[trigger] events[k]),
    ensures
        events.filter(pred) == Seq::<EventView>::empty(),
    decreases events.len(),
{
    reveal(Seq::filter);
    if events.len() > 0 {
        lemma_filter_none(events.drop_last(), pred);
    }
}

/// A later instant is not on an earlier calendar day.
pub proof fn lemma_days_follow_instants(earlier: int, later: int, offset: int)
    requires
        earlier <= later,
    ensures
        local_day(earlier, offset) <= local_day(later, offset),
{
    let a = earlier / 1_000_000_000;
    let b = later / 1_000_000_000;
    assert(a <= b);
    assert((a + offset) / 86_400 <= (b + offset) / 86_400);
}

/// Putting one more event into a log that is in chronological order, behind
/// all events that are not later than it and before all that are, gives the
/// chronological order of the log with that event at its end.
pub proof fn lemma_insert_keeps_order(
    sorted: Seq<EventView>,
    log: Seq<EventView>,
    event: EventView,
    position: int,
)
    requires
        is_chronological_order_of(sorted, log),
        0 <= position <= sorted.len(),
        forall|k: int| 0 <= k < position ==> (#[trigger] sorted[k]).at <= event.at,
        forall|k: int| position <= k < sorted.len() ==> (#[trigger] sorted[k]).at > event.at,
    ensures
        is_chronological_order_of(sorted.insert(position, event), log.push(event)),
{
    let longer = sorted.insert(position, event);
    let head = sorted.subrange(0, position);
    let tail = sorted.subrange(position, sorted.len() as int);
    assert(longer == head.push(event) + tail);
    assert(sorted == head + tail);
    assert forall|i: int, j: int| 0 <= i <= j < longer.len() implies (#[trigger] longer[i]).at <= (
    #[trigger] longer[j]).at by {
        if i < position {
            assert(longer[i] == sorted[i]);
        } else if i > position {
            assert(longer[i] == sorted[i - 1]);
        }
        if j < position {
            assert(longer[j] == sorted[j]);
        } else if j > position {
            assert(longer[j] == sorted[j - 1]);
        }
    }
    assert forall|at: int| #[trigger]
        longer.filter(at_instant(at)) == log.push(event).filter(at_instant(at)) by {
        let pred = at_instant(at);
        Seq::filter_distributes_over_add(head.push(event), tail, pred);
        Seq::filter_distributes_over_add(head, tail, pred);
        head.lemma_filter_push(event, pred);
        log.lemma_filter_push(event, pred);
        assert(sorted.filter(pred) == log.filter(pred));
        if event.at == at {
            assert forall|k: int| 0 <= k < tail.len() implies !pred(#[trigger] tail[k]) by {
                assert(tail[k] == sorted[position + k]);
            }
            lemma_filter_none(tail, pred);
            assert(head.filter(pred) + Seq::<EventView>::empty() == head.filter(pred));
            assert(head.filter(pred).push(event) + Seq::<EventView>::empty() == head.filter(
                pred,
            ).push(event));
        }
    }
}

/// The events in chronological order. Events with the same timestamp keep the
/// order in which they were given.
pub fn chronological_order(events: &Vec<ClockEvent>) -> (sorted: Vec<ClockEvent>)
    ensures
        is_chronological_order_of(event_views(sorted@), event_views(events@)),
        sorted.len() == events.len(),
{
    let ghost log = event_views(events@);
    let mut sorted: Vec<ClockEvent> = Vec::new();
    let mut i: usize = 0;
    proof {
        assert(event_views(sorted@) =~= Seq::<EventView>::empty());
        assert(log.take(0) =~= Seq::<EventView>::empty());
    }
    while i < events.len()
        invariant
            i <= events.len(),
            sorted.len() == i,
            log == event_views(events@),
            is_chronological_order_of(event_views(sorted@), log.take(i as int)),
        decreases events.len() - i,
    {
        let event: &ClockEvent = &events[i];
        let ghost before = event_views(sorted@);
        let mut position: usize = sorted.len();
        while position > 0 && sorted[position - 1].timestamp.is_after(&event.timestamp)
            invariant
                position <= sorted.len(),
                before == event_views(sorted@),
                forall|k: int| position <= k < before.len() ==> (#[trigger] before[k]).at > event@.at,
            decreases position,
        {
            assert(before[position - 1] == sorted@[position - 1]@);
            position = position - 1;
        }
        proof {
            assert forall|k: int| 0 <= k < position implies (#[trigger] before[k]).at
                <= event@.at by {
                assert(before[position - 1] == sorted@[position - 1]@);
                assert(before[k].at <= before[position - 1].at);
            }
            lemma_insert_keeps_order(before, log.take(i as int), event@, position as int);
            assert(log.take(i + 1) == log.take(i as int).push(event@));
        }
        sorted.insert(position, event.duplicate());
        assert(event_views(sorted@) =~= before.insert(position as int, event@));
        i = i + 1;
    }
    assert(log.take(events.len() as int) == log);
    sorted
}

/// Groups events by the calendar day on which each happened, as a clock in
/// `zone` shows it: one group per day on which something happened, the days in
/// ascending order, each day's events in chronological order.
pub fn group_events_by_day(events: &Vec<ClockEvent>, zone: UtcOffset) -> (groups: Vec<DayEvents>)
    ensures
        grouped_by_day(group_views(groups@), event_views(events@), zone@),
{
    let sorted: Vec<ClockEvent> = chronological_order(events);
    let ghost log = event_views(sorted@);
    let mut groups: Vec<DayEvents> = Vec::new();
    let mut i: usize = 0;
    proof {
        assert(group_views(groups@) =~= Seq::<DayEventsView>::empty());
        assert(log.take(0) =~= all_events(group_views(groups@)));
    }
    while i < sorted.len()
        invariant
            i <= sorted.len(),
            log == event_views(sorted@),
            chronological(log),
            all_events(group_views(groups@)) == log.take(i as int),
            forall|g: int|
                0 <= g < groups.len() ==> (#[trigger] group_views(groups@)[g]).events.len() > 0,
            forall|g: int, k: int|
                0 <= g < groups.len() && 0 <= k < group_views(groups@)[g].events.len()
                    ==> local_day((#[trigger] group_views(groups@)[g].events[k]).at, zone@)
                    == group_views(groups@)[g].date,
            forall|g: int, h: int|
                0 <= g < h < groups.len() ==> (#[trigger] group_views(groups@)[g]).date < (
                #[trigger] group_views(groups@)[h]).date,
        decreases sorted.len() - i,
    {
        let event: &ClockEvent = &sorted[i];
        let date: Date = event.timestamp.local_date(zone);
        let count: usize = groups.len();
        let ghost before = group_views(groups@);
        proof {
            assert(log[i as int] == event@);
            assert(log.take(i + 1) == log.take(i as int).push(event@));
            if count > 0 {
                let last = before[count - 1];
                assert(last.events.len() > 0);
                assert(all_events(before) == all_events(before.drop_last()) + last.events);
                assert(i > 0);
                assert(all_events(before)[i - 1] == last.events[last.events.len() - 1]);
                assert(log.take(i as int)[i - 1] == log[i - 1]);
                assert(log[i - 1].at <= log[i as int].at);
                assert(local_day(last.events[last.events.len() - 1].at, zone@) == last.date);
                lemma_days_follow_instants(log[i - 1].at, event@.at, zone@);
            }
        }
        if count > 0 && groups[count - 1].date.same_day(&date) {
            let ghost old_group = groups@[count - 1];
            assert(before[count - 1] == old_group@);
            groups[count - 1].events.push(event.duplicate());
            proof {
                let after = group_views(groups@);
                assert(event_views(groups@[count - 1].events@) =~= old_group@.events.push(event@));
                assert(after[count - 1].events == before[count - 1].events.push(event@));
                assert(after[count - 1].date == before[count - 1].date);
                assert(after.drop_last() =~= before.drop_last());
                assert(all_events(after) =~= all_events(before).push(event@));
                assert forall|g: int| 0 <= g < after.len() implies (#[trigger] after[g]).date
                    == before[g].date && (g < count - 1 ==> after[g] == before[g]) by {
                    assert(groups@[g]@ == after[g]);
                }
                assert forall|g: int, k: int|
                    0 <= g < after.len() && 0 <= k < after[g].events.len() implies local_day(
                    (#[trigger] after[g].events[k]).at,
                    zone@,
                ) == after[g].date by {
                    if g < count - 1 {
                        assert(after[g] == before[g]);
                    } else if k < before[g].events.len() {
                        assert(after[g].events[k] == before[g].events[k]);
                    }
                }
            }
        } else {
            let group = DayEvents { date, events: vec![event.duplicate()] };
            proof {
                assert(event_views(group.events@) =~= seq![event@]);
            }
            groups.push(group);
            proof {
                let after = group_views(groups@);
                assert(after =~= before.push(DayEventsView { date: date@, events: seq![event@] }));
                assert(after.drop_last() =~= before);
                assert(all_events(after) =~= all_events(before).push(event@));
                assert forall|g: int, k: int|
                    0 <= g < after.len() && 0 <= k < after[g].events.len() implies local_day(
                    (#[trigger] after[g].events[k]).at,
                    zone@,
                ) == after[g].date by {
                    if g < count {
                        assert(after[g] == before[g]);
                    }
                }
                assert forall|g: int, h: int| 0 <= g < h < after.len() implies (
                #[trigger] after[g]).date < (#[trigger] after[h]).date by {
                    assert(after[g] == before[g]);
                    if h < count {
                        assert(after[h] == before[h]);
                    } else {
                        if g < count - 1 {
                            assert(before[g].date < before[count - 1].date);
                        }
                    }
                }
            }
        }
        i = i + 1;
    }
    proof {
        assert(log.take(sorted.len() as int) == log);
    }
    groups
}

impl TimeTable {
    /// All events of the ledger, bucket by bucket in storage order: for each
    /// bucket the events of its sessions, then its break markers.
    pub fn events(&self) -> (events: Vec<ClockEvent>)
        ensures
            event_views(events@) == ledger_events(self@),
    {
        let days: &Vec<Day> = self.days();
        let ghost views = day_views(days@);
        let mut events: Vec<ClockEvent> = Vec::new();
        let mut i: usize = 0;
        proof {
            assert(event_views(events@) =~= ledger_events(views.take(0)));
        }
        while i < days.len()
            invariant
                i <= days.len(),
                views == day_views(days@),
                event_views(events@) == ledger_events(views.take(i as int)),
            decreases days.len() - i,
        {
            let ghost before = event_views(events@);
            let mut more: Vec<ClockEvent> = days[i].events();
            let ghost added = event_views(more@);
            events.append(&mut more);
            proof {
                assert(views.take(i + 1).drop_last() == views.take(i as int));
                assert(views.take(i + 1).last() == days@[i as int]@);
                assert(event_views(events@) =~= before + added);
            }
            i = i + 1;
        }
        assert(views.take(days.len() as int) == views);
        events
    }

    /// Groups the ledger's events by the calendar day on which each happened,
    /// as a clock in `zone` shows it, whatever bucket they are stored in: one
    /// group per day on which something happened, the days in ascending order,
    /// each day's events in chronological order.
    pub fn group_by_day(&self, zone: UtcOffset) -> (groups: Vec<DayEvents>)
        ensures
            grouped_by_day(group_views(groups@), ledger_events(self@), zone@),
    {
        let events: Vec<ClockEvent> = self.events();
        group_events_by_day(&events, zone)
    }
}

} // verus!
