//! The record of one user action: clocking in, clocking out, or taking a break.

use crate::time::Instant;
use vstd::prelude::*;

verus! {

/// What the user did.
#[derive(Clone, Copy, Debug, PartialEq, Eq, Structural)]
pub enum EventKind {
    ClockIn,
    ClockOut,
    Break,
}

/// One timestamped action, optionally tagged with a project. No project is a
/// label of its own: it matches only other events without a project.
#[derive(Clone, Debug, PartialEq, Eq)]
pub struct ClockEvent {
    pub timestamp: Instant,
    pub kind: EventKind,
    pub project: Option<String>,
}

/// The mathematical content of a [`ClockEvent`].
pub struct EventView {
    /// Nanoseconds since the epoch.
    pub at: int,
    pub kind: EventKind,
    pub project: Option<Seq<char>>,
}

/// The characters of a project label, if there is one.
pub open spec fn label_view(label: Option<String>) -> Option<Seq<char>> {
    match label {
        Some(name) => Some(name@),
        None => None,
    }
}

impl View for ClockEvent {
    type V = EventView;

    open spec fn view(&self) -> EventView {
        EventView { at: self.timestamp@, kind: self.kind, project: label_view(self.project) }
    }
}

/// The contents of a list of events, element by element.
pub open spec fn event_views(events: Seq<ClockEvent>) -> Seq<EventView> {
    events.map_values(|e: ClockEvent| e@)
}

/// Whether two project labels are the same label. Two absent labels are the
/// same; an absent label differs from every name.
pub fn same_project(a: &Option<String>, b: &Option<String>) -> (same: bool)
    ensures
        same == (label_view(*a) == label_view(*b)),
{
    match (a, b) {
        (None, None) => true,
        (Some(x), Some(y)) => *x == *y,
        _ => false,
    }
}

/// A copy of a project label.
pub fn copy_project(label: &Option<String>) -> (copy: Option<String>)
    ensures
        copy == *label,
{
    match label {
        Some(name) => Some(name.clone()),
        None => None,
    }
}

impl ClockEvent {
    /// A copy of this event.
    pub fn duplicate(&self) -> (copy: ClockEvent)
        ensures
            copy == *self,
    {
        ClockEvent {
            timestamp: self.timestamp,
            kind: self.kind,
            project: copy_project(&self.project),
        }
    }
}

} // verus!
