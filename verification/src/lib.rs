//! A personal work-time ledger: clock-in, clock-out and break records grouped by
//! calendar day, the arithmetic that turns them into worked and break time, and
//! the rules for closing sessions that were left open.

pub mod aggregate;
pub mod clock_text;
pub mod event;
pub mod grouping;
pub mod ledger;
pub mod listing;
pub mod resolve;
pub mod time;
