//! Rain-jacket commute alerts: the rules behind the weather screen, the
//! off-day jacket view and the departure alerts, with their contracts.
//!
//! - `clock`: dates, times of day and instants as plain values, and the Oslo
//!   time-zone conversions.
//! - `text`: substring search on UTF-8 text.
//! - `clients`: forecast slots, weather classification, commute windows, the
//!   jacket view (`spans` merges wet stretches) and push messages.
//! - `alert_days`: the weekly alert schedule.
//! - `cron`: when the alert job ticks, who is due, and the steps of one alert.
//! - `features`: the first weather client and alert job.
use vstd::prelude::*;

pub mod alert_days;
pub mod clients;
pub mod clock;
pub mod cron;
pub mod features;
pub mod text;

verus! {
} // verus!
