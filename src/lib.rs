//! Rule evaluation and monitoring core for an unattended trip watcher.
//!
//! The library parses scraped trip listings, evaluates user rules against
//! each trip, resolves the highest-priority action and drives the polling
//! state machine that decides when to scrape, alert or claim a trip.

pub mod monitor;
pub mod rules;
pub mod scan;
pub mod temporal;
pub mod trip;

pub use temporal::{month_from_str, Date, ParseDateError, ParseTimeError, Time};
pub use trip::{parse_trip_line, parse_trips, skipped_records, Field, ParseTripError, Trip};
pub use rules::{resolve_action, BotAction, Filter, FilterType, Op, Rule};
pub use monitor::{Action, AppState, BotConfig, BotMessage, Draws, Event, Monitor, Phase};
