//! Habit tracking: a store of named habits and their dated completions, and the
//! streak of consecutive days derived from them.
//!
//! The store lives in memory. Whoever keeps it on disk loads its rows with
//! [`Store::from_rows`], and writes back what an operation has changed.

pub mod date;
pub mod error;
pub mod laws;
pub mod model;
pub mod query;
pub mod store;
pub mod streak;
pub mod text;

pub use crate::date::{parse_dates, Date, ParsedDates};
pub use crate::error::StoreError;
pub use crate::query::{complete, habit_summaries, history, report, streak, HabitSummary};
pub use crate::store::{Completion, Habit, Store};
pub use crate::streak::{calculate_streak, contains_date, current_streak};
