//! What the store is asked: summaries, histories, counts and streaks, by the
//! name of a habit.

use vstd::prelude::*;
use crate::date::{days_read_from, days_read_ignore_order, Date};
use crate::error::StoreError;
use crate::model::{HabitModel, StoreModel};
use crate::store::{habit_rows, Store};
use crate::streak::{calculate_streak, is_current_streak, streak_of};
use crate::text::{is_latest, texts_of};

verus! {

/// One line of the overview: a habit, its current streak and the latest day on
/// which it was completed.
#[derive(Clone, Debug, PartialEq, Eq)]
pub struct HabitSummary {
    pub name: String,
    pub streak: u64,
    /// `None` while the habit has no completion.
    pub last_completion: Option<String>,
}

/// `summary` says of `habit` what the store holds on `today`.
pub open spec fn summarizes(
    summary: HabitSummary,
    store: StoreModel,
    habit: HabitModel,
    today: int,
) -> bool {
    &&& summary.name@ == habit.name
    &&& summary.streak == streak_of(days_read_from(store.dates_of(habit.id)), today)
    &&& is_current_streak(
        days_read_from(store.dates_of(habit.id)),
        today,
        summary.streak as nat,
    )
    &&& match summary.last_completion {
        Some(date) => is_latest(date@, store.dates_of(habit.id)),
        None => store.dates_of(habit.id).len() == 0,
    }
}

/// The dates on which the habit of this name was completed, the latest first.
pub fn history(store: &Store, name: &str) -> (r: Result<Vec<String>, StoreError>)
    ensures
        match r {
            Ok(dates) => store@.has_name(name@) && crate::model::is_history(
                texts_of(dates@),
                store@.dates_of(store@.habit_named(name@).id),
            ),
            Err(e) => e == StoreError::NotFound && !store@.has_name(name@),
        },
{
    store.completion_dates(name)
}

/// How often the habit of this name was completed, all days together.
pub fn report(store: &Store, name: &str) -> (r: Result<usize, StoreError>)
    ensures
        match r {
            Ok(count) => store@.has_name(name@) && count == store@.dates_of(
                store@.habit_named(name@).id,
            ).len(),
            Err(e) => e == StoreError::NotFound && !store@.has_name(name@),
        },
{
    store.completion_count(name)
}

/// The current streak of the habit of this name: the number of days in a row,
/// ending with `today`, on which it was completed.
pub fn streak(store: &Store, name: &str, today: Date) -> (r: Result<u64, StoreError>)
    ensures
        match r {
            Ok(days) => store@.has_name(name@) && days == streak_of(
                days_read_from(store@.dates_of(store@.habit_named(name@).id)),
                today@,
            ) && is_current_streak(
                days_read_from(store@.dates_of(store@.habit_named(name@).id)),
                today@,
                days as nat,
            ),
            Err(e) => e == StoreError::NotFound && !store@.has_name(name@),
        },
{
    match store.completion_dates(name) {
        Ok(dates) => {
            proof {
                days_read_ignore_order(
                    texts_of(dates@),
                    store@.dates_of(store@.habit_named(name@).id),
                );
            }
            Ok(calculate_streak(&dates, today))
        },
        Err(e) => Err(e),
    }
}

/// The overview of all habits, in the order in which they were created: each
/// with its current streak on `today` and its latest completion.
pub fn habit_summaries(store: &Store, today: Date) -> (summaries: Vec<HabitSummary>)
    ensures
        summaries.len() == store@.habits.len(),
        forall|i: int|
            0 <= i < summaries.len() ==> summarizes(
                #[trigger] summaries[i],
                store@,
                store@.habits[i],
                today@,
            ),
{
    proof {
        use_type_invariant(store);
    }
    let habits = store.habits();
    let mut summaries: Vec<HabitSummary> = Vec::new();
    let mut i: usize = 0;
    while i < habits.len()
        invariant
            i <= habits.len(),
            habit_rows(habits@) == store@.habits,
            store@.wf(),
            summaries.len() == i,
            forall|j: int|
                0 <= j < i ==> summarizes(#[trigger] summaries[j], store@, store@.habits[j], today@),
        decreases habits.len() - i,
    {
        let name = habits[i].name.clone();
        proof {
            assert(store@.habits[i as int] == habits[i as int]@);
            store@.position_is_unique(name@, i as int);
        }
        let days = match streak(store, name.as_str(), today) {
            Ok(days) => days,
            Err(_) => 0,
        };
        let last_completion = match store.last_completion_date(name.as_str()) {
            Ok(last) => last,
            Err(_) => None,
        };
        summaries.push(HabitSummary { name, streak: days, last_completion });
        i += 1;
    }
    summaries
}

/// Records that the habit of this name was completed on `date`, and returns
/// the identifier of the new completion.
pub fn complete(store: &mut Store, name: &str, date: &str) -> (r: Result<i64, StoreError>)
    ensures
        r == old(store)@.complete_outcome(name@),
        final(store)@ == old(store)@.complete(name@, date@),
        final(store)@.wf(),
{
    match store.find_habit_id(name) {
        Ok(id) => store.record_completion(id, date),
        Err(e) => {
            proof {
                use_type_invariant(&*store);
            }
            Err(e)
        },
    }
}

} // verus!
