//! The current streak: how many days in a row, ending today, were completed.

use vstd::prelude::*;
use crate::date::{day_numbers, days_read_from, parse_dates, readable_days_are_days_read, Date};
use crate::text::texts_of;

verus! {

/// The days on which any of `dates` falls.
pub open spec fn days_of(dates: Seq<Date>) -> Set<int> {
    day_numbers(dates).to_set()
}

/// Each of the `n` days that end with `today` is in `days`.
pub open spec fn unbroken_run(days: Set<int>, today: int, n: nat) -> bool {
    forall|day: int| today - n < day <= today ==> #[trigger] days.contains(day)
}

/// `n` is the current streak: the `n` days up to and including `today` are all
/// in `days`, and the day before them is not. A streak of zero says no more
/// than that `today` itself is missing.
pub open spec fn is_current_streak(days: Set<int>, today: int, n: nat) -> bool {
    unbroken_run(days, today, n) && !days.contains(today - n)
}

/// The current streak of `days` on `today`: the one number that
/// `is_current_streak` holds of. Every set of days that does not reach back
/// without end has one.
pub open spec fn streak_of(days: Set<int>, today: int) -> nat {
    choose|n: nat| is_current_streak(days, today, n)
}

/// A set of days has at most one current streak.
pub proof fn streak_is_unique(days: Set<int>, today: int, n: nat, m: nat)
    requires
        is_current_streak(days, today, n),
        is_current_streak(days, today, m),
    ensures
        n == m,
{
    if n < m {
        assert(days.contains(today - n));
    } else if m < n {
        assert(days.contains(today - m));
    }
}

/// A number that is a current streak is the current streak.
pub proof fn streak_of_is(days: Set<int>, today: int, n: nat)
    requires
        is_current_streak(days, today, n),
    ensures
        streak_of(days, today) == n,
{
    streak_is_unique(days, today, n, streak_of(days, today));
}

/// Without a completion today the streak is zero, whatever came before, and
/// with one it is at least one.
pub proof fn streak_is_zero_iff_today_is_missing(days: Set<int>, today: int, n: nat)
    requires
        is_current_streak(days, today, n),
    ensures
        n == 0 <==> !days.contains(today),
{
    if n > 0 {
        assert(days.contains(today));
    }
}

/// No completions, no streak.
pub proof fn streak_of_no_days(today: int)
    ensures
        streak_of(Set::<int>::empty(), today) == 0,
{
    streak_of_is(Set::<int>::empty(), today, 0);
}

/// Yesterday alone does not count: the streak ends on `today` or not at all.
pub proof fn streak_of_yesterday_alone(today: int)
    ensures
        streak_of(set![today - 1], today) == 0,
{
    streak_of_is(set![today - 1], today, 0);
}

/// Today and the two days before it make a streak of three.
pub proof fn streak_of_three_days(today: int)
    ensures
        streak_of(set![today, today - 1, today - 2], today) == 3,
{
    let days = set![today, today - 1, today - 2];
    assert forall|day: int| today - 3 < day <= today implies #[trigger] days.contains(day) by {
        assert(day == today || day == today - 1 || day == today - 2);
    }
    streak_of_is(days, today, 3);
}

/// Whether one of `dates` falls on the day of `day`.
pub fn contains_date(dates: &Vec<Date>, day: Date) -> (found: bool)
    ensures
        found == days_of(dates@).contains(day@),
{
    let mut i: usize = 0;
    while i < dates.len()
        invariant
            i <= dates.len(),
            forall|j: int| 0 <= j < i ==> (#[trigger] dates[j])@ != day@,
        decreases dates.len() - i,
    {
        if dates[i].days_from_ce() == day.days_from_ce() {
            assert(day_numbers(dates@)[i as int] == day@);
            return true;
        }
        i += 1;
    }
    false
}

/// Counts the consecutive days, ending with `today`, on which one of `dates`
/// falls. Order and repetition in `dates` play no part.
pub fn current_streak(dates: &Vec<Date>, today: Date) -> (streak: u64)
    ensures
        is_current_streak(days_of(dates@), today@, streak as nat),
        streak == streak_of(days_of(dates@), today@),
{
    let streak = count_back(dates, today);
    proof {
        streak_of_is(days_of(dates@), today@, streak as nat);
    }
    streak
}

/// Walks back from `today` for as long as the day is among `dates`.
fn count_back(dates: &Vec<Date>, today: Date) -> (streak: u64)
    ensures
        is_current_streak(days_of(dates@), today@, streak as nat),
{
    let mut streak: u64 = 0;
    let mut cursor = today;
    proof {
        today.day_number_fits();
    }
    while contains_date(dates, cursor)
        invariant
            cursor@ == today@ - streak,
            i32::MIN <= cursor@ <= i32::MAX,
            i32::MIN <= today@ <= i32::MAX,
            unbroken_run(days_of(dates@), today@, streak as nat),
        decreases cursor@ - i32::MIN,
    {
        proof {
            cursor.day_number_fits();
        }
        streak += 1;
        match cursor.pred() {
            Some(day) => {
                cursor = day;
            },
            None => {
                assert forall|i: int| 0 <= i < dates.len() implies (#[trigger] dates[i])@ != today@
                    - streak by {
                    dates[i].day_number_fits();
                }
                return streak;
            },
        }
    }
    streak
}

/// The current streak of a habit whose completions were stored under the given
/// dates. A stored date that does not read as one is passed over.
pub fn calculate_streak(dates: &Vec<String>, today: Date) -> (streak: u64)
    ensures
        is_current_streak(days_read_from(texts_of(dates@)), today@, streak as nat),
        streak == streak_of(days_read_from(texts_of(dates@)), today@),
{
    let parsed = parse_dates(dates);
    proof {
        readable_days_are_days_read(texts_of(dates@));
    }
    current_streak(&parsed.dates, today)
}

} // verus!
