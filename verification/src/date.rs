//! Calendar dates as day numbers, read from text by `chrono`.

use vstd::prelude::*;
use crate::error::StoreError;
use crate::text::texts_of;

verus! {

/// The day number that `chrono::NaiveDate::parse_from_str` reads out of `text`
/// under the strftime pattern `format`, or `None` where it reports an error.
pub uninterp spec fn chrono_day_number(text: Seq<char>, format: Seq<char>) -> Option<i32>;

/// Calls `chrono::NaiveDate::parse_from_str` under the canonical pattern and
/// hands back the parsed date as its day number (`Datelike::num_days_from_ce`:
/// January 1 of year 1 is day 1). The contract only names that result: which
/// texts chrono accepts, and as which day, is taken from chrono and not
/// restated here. What is trusted is that the call returns for every text, and
/// gives the same answer for the same text.
#[verifier::external_body]
fn parse_day_number(text: &str, format: &str) -> (r: Option<i32>)
    requires
        format@ == canonical_format(),
    ensures
        r == chrono_day_number(text@, format@),
{
    match chrono::NaiveDate::parse_from_str(text, format) {
        Ok(d) => Some(chrono::Datelike::num_days_from_ce(&d)),
        Err(_) => None,
    }
}

/// The pattern of the canonical date form, year-month-day.
pub open spec fn canonical_format() -> Seq<char> {
    "%Y-%m-%d"@
}

/// The day that a stored text stands for, if it reads as a date at all.
pub open spec fn day_of_text(text: Seq<char>) -> Option<int> {
    match chrono_day_number(text, canonical_format()) {
        Some(d) => Some(d as int),
        None => None,
    }
}

/// A calendar date, held as the number of days since the start of the Common Era.
#[derive(Clone, Copy, Debug, PartialEq, Eq, Structural)]
pub struct Date {
    days: i32,
}

impl View for Date {
    type V = int;

    closed spec fn view(&self) -> int {
        self.days as int
    }
}

impl Date {
    /// The day number of a date is one that `i32` holds.
    pub proof fn day_number_fits(self)
        ensures
            i32::MIN <= self@ <= i32::MAX,
    {
    }

    /// The date with the given day number.
    pub fn from_days_from_ce(days: i32) -> (d: Date)
        ensures
            d@ == days,
    {
        Date { days }
    }

    /// The day number of this date.
    pub fn days_from_ce(&self) -> (days: i32)
        ensures
            days == self@,
    {
        self.days
    }

    /// The day before this one, as long as its number can still be held.
    pub fn pred(&self) -> (r: Option<Date>)
        ensures
            r is Some <==> self@ > i32::MIN,
            r matches Some(p) ==> p@ == self@ - 1,
    {
        if self.days > i32::MIN {
            Some(Date { days: self.days - 1 })
        } else {
            None
        }
    }

    /// Reads a date in the canonical form, year-month-day. A text that does
    /// not read as one is a parse error.
    pub fn parse(text: &str) -> (r: Result<Date, StoreError>)
        ensures
            match r {
                Ok(date) => day_of_text(text@) == Some(date@),
                Err(e) => e == StoreError::ParseError && day_of_text(text@) is None,
            },
    {
        match parse_day_number(text, "%Y-%m-%d") {
            Some(days) => Ok(Date { days }),
            None => Err(StoreError::ParseError),
        }
    }
}

/// The day numbers of a list of dates, in its order.
pub open spec fn day_numbers(dates: Seq<Date>) -> Seq<int> {
    dates.map_values(|d: Date| d@)
}

/// The days that the readable ones among `texts` stand for, in the order of
/// the texts. A text that does not read as a date leaves no trace.
pub open spec fn readable_days(texts: Seq<Seq<char>>) -> Seq<int>
    decreases texts.len(),
{
    if texts.len() == 0 {
        Seq::empty()
    } else {
        match day_of_text(texts.last()) {
            Some(day) => readable_days(texts.drop_last()).push(day),
            None => readable_days(texts.drop_last()),
        }
    }
}

/// The set of days that some text among `texts` stands for.
pub open spec fn days_read_from(texts: Seq<Seq<char>>) -> Set<int> {
    Set::new(
        |day: int| exists|i: int| 0 <= i < texts.len() && day_of_text(#[trigger] texts[i]) == Some(day),
    )
}

/// A day is among the readable days exactly if one of the texts stands for
/// it, and there are no more readable days than texts.
pub proof fn readable_days_are_days_read(texts: Seq<Seq<char>>)
    ensures
        readable_days(texts).len() <= texts.len(),
        readable_days(texts).to_set() == days_read_from(texts),
    decreases texts.len(),
{
    let days = readable_days(texts);
    if texts.len() == 0 {
        assert(days.to_set() =~= days_read_from(texts));
    } else {
        let front = texts.drop_last();
        readable_days_are_days_read(front);
        assert forall|day: int| days.to_set().contains(day) <==> days_read_from(texts).contains(
            day,
        ) by {
            let earlier = readable_days(front);
            if days.contains(day) {
                let j = choose|j: int| 0 <= j < days.len() && days[j] == day;
                if j < earlier.len() {
                    assert(earlier[j] == day);
                    assert(earlier.to_set().contains(day));
                    let i = choose|i: int|
                        0 <= i < front.len() && day_of_text(#[trigger] front[i]) == Some(day);
                    assert(texts[i] == front[i]);
                } else {
                    assert(day_of_text(texts[texts.len() - 1]) == Some(day));
                }
            }
            if days_read_from(texts).contains(day) {
                let i = choose|i: int|
                    0 <= i < texts.len() && day_of_text(#[trigger] texts[i]) == Some(day);
                if i < front.len() {
                    assert(front[i] == texts[i]);
                    assert(days_read_from(front).contains(day));
                    assert(earlier.contains(day));
                    let j = choose|j: int| 0 <= j < earlier.len() && earlier[j] == day;
                    assert(days[j] == day);
                } else {
                    assert(days[days.len() - 1] == day);
                }
            }
        }
        assert(days.to_set() =~= days_read_from(texts));
    }
}

/// Which days are read from a list of texts depends neither on their order
/// nor on how often a text stands in it.
pub proof fn days_read_ignore_order(a: Seq<Seq<char>>, b: Seq<Seq<char>>)
    requires
        a.to_multiset() == b.to_multiset(),
    ensures
        days_read_from(a) == days_read_from(b),
{
    assert forall|day: int| days_read_from(a).contains(day) <==> days_read_from(b).contains(
        day,
    ) by {
        if days_read_from(a).contains(day) {
            let i = choose|i: int| 0 <= i < a.len() && day_of_text(#[trigger] a[i]) == Some(day);
            assert(a.contains(a[i]));
            vstd::seq_lib::to_multiset_contains(a, a[i]);
            vstd::seq_lib::to_multiset_contains(b, a[i]);
            let j = choose|j: int| 0 <= j < b.len() && b[j] == a[i];
            assert(day_of_text(b[j]) == Some(day));
        }
        if days_read_from(b).contains(day) {
            let i = choose|i: int| 0 <= i < b.len() && day_of_text(#[trigger] b[i]) == Some(day);
            assert(b.contains(b[i]));
            vstd::seq_lib::to_multiset_contains(b, b[i]);
            vstd::seq_lib::to_multiset_contains(a, b[i]);
            let j = choose|j: int| 0 <= j < a.len() && a[j] == b[i];
            assert(day_of_text(a[j]) == Some(day));
        }
    }
    assert(days_read_from(a) =~= days_read_from(b));
}

/// What reading a list of stored dates gives.
pub struct ParsedDates {
    /// The dates that could be read, in the order of the list.
    pub dates: Vec<Date>,
    /// How many texts of the list could not be read and were passed over.
    pub skipped: usize,
}

/// Reads each text as a date in the canonical form. A text that does not read
/// is passed over and counted, and the rest is read all the same.
pub fn parse_dates(texts: &Vec<String>) -> (parsed: ParsedDates)
    ensures
        day_numbers(parsed.dates@) == readable_days(texts_of(texts@)),
        parsed.dates.len() + parsed.skipped == texts.len(),
{
    let mut dates: Vec<Date> = Vec::new();
    let mut skipped: usize = 0;
    let mut i: usize = 0;
    let ghost all = texts_of(texts@);
    proof {
        assert(all.take(0) =~= Seq::empty());
        assert(day_numbers(dates@) =~= Seq::empty());
    }
    while i < texts.len()
        invariant
            i <= texts.len(),
            all == texts_of(texts@),
            day_numbers(dates@) == readable_days(all.take(i as int)),
            dates.len() + skipped == i,
        decreases texts.len() - i,
    {
        proof {
            assert(all.take(i + 1).drop_last() =~= all.take(i as int));
            assert(all.take(i + 1).last() == texts[i as int]@);
        }
        match Date::parse(texts[i].as_str()) {
            Ok(date) => {
                let ghost so_far = dates@;
                dates.push(date);
                proof {
                    assert(day_numbers(dates@) =~= day_numbers(so_far).push(date@));
                }
            },
            Err(_) => {
                skipped += 1;
            },
        }
        i += 1;
    }
    proof {
        assert(all.take(i as int) =~= all);
    }
    ParsedDates { dates, skipped }
}

} // verus!
