use habit_tracker::{calculate_streak, contains_date, current_streak, parse_dates, Date, StoreError};

fn day(text: &str) -> Date {
    Date::parse(text).unwrap()
}

fn texts(dates: &[&str]) -> Vec<String> {
    dates.iter().map(|d| d.to_string()).collect()
}

#[test]
fn parse_gives_the_day_number() {
    assert_eq!(day("2023-01-02").days_from_ce(), 738522);
    assert_eq!(day("2023-01-01").days_from_ce(), 738521);
    assert_eq!(day("1970-01-01").days_from_ce(), 719163);
    assert_eq!(day("0001-01-01").days_from_ce(), 1);
    assert_eq!(day("2024-02-29").days_from_ce(), 738945);
}

#[test]
fn parse_rejects_what_is_no_date() {
    assert_eq!(Date::parse("yesterday"), Err(StoreError::ParseError));
    assert_eq!(Date::parse(""), Err(StoreError::ParseError));
    assert_eq!(Date::parse("2023-02-30"), Err(StoreError::ParseError));
    assert_eq!(Date::parse("2023-13-01"), Err(StoreError::ParseError));
    assert_eq!(Date::parse("2023/01/02"), Err(StoreError::ParseError));
    assert_eq!(Date::parse("2023-01-02 10:00"), Err(StoreError::ParseError));
}

#[test]
fn parse_agrees_with_chrono() {
    let date = chrono::NaiveDate::from_ymd_opt(2024, 3, 15).unwrap();
    assert_eq!(day("2024-03-15").days_from_ce(), chrono::Datelike::num_days_from_ce(&date));
    assert_eq!(day("2024-03-15").days_from_ce(), 738960);
}

#[test]
fn date_from_days_and_back() {
    assert_eq!(Date::from_days_from_ce(738960), day("2024-03-15"));
    assert_eq!(Date::from_days_from_ce(-5).days_from_ce(), -5);
}

#[test]
fn pred_is_the_day_before() {
    assert_eq!(day("2024-03-01").pred(), Some(day("2024-02-29")));
    assert_eq!(day("2023-01-01").pred(), Some(day("2022-12-31")));
    assert_eq!(Date::from_days_from_ce(i32::MIN).pred(), None);
    assert_eq!(
        Date::from_days_from_ce(i32::MIN + 1).pred(),
        Some(Date::from_days_from_ce(i32::MIN))
    );
}

#[test]
fn contains_date_finds_a_day() {
    let dates = vec![day("2024-03-15"), day("2024-03-13")];
    assert!(contains_date(&dates, day("2024-03-13")));
    assert!(!contains_date(&dates, day("2024-03-14")));
    assert!(!contains_date(&Vec::new(), day("2024-03-14")));
}

#[test]
fn streak_of_three_days_in_a_row() {
    let today = day("2024-03-15");
    let dates = vec![day("2024-03-15"), day("2024-03-14"), day("2024-03-13")];
    assert_eq!(current_streak(&dates, today), 3);
}

#[test]
fn streak_is_zero_when_today_is_missing() {
    let today = day("2024-03-15");
    assert_eq!(current_streak(&vec![day("2024-03-14")], today), 0);
    let run = vec![day("2024-03-14"), day("2024-03-13"), day("2024-03-12")];
    assert_eq!(current_streak(&run, today), 0);
}

#[test]
fn streak_of_no_dates_is_zero() {
    assert_eq!(current_streak(&Vec::new(), day("2024-03-15")), 0);
}

#[test]
fn streak_stops_at_the_first_gap() {
    let today = day("2024-03-15");
    let dates = vec![
        day("2024-03-15"),
        day("2024-03-14"),
        day("2024-03-12"),
        day("2024-03-11"),
    ];
    assert_eq!(current_streak(&dates, today), 2);
}

#[test]
fn streak_ignores_order_and_repetition() {
    let today = day("2024-03-15");
    let dates = vec![
        day("2024-03-13"),
        day("2024-03-15"),
        day("2024-03-15"),
        day("2024-03-14"),
        day("2024-03-13"),
    ];
    assert_eq!(current_streak(&dates, today), 3);
}

#[test]
fn streak_ignores_days_after_today() {
    let today = day("2024-03-15");
    let dates = vec![day("2024-03-16"), day("2024-03-15")];
    assert_eq!(current_streak(&dates, today), 1);
    assert_eq!(current_streak(&vec![day("2024-03-16")], today), 0);
}

#[test]
fn streak_crosses_months_and_leap_days() {
    let today = day("2024-03-01");
    let dates = vec![day("2024-03-01"), day("2024-02-29"), day("2024-02-28")];
    assert_eq!(current_streak(&dates, today), 3);
}

#[test]
fn streak_ends_at_the_first_day_there_is() {
    let first = Date::from_days_from_ce(i32::MIN);
    let second = Date::from_days_from_ce(i32::MIN + 1);
    assert_eq!(current_streak(&vec![first, second], second), 2);
    assert_eq!(current_streak(&vec![first], first), 1);
}

#[test]
fn parse_dates_skips_and_counts_what_does_not_read() {
    let parsed = parse_dates(&texts(&["2024-03-15", "soon", "2024-03-14", ""]));
    assert_eq!(parsed.dates, vec![day("2024-03-15"), day("2024-03-14")]);
    assert_eq!(parsed.skipped, 2);
    let none = parse_dates(&Vec::new());
    assert_eq!(none.dates, Vec::new());
    assert_eq!(none.skipped, 0);
}

#[test]
fn calculate_streak_reads_stored_dates() {
    let today = day("2024-03-15");
    let stored = texts(&["2024-03-15", "2024-03-14", "2024-03-13"]);
    assert_eq!(calculate_streak(&stored, today), 3);
    assert_eq!(calculate_streak(&texts(&["2024-03-14"]), today), 0);
    assert_eq!(calculate_streak(&Vec::new(), today), 0);
}

#[test]
fn calculate_streak_passes_over_unreadable_dates() {
    let today = day("2024-03-15");
    let stored = texts(&["2024-03-15", "not a date", "2024-03-14"]);
    assert_eq!(calculate_streak(&stored, today), 2);
    assert_eq!(calculate_streak(&texts(&["not a date"]), today), 0);
}
