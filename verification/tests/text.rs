use habit_tracker::text::{same_text, sort_descending, text_at_most};

fn texts(dates: &[&str]) -> Vec<String> {
    dates.iter().map(|d| d.to_string()).collect()
}

#[test]
fn same_text_compares_whole_texts() {
    assert!(same_text("gym", "gym"));
    assert!(same_text("", ""));
    assert!(!same_text("gym", "Gym"));
    assert!(!same_text("gym", "gy"));
    assert!(!same_text("gym", "gyms"));
    assert!(same_text("läufen", "läufen"));
    assert!(!same_text("läufen", "laufen"));
}

#[test]
fn text_order_is_that_of_the_bytes() {
    assert!(text_at_most("2023-01-01", "2023-01-02"));
    assert!(!text_at_most("2023-01-02", "2023-01-01"));
    assert!(text_at_most("2023-01-01", "2023-01-01"));
    assert!(text_at_most("2022-12-31", "2023-01-01"));
    assert!(text_at_most("", "a"));
    assert!(!text_at_most("a", ""));
    assert!(text_at_most("2023-01", "2023-01-01"));
    assert!(!text_at_most("2023-01-01", "2023-01"));
    assert!(text_at_most("Z", "a"));
    assert!(text_at_most("z", "é"));
}

#[test]
fn text_order_agrees_with_std() {
    let samples = ["", "a", "ab", "b", "2023-01-01", "2023-1-1", "é", "z", "Z"];
    for a in samples {
        for b in samples {
            assert_eq!(text_at_most(a, b), a <= b);
            assert_eq!(same_text(a, b), a == b);
        }
    }
}

#[test]
fn sort_descending_puts_the_latest_first() {
    let sorted = sort_descending(texts(&["2023-01-02", "2023-03-01", "2022-12-31", "2023-01-10"]));
    assert_eq!(sorted, texts(&["2023-03-01", "2023-01-10", "2023-01-02", "2022-12-31"]));
}

#[test]
fn sort_descending_keeps_repeated_texts() {
    let sorted = sort_descending(texts(&["b", "a", "b", "c", "a"]));
    assert_eq!(sorted, texts(&["c", "b", "b", "a", "a"]));
    assert_eq!(sort_descending(Vec::new()), Vec::<String>::new());
    assert_eq!(sort_descending(texts(&["x"])), texts(&["x"]));
}
