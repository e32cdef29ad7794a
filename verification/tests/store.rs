use habit_tracker::{Completion, Habit, Store, StoreError};

const NOW: &str = "2024-03-15 08:00:00";

fn habit(id: i64, name: &str) -> Habit {
    Habit { id, name: name.to_string(), created_at: NOW.to_string() }
}

fn completion(id: i64, habit_id: i64, date: &str) -> Completion {
    Completion { id, habit_id, date: date.to_string() }
}

fn texts(dates: &[&str]) -> Vec<String> {
    dates.iter().map(|d| d.to_string()).collect()
}

#[test]
fn new_store_is_empty() {
    let store = Store::new();
    assert!(store.habits().is_empty());
    assert!(store.completions().is_empty());
    assert_eq!(store.list_habits(), Vec::<String>::new());
}

#[test]
fn create_gives_identifiers_in_turn() {
    let mut store = Store::new();
    assert_eq!(store.create_habit("read", NOW), Ok(1));
    assert_eq!(store.create_habit("gym", NOW), Ok(2));
    assert_eq!(store.create_habit("walk", "later"), Ok(3));
    assert_eq!(store.habits(), &vec![habit(1, "read"), habit(2, "gym"), Habit {
        id: 3,
        name: "walk".to_string(),
        created_at: "later".to_string(),
    }]);
    assert_eq!(store.list_habits(), texts(&["read", "gym", "walk"]));
}

#[test]
fn create_twice_is_a_conflict() {
    let mut store = Store::new();
    assert_eq!(store.create_habit("x", NOW), Ok(1));
    assert_eq!(store.create_habit("x", NOW), Err(StoreError::Conflict));
    assert_eq!(store.create_habit("x", "another time"), Err(StoreError::Conflict));
    let names = store.list_habits();
    assert_eq!(names.iter().filter(|n| n.as_str() == "x").count(), 1);
    assert_eq!(store.habits(), &vec![habit(1, "x")]);
}

#[test]
fn names_differ_by_case() {
    let mut store = Store::new();
    assert_eq!(store.create_habit("Gym", NOW), Ok(1));
    assert_eq!(store.create_habit("gym", NOW), Ok(2));
    assert_eq!(store.find_habit_id("GYM"), Err(StoreError::NotFound));
}

#[test]
fn create_takes_the_identifier_above_the_largest() {
    let mut store = Store::from_rows(vec![habit(7, "a"), habit(3, "b")], Vec::new()).unwrap();
    assert_eq!(store.create_habit("c", NOW), Ok(8));
    let mut low = Store::from_rows(vec![habit(-4, "a")], Vec::new()).unwrap();
    assert_eq!(low.create_habit("c", NOW), Ok(1));
}

#[test]
fn create_fails_when_identifiers_run_out() {
    let mut store = Store::from_rows(vec![habit(i64::MAX, "last")], Vec::new()).unwrap();
    assert_eq!(store.create_habit("more", NOW), Err(StoreError::StorageUnavailable));
    assert_eq!(store.create_habit("last", NOW), Err(StoreError::Conflict));
    assert_eq!(store.habits(), &vec![habit(i64::MAX, "last")]);
}

#[test]
fn find_habit_id_by_name() {
    let mut store = Store::new();
    store.create_habit("read", NOW).unwrap();
    store.create_habit("gym", NOW).unwrap();
    assert_eq!(store.find_habit_id("gym"), Ok(2));
    assert_eq!(store.find_habit_id("read"), Ok(1));
    assert_eq!(store.find_habit_id("swim"), Err(StoreError::NotFound));
    assert_eq!(store.find_habit_id(""), Err(StoreError::NotFound));
}

#[test]
fn rename_keeps_identifier_and_completions() {
    let mut store = Store::new();
    store.create_habit("read", NOW).unwrap();
    store.create_habit("gym", NOW).unwrap();
    store.record_completion(1, "2023-01-01").unwrap();
    assert_eq!(store.rename_habit("read", "books"), Ok(()));
    assert_eq!(store.find_habit_id("books"), Ok(1));
    assert_eq!(store.find_habit_id("read"), Err(StoreError::NotFound));
    assert_eq!(store.list_habits(), texts(&["books", "gym"]));
    assert_eq!(store.habits()[0], habit(1, "books"));
    assert_eq!(store.completion_dates("books"), Ok(texts(&["2023-01-01"])));
}

#[test]
fn rename_of_an_absent_habit_is_not_found() {
    let mut store = Store::new();
    store.create_habit("read", NOW).unwrap();
    assert_eq!(store.rename_habit("gym", "sport"), Err(StoreError::NotFound));
    assert_eq!(store.rename_habit("gym", "read"), Err(StoreError::NotFound));
    assert_eq!(store.list_habits(), texts(&["read"]));
}

#[test]
fn rename_to_a_taken_name_is_a_conflict() {
    let mut store = Store::new();
    store.create_habit("read", NOW).unwrap();
    store.create_habit("gym", NOW).unwrap();
    assert_eq!(store.rename_habit("read", "gym"), Err(StoreError::Conflict));
    assert_eq!(store.list_habits(), texts(&["read", "gym"]));
    assert_eq!(store.rename_habit("read", "read"), Ok(()));
    assert_eq!(store.list_habits(), texts(&["read", "gym"]));
}

#[test]
fn record_completion_appends_without_dedup() {
    let mut store = Store::new();
    store.create_habit("y", NOW).unwrap();
    assert_eq!(store.record_completion(1, "2023-01-01"), Ok(1));
    assert_eq!(store.record_completion(1, "2023-01-01"), Ok(2));
    assert_eq!(store.record_completion(1, "whenever"), Ok(3));
    assert_eq!(store.completions(), &vec![
        completion(1, 1, "2023-01-01"),
        completion(2, 1, "2023-01-01"),
        completion(3, 1, "whenever"),
    ]);
    assert_eq!(store.completion_count("y"), Ok(3));
}

#[test]
fn record_completion_needs_a_live_habit() {
    let mut store = Store::new();
    store.create_habit("y", NOW).unwrap();
    assert_eq!(store.record_completion(2, "2023-01-01"), Err(StoreError::NotFound));
    assert!(store.completions().is_empty());
}

#[test]
fn record_completion_fails_when_identifiers_run_out() {
    let mut store =
        Store::from_rows(vec![habit(1, "y")], vec![completion(i64::MAX, 1, "2023-01-01")]).unwrap();
    assert_eq!(store.record_completion(1, "2023-01-02"), Err(StoreError::StorageUnavailable));
    assert_eq!(store.completion_count("y"), Ok(1));
}

#[test]
fn delete_removes_the_habit_and_its_completions() {
    let mut store = Store::new();
    store.create_habit("read", NOW).unwrap();
    store.create_habit("gym", NOW).unwrap();
    store.record_completion(1, "2023-01-01").unwrap();
    store.record_completion(2, "2023-01-01").unwrap();
    store.record_completion(1, "2023-01-02").unwrap();
    assert_eq!(store.delete_habit("read"), Ok(1));
    assert_eq!(store.find_habit_id("read"), Err(StoreError::NotFound));
    assert_eq!(store.completion_dates("read"), Err(StoreError::NotFound));
    assert_eq!(store.habits(), &vec![habit(2, "gym")]);
    assert_eq!(store.completions(), &vec![completion(2, 2, "2023-01-01")]);
    assert!(store.completions().iter().all(|c| c.habit_id != 1));
    assert_eq!(store.completion_dates("gym"), Ok(texts(&["2023-01-01"])));
}

#[test]
fn delete_of_an_absent_habit_is_not_found() {
    let mut store = Store::new();
    store.create_habit("read", NOW).unwrap();
    store.record_completion(1, "2023-01-01").unwrap();
    assert_eq!(store.delete_habit("gym"), Err(StoreError::NotFound));
    assert_eq!(store.habits(), &vec![habit(1, "read")]);
    assert_eq!(store.completions(), &vec![completion(1, 1, "2023-01-01")]);
}

#[test]
fn a_deleted_name_can_be_created_again_without_old_completions() {
    let mut store = Store::new();
    store.create_habit("read", NOW).unwrap();
    store.record_completion(1, "2023-01-01").unwrap();
    store.delete_habit("read").unwrap();
    assert_eq!(store.create_habit("read", NOW), Ok(1));
    assert_eq!(store.completion_dates("read"), Ok(Vec::new()));
    assert_eq!(store.completion_count("read"), Ok(0));
}

#[test]
fn completion_dates_come_latest_first() {
    let mut store = Store::new();
    store.create_habit("read", NOW).unwrap();
    store.create_habit("gym", NOW).unwrap();
    store.record_completion(1, "2023-01-02").unwrap();
    store.record_completion(2, "2023-06-01").unwrap();
    store.record_completion(1, "2023-03-01").unwrap();
    store.record_completion(1, "2022-12-31").unwrap();
    store.record_completion(1, "2023-01-02").unwrap();
    assert_eq!(
        store.completion_dates("read"),
        Ok(texts(&["2023-03-01", "2023-01-02", "2023-01-02", "2022-12-31"]))
    );
    assert_eq!(store.completion_dates("gym"), Ok(texts(&["2023-06-01"])));
    assert_eq!(store.completion_dates("swim"), Err(StoreError::NotFound));
}

#[test]
fn completion_dates_of_a_habit_without_completions_are_empty() {
    let mut store = Store::new();
    store.create_habit("read", NOW).unwrap();
    assert_eq!(store.completion_dates("read"), Ok(Vec::new()));
    assert_eq!(store.last_completion_date("read"), Ok(None));
    assert_eq!(store.completion_count("read"), Ok(0));
}

#[test]
fn last_completion_date_is_the_latest() {
    let mut store = Store::new();
    store.create_habit("read", NOW).unwrap();
    store.record_completion(1, "2023-01-02").unwrap();
    assert_eq!(store.last_completion_date("read"), Ok(Some("2023-01-02".to_string())));
    store.record_completion(1, "2023-03-01").unwrap();
    store.record_completion(1, "2022-12-31").unwrap();
    assert_eq!(store.last_completion_date("read"), Ok(Some("2023-03-01".to_string())));
    assert_eq!(store.last_completion_date("gym"), Err(StoreError::NotFound));
}

#[test]
fn completion_count_counts_one_habit() {
    let mut store = Store::new();
    store.create_habit("read", NOW).unwrap();
    store.create_habit("gym", NOW).unwrap();
    store.record_completion(1, "2023-01-01").unwrap();
    store.record_completion(2, "2023-01-01").unwrap();
    store.record_completion(1, "2023-01-02").unwrap();
    assert_eq!(store.completion_count("read"), Ok(2));
    assert_eq!(store.completion_count("gym"), Ok(1));
    assert_eq!(store.completion_count("swim"), Err(StoreError::NotFound));
}

#[test]
fn from_rows_takes_consistent_rows() {
    let store = Store::from_rows(
        vec![habit(5, "read"), habit(2, "gym")],
        vec![completion(9, 2, "2023-01-01"), completion(4, 5, "2023-01-02")],
    )
    .unwrap();
    assert_eq!(store.list_habits(), texts(&["read", "gym"]));
    assert_eq!(store.find_habit_id("gym"), Ok(2));
    assert_eq!(store.completion_dates("read"), Ok(texts(&["2023-01-02"])));
    assert_eq!(store.completions().len(), 2);
    assert!(Store::from_rows(Vec::new(), Vec::new()).is_some());
}

#[test]
fn from_rows_refuses_inconsistent_rows() {
    assert!(Store::from_rows(vec![habit(1, "a"), habit(2, "a")], Vec::new()).is_none());
    assert!(Store::from_rows(vec![habit(1, "a"), habit(1, "b")], Vec::new()).is_none());
    assert!(Store::from_rows(vec![habit(1, "")], Vec::new()).is_none());
    assert!(Store::from_rows(vec![habit(1, "a")], vec![completion(1, 2, "2023-01-01")]).is_none());
    assert!(Store::from_rows(Vec::new(), vec![completion(1, 1, "2023-01-01")]).is_none());
    assert!(Store::from_rows(
        vec![habit(1, "a")],
        vec![completion(1, 1, "2023-01-01"), completion(1, 1, "2023-01-02")]
    )
    .is_none());
}
