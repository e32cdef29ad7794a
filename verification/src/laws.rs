//! What holds of the store whatever it contains.

use vstd::prelude::*;
use crate::error::StoreError;
use crate::model::{rows_without_properties, StoreModel};

verus! {

/// Creating a habit twice under one name gives a conflict the second time and
/// changes nothing then: the store holds exactly one habit of that name. This
/// is so whether or not the name was there before the first call, as long as
/// the first call did not fail for want of an identifier.
pub proof fn creating_twice_is_a_conflict(
    store: StoreModel,
    name: Seq<char>,
    first_at: Seq<char>,
    second_at: Seq<char>,
)
    requires
        store.wf(),
        name.len() > 0,
        store.create_habit_outcome(name) != Err::<i64, StoreError>(StoreError::StorageUnavailable),
    ensures
        store.create_habit(name, first_at).create_habit_outcome(name) == Err::<i64, StoreError>(
            StoreError::Conflict,
        ),
        store.create_habit(name, first_at).create_habit(name, second_at) == store.create_habit(
            name,
            first_at,
        ),
        store.create_habit(name, first_at).holds_once(name),
{
    let once = store.create_habit(name, first_at);
    store.create_habit_keeps_wf(name, first_at);
    if store.has_name(name) {
        assert(once == store);
    } else {
        assert(once.habits[store.habits.len() as int].name == name);
    }
    assert(once.has_name(name));
    let at = once.position(name);
    assert forall|j: int| 0 <= j < once.habits.len() && (#[trigger] once.habits[j]).name
        == name implies j == at by {
        once.position_is_unique(name, j);
    }
}

/// A name that no habit has is not found: not to rename, not to delete, not
/// to complete, and the store stays as it is.
pub proof fn absent_name_is_not_found(
    store: StoreModel,
    name: Seq<char>,
    new_name: Seq<char>,
    date: Seq<char>,
)
    requires
        !store.has_name(name),
    ensures
        store.find_habit_id(name) == Err::<i64, StoreError>(StoreError::NotFound),
        store.rename_habit_outcome(name, new_name) == Err::<(), StoreError>(StoreError::NotFound),
        store.rename_habit(name, new_name) == store,
        store.delete_habit(name) == store,
        store.complete_outcome(name) == Err::<i64, StoreError>(StoreError::NotFound),
        store.complete(name, date) == store,
{
}

/// Deleting a habit takes its name and its identifier out of the store, and
/// with them every completion that belonged to it; the completions of the
/// other habits stay as they were.
pub proof fn deleting_leaves_no_trace(store: StoreModel, name: Seq<char>)
    requires
        store.wf(),
        store.has_name(name),
    ensures
        !store.delete_habit(name).has_name(name),
        store.delete_habit(name).find_habit_id(name) == Err::<i64, StoreError>(
            StoreError::NotFound,
        ),
        !store.delete_habit(name).has_id(store.habit_named(name).id),
        forall|k: int|
            0 <= k < store.delete_habit(name).completions.len() ==> (
            #[trigger] store.delete_habit(name).completions[k]).habit_id != store.habit_named(
                name,
            ).id,
        store.delete_habit(name).dates_of(store.habit_named(name).id) == Seq::<Seq<char>>::empty(),
        forall|other: i64|
            other != store.habit_named(name).id ==> #[trigger] store.delete_habit(name).dates_of(
                other,
            ) == store.dates_of(other),
{
    let after = store.delete_habit(name);
    let at = store.position(name);
    let id = store.habit_named(name).id;
    rows_without_properties(store.completions, id);
    assert forall|i: int| 0 <= i < after.habits.len() implies (#[trigger] after.habits[i]).name
        != name && after.habits[i].id != id by {
        let from = if i < at { i } else { i + 1 };
        assert(after.habits[i] == store.habits[from]);
        if from < at {
            assert(store.habits[from].name != store.habits[at].name);
            assert(store.habits[from].id != store.habits[at].id);
        } else {
            assert(store.habits[at].name != store.habits[from].name);
            assert(store.habits[at].id != store.habits[from].id);
        }
    }
}

/// A completion that is recorded adds its date at the end of the dates of its
/// habit, also where the habit has that date already, and leaves the dates of
/// every other habit alone.
pub proof fn recording_appends_the_date(store: StoreModel, habit_id: i64, date: Seq<char>)
    requires
        store.record_completion_outcome(habit_id) is Ok,
    ensures
        store.record_completion(habit_id, date).dates_of(habit_id) == store.dates_of(habit_id).push(
            date,
        ),
        forall|other: i64|
            other != habit_id ==> #[trigger] store.record_completion(habit_id, date).dates_of(other)
                == store.dates_of(other),
{
    let after = store.record_completion(habit_id, date);
    assert(after.completions.drop_last() =~= store.completions);
}

/// Renaming changes the name and nothing else: the habit is found under its
/// new name with the identifier that it had, no longer under the old one, and
/// its completions are those that it had.
pub proof fn renaming_keeps_the_habit(store: StoreModel, old_name: Seq<char>, new_name: Seq<char>)
    requires
        store.wf(),
        new_name.len() > 0,
        store.rename_habit_outcome(old_name, new_name) is Ok,
    ensures
        store.rename_habit(old_name, new_name).find_habit_id(new_name) == store.find_habit_id(
            old_name,
        ),
        new_name != old_name ==> !store.rename_habit(old_name, new_name).has_name(old_name),
        store.rename_habit(old_name, new_name).completions == store.completions,
        store.rename_habit(old_name, new_name).habit_named(new_name).created_at
            == store.habit_named(old_name).created_at,
{
    let after = store.rename_habit(old_name, new_name);
    let at = store.position(old_name);
    store.rename_habit_keeps_wf(old_name, new_name);
    assert(after.habits[at].name == new_name);
    after.position_is_unique(new_name, at);
    if new_name != old_name {
        assert forall|i: int| 0 <= i < after.habits.len() implies (#[trigger] after.habits[i]).name
            != old_name by {
            if i != at {
                store.position_is_unique(store.habits[i].name, i);
            }
        }
    }
}

} // verus!
