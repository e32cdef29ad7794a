//! The store as a mathematical value: two tables of rows, what makes them
//! consistent, and what each operation of the store does to them.

use vstd::prelude::*;
use crate::error::StoreError;
use crate::text::is_descending;

verus! {

/// A row of the table of habits.
pub struct HabitModel {
    pub id: i64,
    pub name: Seq<char>,
    pub created_at: Seq<char>,
}

/// A row of the table of completions.
pub struct CompletionModel {
    pub id: i64,
    pub habit_id: i64,
    pub date: Seq<char>,
}

/// Both tables, each in the order in which its rows were added.
pub struct StoreModel {
    pub habits: Seq<HabitModel>,
    pub completions: Seq<CompletionModel>,
}

/// The identifier that a table gives its next row: one more than the largest in
/// use, and 1 while none above zero is in use. It may lie beyond `i64`.
pub open spec fn next_id(ids: Seq<i64>) -> int
    decreases ids.len(),
{
    if ids.len() == 0 {
        1
    } else if ids.last() >= next_id(ids.drop_last()) {
        ids.last() + 1
    } else {
        next_id(ids.drop_last())
    }
}

/// The next identifier lies above every one in use, and not far above `i64`.
pub proof fn next_id_is_fresh(ids: Seq<i64>)
    ensures
        1 <= next_id(ids) <= i64::MAX + 1,
        forall|i: int| 0 <= i < ids.len() ==> #[trigger] ids[i] < next_id(ids),
    decreases ids.len(),
{
    if ids.len() > 0 {
        next_id_is_fresh(ids.drop_last());
        assert forall|i: int| 0 <= i < ids.len() implies #[trigger] ids[i] < next_id(ids) by {
            if i < ids.len() - 1 {
                assert(ids.drop_last()[i] == ids[i]);
            }
        }
    }
}

/// The dates of the rows that belong to one habit, in table order. A date
/// recorded twice stands twice.
pub open spec fn dates_of_rows(rows: Seq<CompletionModel>, habit_id: i64) -> Seq<Seq<char>>
    decreases rows.len(),
{
    if rows.len() == 0 {
        Seq::empty()
    } else if rows.last().habit_id == habit_id {
        dates_of_rows(rows.drop_last(), habit_id).push(rows.last().date)
    } else {
        dates_of_rows(rows.drop_last(), habit_id)
    }
}

/// `dates` is the history of what was recorded: the same dates, each as often
/// as it was recorded, the latest first.
pub open spec fn is_history(dates: Seq<Seq<char>>, recorded: Seq<Seq<char>>) -> bool {
    is_descending(dates) && dates.to_multiset() == recorded.to_multiset()
}

/// The rows that do not belong to one habit, in table order.
pub open spec fn rows_without(rows: Seq<CompletionModel>, habit_id: i64) -> Seq<CompletionModel>
    decreases rows.len(),
{
    if rows.len() == 0 {
        Seq::empty()
    } else if rows.last().habit_id == habit_id {
        rows_without(rows.drop_last(), habit_id)
    } else {
        rows_without(rows.drop_last(), habit_id).push(rows.last())
    }
}

/// Taking a habit's rows out leaves rows of the table, none of them that
/// habit's, and leaves every other habit its dates.
pub proof fn rows_without_properties(rows: Seq<CompletionModel>, habit_id: i64)
    ensures
        rows_without(rows, habit_id).len() <= rows.len(),
        forall|j: int|
            0 <= j < rows_without(rows, habit_id).len() ==> (#[trigger] rows_without(
                rows,
                habit_id,
            )[j]).habit_id != habit_id,
        forall|j: int|
            0 <= j < rows_without(rows, habit_id).len() ==> rows.contains(
                #[trigger] rows_without(rows, habit_id)[j],
            ),
        dates_of_rows(rows_without(rows, habit_id), habit_id) == Seq::<Seq<char>>::empty(),
        forall|other: i64|
            other != habit_id ==> #[trigger] dates_of_rows(rows_without(rows, habit_id), other)
                == dates_of_rows(rows, other),
    decreases rows.len(),
{
    if rows.len() > 0 {
        let front = rows.drop_last();
        let kept = rows_without(front, habit_id);
        rows_without_properties(front, habit_id);
        assert forall|j: int| 0 <= j < kept.len() implies rows.contains(#[trigger] kept[j]) by {
            assert(front.contains(kept[j]));
            let i = choose|i: int| 0 <= i < front.len() && front[i] == kept[j];
            assert(rows[i] == kept[j]);
        }
        if rows.last().habit_id != habit_id {
            let all = kept.push(rows.last());
            assert(all.drop_last() =~= kept);
            assert(rows[rows.len() - 1] == rows.last());
            assert forall|other: i64| other != habit_id implies #[trigger] dates_of_rows(
                all,
                other,
            ) == dates_of_rows(rows, other) by {
                assert(dates_of_rows(kept, other) == dates_of_rows(front, other));
            }
        } else {
            assert forall|other: i64| other != habit_id implies #[trigger] dates_of_rows(
                kept,
                other,
            ) == dates_of_rows(rows, other) by {
                assert(dates_of_rows(kept, other) == dates_of_rows(front, other));
            }
        }
    }
}

/// Taking a habit's rows out of rows with distinct identifiers leaves rows
/// with distinct identifiers.
pub proof fn rows_without_keeps_ids_distinct(rows: Seq<CompletionModel>, habit_id: i64)
    requires
        forall|i: int, j: int|
            0 <= i < j < rows.len() ==> (#[trigger] rows[i]).id != (#[trigger] rows[j]).id,
    ensures
        forall|i: int, j: int|
            0 <= i < j < rows_without(rows, habit_id).len() ==> (#[trigger] rows_without(
                rows,
                habit_id,
            )[i]).id != (#[trigger] rows_without(rows, habit_id)[j]).id,
    decreases rows.len(),
{
    if rows.len() > 0 {
        let front = rows.drop_last();
        let kept = rows_without(front, habit_id);
        assert forall|i: int, j: int| 0 <= i < j < front.len() implies (#[trigger] front[i]).id != (
        #[trigger] front[j]).id by {
            assert(rows[i].id != rows[j].id);
        }
        rows_without_keeps_ids_distinct(front, habit_id);
        rows_without_properties(front, habit_id);
        if rows.last().habit_id != habit_id {
            let all = kept.push(rows.last());
            assert forall|i: int, j: int| 0 <= i < j < all.len() implies (#[trigger] all[i]).id != (
            #[trigger] all[j]).id by {
                if j == kept.len() {
                    assert(front.contains(kept[i]));
                    let w = choose|w: int| 0 <= w < front.len() && front[w] == kept[i];
                    assert(rows[w].id != rows[rows.len() - 1].id);
                } else {
                    assert(kept[i].id != kept[j].id);
                }
            }
        }
    }
}

impl StoreModel {
    /// The store without rows.
    pub open spec fn empty() -> StoreModel {
        StoreModel { habits: Seq::empty(), completions: Seq::empty() }
    }

    /// The identifiers of the habits, in table order.
    pub open spec fn habit_ids(self) -> Seq<i64> {
        self.habits.map_values(|h: HabitModel| h.id)
    }

    /// The identifiers of the completions, in table order.
    pub open spec fn completion_ids(self) -> Seq<i64> {
        self.completions.map_values(|c: CompletionModel| c.id)
    }

    /// The names of the habits, in table order.
    pub open spec fn names(self) -> Seq<Seq<char>> {
        self.habits.map_values(|h: HabitModel| h.name)
    }

    /// Some habit has this name.
    pub open spec fn has_name(self, name: Seq<char>) -> bool {
        exists|i: int| 0 <= i < self.habits.len() && (#[trigger] self.habits[i]).name == name
    }

    /// Some habit has this identifier.
    pub open spec fn has_id(self, id: i64) -> bool {
        exists|i: int| 0 <= i < self.habits.len() && (#[trigger] self.habits[i]).id == id
    }

    /// Exactly one habit has this name.
    pub open spec fn holds_once(self, name: Seq<char>) -> bool {
        exists|i: int|
            {
                &&& 0 <= i < self.habits.len()
                &&& (#[trigger] self.habits[i]).name == name
                &&& forall|j: int|
                    0 <= j < self.habits.len() && (#[trigger] self.habits[j]).name == name ==> j
                        == i
            }
    }

    /// Where in the table the habit of this name stands.
    pub open spec fn position(self, name: Seq<char>) -> int {
        choose|i: int| 0 <= i < self.habits.len() && (#[trigger] self.habits[i]).name == name
    }

    /// The habit of this name.
    pub open spec fn habit_named(self, name: Seq<char>) -> HabitModel {
        self.habits[self.position(name)]
    }

    /// The dates of the completions of one habit, in the order in which they
    /// were recorded. A date recorded twice stands twice.
    pub open spec fn dates_of(self, habit_id: i64) -> Seq<Seq<char>> {
        dates_of_rows(self.completions, habit_id)
    }

    /// The tables are consistent: no name is empty, no name and no identifier
    /// stands twice, and every completion belongs to a habit of the table.
    pub open spec fn wf(self) -> bool {
        &&& forall|i: int| 0 <= i < self.habits.len() ==> (#[trigger] self.habits[i]).name.len() > 0
        &&& forall|i: int, j: int|
            0 <= i < j < self.habits.len() ==> (#[trigger] self.habits[i]).name
                != (#[trigger] self.habits[j]).name
        &&& forall|i: int, j: int|
            0 <= i < j < self.habits.len() ==> (#[trigger] self.habits[i]).id
                != (#[trigger] self.habits[j]).id
        &&& forall|i: int, j: int|
            0 <= i < j < self.completions.len() ==> (#[trigger] self.completions[i]).id
                != (#[trigger] self.completions[j]).id
        &&& forall|k: int|
            0 <= k < self.completions.len() ==> self.has_id(
                (#[trigger] self.completions[k]).habit_id,
            )
    }

    /// What looking a name up gives: the habit's identifier.
    pub open spec fn find_habit_id(self, name: Seq<char>) -> Result<i64, StoreError> {
        if self.has_name(name) {
            Ok(self.habit_named(name).id)
        } else {
            Err(StoreError::NotFound)
        }
    }

    /// What creating a habit gives: its new identifier, unless the name is
    /// taken or the table has used up its identifiers.
    pub open spec fn create_habit_outcome(self, name: Seq<char>) -> Result<i64, StoreError> {
        if self.has_name(name) {
            Err(StoreError::Conflict)
        } else if next_id(self.habit_ids()) > i64::MAX {
            Err(StoreError::StorageUnavailable)
        } else {
            Ok(next_id(self.habit_ids()) as i64)
        }
    }

    /// The store after creating a habit: one row more at the end of the table
    /// where that succeeds, the same store where it fails.
    pub open spec fn create_habit(self, name: Seq<char>, created_at: Seq<char>) -> StoreModel {
        match self.create_habit_outcome(name) {
            Ok(id) => StoreModel {
                habits: self.habits.push(HabitModel { id, name, created_at }),
                completions: self.completions,
            },
            Err(_) => self,
        }
    }

    /// What renaming gives: the old name must be there, and the new one must
    /// not belong to another habit.
    pub open spec fn rename_habit_outcome(self, old_name: Seq<char>, new_name: Seq<char>) -> Result<
        (),
        StoreError,
    > {
        if !self.has_name(old_name) {
            Err(StoreError::NotFound)
        } else if new_name != old_name && self.has_name(new_name) {
            Err(StoreError::Conflict)
        } else {
            Ok(())
        }
    }

    /// The store after renaming: the habit keeps its place, its identifier and
    /// its time of creation, and its completions.
    pub open spec fn rename_habit(self, old_name: Seq<char>, new_name: Seq<char>) -> StoreModel {
        match self.rename_habit_outcome(old_name, new_name) {
            Ok(_) => StoreModel {
                habits: self.habits.update(
                    self.position(old_name),
                    HabitModel { name: new_name, ..self.habit_named(old_name) },
                ),
                completions: self.completions,
            },
            Err(_) => self,
        }
    }

    /// The store after deleting a habit: its row is gone, and with it every
    /// completion that belonged to it. Both go, or neither does.
    pub open spec fn delete_habit(self, name: Seq<char>) -> StoreModel {
        match self.find_habit_id(name) {
            Ok(id) => StoreModel {
                habits: self.habits.remove(self.position(name)),
                completions: rows_without(self.completions, id),
            },
            Err(_) => self,
        }
    }

    /// What recording a completion gives: the identifier of the new row,
    /// unless no habit has `habit_id` or the table has used up its identifiers.
    pub open spec fn record_completion_outcome(self, habit_id: i64) -> Result<i64, StoreError> {
        if !self.has_id(habit_id) {
            Err(StoreError::NotFound)
        } else if next_id(self.completion_ids()) > i64::MAX {
            Err(StoreError::StorageUnavailable)
        } else {
            Ok(next_id(self.completion_ids()) as i64)
        }
    }

    /// The store after recording a completion: one row more at the end of the
    /// table, whether or not the habit has that date already.
    pub open spec fn record_completion(self, habit_id: i64, date: Seq<char>) -> StoreModel {
        match self.record_completion_outcome(habit_id) {
            Ok(id) => StoreModel {
                habits: self.habits,
                completions: self.completions.push(CompletionModel { id, habit_id, date }),
            },
            Err(_) => self,
        }
    }

    /// What completing a habit by name gives: what recording gives for the
    /// habit of that name.
    pub open spec fn complete_outcome(self, name: Seq<char>) -> Result<i64, StoreError> {
        match self.find_habit_id(name) {
            Ok(id) => self.record_completion_outcome(id),
            Err(e) => Err(e),
        }
    }

    /// The store after completing a habit by name.
    pub open spec fn complete(self, name: Seq<char>, date: Seq<char>) -> StoreModel {
        match self.find_habit_id(name) {
            Ok(id) => self.record_completion(id, date),
            Err(_) => self,
        }
    }

    /// In a consistent store a name is found at one place only.
    pub proof fn position_is_unique(self, name: Seq<char>, i: int)
        requires
            self.wf(),
            0 <= i < self.habits.len(),
            self.habits[i].name == name,
        ensures
            self.has_name(name),
            self.position(name) == i,
            self.habit_named(name) == self.habits[i],
    {
        let p = self.position(name);
        if p < i {
            assert(self.habits[p].name != self.habits[i].name);
        } else if i < p {
            assert(self.habits[i].name != self.habits[p].name);
        }
    }

    /// A habit's identifier is still in use after a change that keeps every
    /// habit's identifier at its place.
    proof fn has_id_carries_over(self, after: StoreModel, id: i64)
        requires
            self.has_id(id),
            after.habits.len() == self.habits.len(),
            forall|i: int|
                0 <= i < self.habits.len() ==> (#[trigger] after.habits[i]).id
                    == self.habits[i].id,
        ensures
            after.has_id(id),
    {
        let w = choose|w: int| 0 <= w < self.habits.len() && (#[trigger] self.habits[w]).id == id;
        assert(after.habits[w].id == id);
    }

    /// Creating a habit leaves the store consistent.
    pub proof fn create_habit_keeps_wf(self, name: Seq<char>, created_at: Seq<char>)
        requires
            self.wf(),
            name.len() > 0,
        ensures
            self.create_habit(name, created_at).wf(),
    {
        let after = self.create_habit(name, created_at);
        if let Ok(id) = self.create_habit_outcome(name) {
            next_id_is_fresh(self.habit_ids());
            assert forall|i: int| 0 <= i < self.habits.len() implies (#[trigger] self.habits[i]).id
                != id by {
                assert(self.habit_ids()[i] == self.habits[i].id);
            }
            assert forall|k: int| 0 <= k < after.completions.len() implies after.has_id(
                (#[trigger] after.completions[k]).habit_id,
            ) by {
                let hid = self.completions[k].habit_id;
                let w = choose|w: int|
                    0 <= w < self.habits.len() && (#[trigger] self.habits[w]).id == hid;
                assert(after.habits[w].id == hid);
            }
        }
    }

    /// Renaming a habit leaves the store consistent.
    pub proof fn rename_habit_keeps_wf(self, old_name: Seq<char>, new_name: Seq<char>)
        requires
            self.wf(),
            new_name.len() > 0,
        ensures
            self.rename_habit(old_name, new_name).wf(),
    {
        let after = self.rename_habit(old_name, new_name);
        if self.rename_habit_outcome(old_name, new_name) is Ok {
            let p = self.position(old_name);
            assert forall|i: int, j: int| 0 <= i < j < after.habits.len() implies (
            #[trigger] after.habits[i]).name != (#[trigger] after.habits[j]).name by {
                assert(self.habits[i].name != self.habits[j].name);
            }
            assert forall|k: int| 0 <= k < after.completions.len() implies after.has_id(
                (#[trigger] after.completions[k]).habit_id,
            ) by {
                self.has_id_carries_over(after, self.completions[k].habit_id);
            }
        }
    }

    /// Deleting a habit leaves the store consistent.
    pub proof fn delete_habit_keeps_wf(self, name: Seq<char>)
        requires
            self.wf(),
        ensures
            self.delete_habit(name).wf(),
    {
        let after = self.delete_habit(name);
        if let Ok(id) = self.find_habit_id(name) {
            let p = self.position(name);
            rows_without_properties(self.completions, id);
            rows_without_keeps_ids_distinct(self.completions, id);
            assert forall|i: int, j: int| 0 <= i < j < after.habits.len() implies (
            #[trigger] after.habits[i]).name != (#[trigger] after.habits[j]).name && after.habits[i].id
                != after.habits[j].id by {
                let a = if i < p { i } else { i + 1 };
                let b = if j < p { j } else { j + 1 };
                assert(self.habits[a].name != self.habits[b].name);
                assert(self.habits[a].id != self.habits[b].id);
            }
            assert forall|k: int| 0 <= k < after.completions.len() implies after.has_id(
                (#[trigger] after.completions[k]).habit_id,
            ) by {
                let row = after.completions[k];
                assert(self.completions.contains(row));
                let at = choose|at: int| 0 <= at < self.completions.len() && self.completions[at] == row;
                assert(self.has_id(self.completions[at].habit_id));
                let w = choose|w: int|
                    0 <= w < self.habits.len() && (#[trigger] self.habits[w]).id == row.habit_id;
                assert(w != p);
                let moved = if w < p { w } else { w - 1 };
                assert(after.habits[moved].id == row.habit_id);
            }
        }
    }

    /// Recording a completion leaves the store consistent.
    pub proof fn record_completion_keeps_wf(self, habit_id: i64, date: Seq<char>)
        requires
            self.wf(),
        ensures
            self.record_completion(habit_id, date).wf(),
    {
        let after = self.record_completion(habit_id, date);
        if let Ok(id) = self.record_completion_outcome(habit_id) {
            next_id_is_fresh(self.completion_ids());
            assert forall|i: int| 0 <= i < self.completions.len() implies (
            #[trigger] self.completions[i]).id != id by {
                assert(self.completion_ids()[i] == self.completions[i].id);
            }
            assert forall|k: int| 0 <= k < after.completions.len() implies after.has_id(
                (#[trigger] after.completions[k]).habit_id,
            ) by {
                let hid = after.completions[k].habit_id;
                if k < self.completions.len() {
                    assert(self.completions[k].habit_id == hid);
                }
                assert(self.has_id(hid));
                self.has_id_carries_over(after, hid);
            }
        }
    }
}

} // verus!
