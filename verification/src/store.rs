//! The store: the table of habits and the table of their completions, kept
//! consistent by every operation.

use vstd::prelude::*;
use crate::error::StoreError;
use crate::model::{
    dates_of_rows, is_history, next_id, rows_without, CompletionModel, HabitModel, StoreModel,
};
use crate::text::{
    is_latest, same_text, sort_descending, text_at_most, text_le, text_le_total,
    text_le_transitive, texts_of,
};

verus! {

/// A habit as the store holds it.
#[derive(Clone, Debug, PartialEq, Eq)]
pub struct Habit {
    /// Given by the store when the habit is created, and never changed.
    pub id: i64,
    /// Not empty, and no other habit's name.
    pub name: String,
    /// The time of creation, as the caller wrote it. Never changed.
    pub created_at: String,
}

impl View for Habit {
    type V = HabitModel;

    open spec fn view(&self) -> HabitModel {
        HabitModel { id: self.id, name: self.name@, created_at: self.created_at@ }
    }
}

/// One completion of a habit on one day.
#[derive(Clone, Debug, PartialEq, Eq)]
pub struct Completion {
    /// Given by the store when the completion is recorded.
    pub id: i64,
    /// The habit that was completed.
    pub habit_id: i64,
    /// The day, as text. The store keeps it as it was written.
    pub date: String,
}

impl View for Completion {
    type V = CompletionModel;

    open spec fn view(&self) -> CompletionModel {
        CompletionModel { id: self.id, habit_id: self.habit_id, date: self.date@ }
    }
}

/// The rows of a table of habits, as values.
pub open spec fn habit_rows(habits: Seq<Habit>) -> Seq<HabitModel> {
    habits.map_values(|h: Habit| h@)
}

/// The rows of a table of completions, as values.
pub open spec fn completion_rows(completions: Seq<Completion>) -> Seq<CompletionModel> {
    completions.map_values(|c: Completion| c@)
}

/// The store that holds exactly these rows.
pub open spec fn store_of_rows(habits: Seq<Habit>, completions: Seq<Completion>) -> StoreModel {
    StoreModel { habits: habit_rows(habits), completions: completion_rows(completions) }
}

/// Whether no habit has an empty name, and no two have the same name or the
/// same identifier.
fn habits_are_consistent(habits: &Vec<Habit>) -> (ok: bool)
    ensures
        ok <==> {
            &&& forall|i: int| 0 <= i < habits.len() ==> (#[trigger] habits[i]).name@.len() > 0
            &&& forall|i: int, j: int|
                0 <= i < j < habits.len() ==> (#[trigger] habits[i]).name@ != (
                #[trigger] habits[j]).name@
            &&& forall|i: int, j: int|
                0 <= i < j < habits.len() ==> (#[trigger] habits[i]).id != (#[trigger] habits[j]).id
        },
{
    let mut j: usize = 0;
    while j < habits.len()
        invariant
            j <= habits.len(),
            forall|i: int| 0 <= i < j ==> (#[trigger] habits[i]).name@.len() > 0,
            forall|a: int, b: int|
                0 <= a < b < j ==> (#[trigger] habits[a]).name@ != (#[trigger] habits[b]).name@,
            forall|a: int, b: int|
                0 <= a < b < j ==> (#[trigger] habits[a]).id != (#[trigger] habits[b]).id,
        decreases habits.len() - j,
    {
        if habits[j].name.as_str().is_empty() {
            return false;
        }
        let mut i: usize = 0;
        while i < j
            invariant
                i <= j < habits.len(),
                forall|a: int| 0 <= a < i ==> (#[trigger] habits[a]).name@ != habits[j as int].name@,
                forall|a: int| 0 <= a < i ==> (#[trigger] habits[a]).id != habits[j as int].id,
            decreases j - i,
        {
            if habits[i].id == habits[j].id || same_text(
                habits[i].name.as_str(),
                habits[j].name.as_str(),
            ) {
                return false;
            }
            i += 1;
        }
        j += 1;
    }
    true
}

/// Whether no two completions have the same identifier.
fn completions_are_distinct(completions: &Vec<Completion>) -> (ok: bool)
    ensures
        ok <==> forall|i: int, j: int|
            0 <= i < j < completions.len() ==> (#[trigger] completions[i]).id != (
            #[trigger] completions[j]).id,
{
    let mut j: usize = 0;
    while j < completions.len()
        invariant
            j <= completions.len(),
            forall|a: int, b: int|
                0 <= a < b < j ==> (#[trigger] completions[a]).id != (#[trigger] completions[b]).id,
        decreases completions.len() - j,
    {
        let mut i: usize = 0;
        while i < j
            invariant
                i <= j < completions.len(),
                forall|a: int|
                    0 <= a < i ==> (#[trigger] completions[a]).id != completions[j as int].id,
            decreases j - i,
        {
            if completions[i].id == completions[j].id {
                return false;
            }
            i += 1;
        }
        j += 1;
    }
    true
}

/// One of the habits has this identifier.
spec fn some_habit_has(habits: Seq<Habit>, id: i64) -> bool {
    exists|i: int| 0 <= i < habits.len() && (#[trigger] habits[i]).id == id
}

/// Whether one of the habits has this identifier.
fn habits_hold_id(habits: &Vec<Habit>, id: i64) -> (found: bool)
    ensures
        found <==> some_habit_has(habits@, id),
{
    let mut i: usize = 0;
    while i < habits.len()
        invariant
            i <= habits.len(),
            forall|j: int| 0 <= j < i ==> (#[trigger] habits[j]).id != id,
        decreases habits.len() - i,
    {
        if habits[i].id == id {
            return true;
        }
        i += 1;
    }
    false
}

/// Whether every completion belongs to one of the habits.
fn completions_have_habits(habits: &Vec<Habit>, completions: &Vec<Completion>) -> (ok: bool)
    ensures
        ok <==> forall|k: int|
            0 <= k < completions.len() ==> some_habit_has(
                habits@,
                (#[trigger] completions[k]).habit_id,
            ),
{
    let mut k: usize = 0;
    while k < completions.len()
        invariant
            k <= completions.len(),
            forall|c: int|
                0 <= c < k ==> some_habit_has(habits@, (#[trigger] completions[c]).habit_id),
        decreases completions.len() - k,
    {
        if !habits_hold_id(habits, completions[k].habit_id) {
            return false;
        }
        k += 1;
    }
    true
}

/// Habits and their completions. Whatever is done to a store, its tables stay
/// consistent.
pub struct Store {
    habits: Vec<Habit>,
    completions: Vec<Completion>,
}

impl View for Store {
    type V = StoreModel;

    closed spec fn view(&self) -> StoreModel {
        StoreModel {
            habits: habit_rows(self.habits@),
            completions: completion_rows(self.completions@),
        }
    }
}

impl Store {
    /// What holds of every store: its tables are consistent.
    #[verifier::type_invariant]
    pub open spec fn consistent(self) -> bool {
        self@.wf()
    }

    /// A store without habits.
    pub fn new() -> (store: Store)
        ensures
            store@ == StoreModel::empty(),
            store@.wf(),
    {
        let store = Store { habits: Vec::new(), completions: Vec::new() };
        assert(store@.habits =~= Seq::empty());
        assert(store@.completions =~= Seq::empty());
        store
    }

    /// The store that holds the given rows, or `None` where they are not
    /// consistent: an empty name, a name or an identifier that stands twice, or
    /// a completion of a habit that is not among them.
    pub fn from_rows(habits: Vec<Habit>, completions: Vec<Completion>) -> (r: Option<Store>)
        ensures
            r is Some <==> store_of_rows(habits@, completions@).wf(),
            r matches Some(store) ==> store@ == store_of_rows(habits@, completions@),
    {
        let ghost model = store_of_rows(habits@, completions@);
        proof {
            assert forall|i: int| 0 <= i < habits.len() implies (#[trigger] model.habits[i])
                == habits[i]@ by {}
            assert forall|k: int| 0 <= k < completions.len() implies (
            #[trigger] model.completions[k]) == completions[k]@ by {}
        }
        let ok = habits_are_consistent(&habits) && completions_are_distinct(&completions)
            && completions_have_habits(&habits, &completions);
        if ok {
            proof {
                assert forall|k: int| 0 <= k < model.completions.len() implies model.has_id(
                    (#[trigger] model.completions[k]).habit_id,
                ) by {
                    assert(some_habit_has(habits@, completions[k].habit_id));
                    let i = choose|i: int|
                        0 <= i < habits.len() && (#[trigger] habits[i]).id
                            == completions[k].habit_id;
                    assert(model.habits[i].id == completions[k].habit_id);
                }
                assert(model.wf());
            }
            Some(Store { habits, completions })
        } else {
            proof {
                if model.wf() {
                    assert forall|i: int| 0 <= i < habits.len() implies (
                    #[trigger] habits[i]).name@.len() > 0 by {
                        assert(model.habits[i].name.len() > 0);
                    }
                    assert forall|i: int, j: int| 0 <= i < j < habits.len() implies (
                    #[trigger] habits[i]).name@ != (#[trigger] habits[j]).name@ && habits[i].id
                        != habits[j].id by {
                        assert(model.habits[i].name != model.habits[j].name);
                        assert(model.habits[i].id != model.habits[j].id);
                    }
                    assert forall|i: int, j: int| 0 <= i < j < completions.len() implies (
                    #[trigger] completions[i]).id != (#[trigger] completions[j]).id by {
                        assert(model.completions[i].id != model.completions[j].id);
                    }
                    assert forall|k: int| 0 <= k < completions.len() implies some_habit_has(
                        habits@,
                        (#[trigger] completions[k]).habit_id,
                    ) by {
                        assert(model.has_id(model.completions[k].habit_id));
                        let i = choose|i: int|
                            0 <= i < model.habits.len() && (#[trigger] model.habits[i]).id
                                == model.completions[k].habit_id;
                        assert(habits[i].id == completions[k].habit_id);
                    }
                    assert(false);
                }
            }
            None
        }
    }

    /// Where the habit of this name stands in the table.
    fn locate(&self, name: &str) -> (r: Option<usize>)
        ensures
            r is Some <==> self@.has_name(name@),
            r matches Some(i) ==> i == self@.position(name@) && i < self.habits.len(),
    {
        proof {
            use_type_invariant(self);
        }
        let mut i: usize = 0;
        while i < self.habits.len()
            invariant
                i <= self.habits.len(),
                self@.wf(),
                forall|j: int| 0 <= j < i ==> (#[trigger] self@.habits[j]).name != name@,
            decreases self.habits.len() - i,
        {
            if same_text(self.habits[i].name.as_str(), name) {
                proof {
                    self@.position_is_unique(name@, i as int);
                }
                return Some(i);
            }
            i += 1;
        }
        None
    }

    /// The identifier for the next habit, if one is left.
    fn next_habit_id(&self) -> (r: Option<i64>)
        ensures
            r is Some <==> next_id(self@.habit_ids()) <= i64::MAX,
            r matches Some(id) ==> id == next_id(self@.habit_ids()),
    {
        let mut top: i64 = 0;
        let mut i: usize = 0;
        let ghost ids = self@.habit_ids();
        proof {
            assert(ids.take(0) =~= Seq::empty());
        }
        while i < self.habits.len()
            invariant
                i <= self.habits.len(),
                ids == self@.habit_ids(),
                ids.len() == self.habits.len(),
                top + 1 == next_id(ids.take(i as int)),
            decreases self.habits.len() - i,
        {
            proof {
                assert(ids.take(i + 1).drop_last() =~= ids.take(i as int));
                assert(ids.take(i + 1).last() == self.habits[i as int].id);
            }
            if self.habits[i].id > top {
                top = self.habits[i].id;
            }
            i += 1;
        }
        proof {
            assert(ids.take(i as int) =~= ids);
        }
        if top < i64::MAX {
            Some(top + 1)
        } else {
            None
        }
    }

    /// The identifier for the next completion, if one is left.
    fn next_completion_id(&self) -> (r: Option<i64>)
        ensures
            r is Some <==> next_id(self@.completion_ids()) <= i64::MAX,
            r matches Some(id) ==> id == next_id(self@.completion_ids()),
    {
        let mut top: i64 = 0;
        let mut i: usize = 0;
        let ghost ids = self@.completion_ids();
        proof {
            assert(ids.take(0) =~= Seq::empty());
        }
        while i < self.completions.len()
            invariant
                i <= self.completions.len(),
                ids == self@.completion_ids(),
                ids.len() == self.completions.len(),
                top + 1 == next_id(ids.take(i as int)),
            decreases self.completions.len() - i,
        {
            proof {
                assert(ids.take(i + 1).drop_last() =~= ids.take(i as int));
                assert(ids.take(i + 1).last() == self.completions[i as int].id);
            }
            if self.completions[i].id > top {
                top = self.completions[i].id;
            }
            i += 1;
        }
        proof {
            assert(ids.take(i as int) =~= ids);
        }
        if top < i64::MAX {
            Some(top + 1)
        } else {
            None
        }
    }

    /// Whether a habit has this identifier.
    fn holds_id(&self, id: i64) -> (found: bool)
        ensures
            found == self@.has_id(id),
    {
        let mut i: usize = 0;
        while i < self.habits.len()
            invariant
                i <= self.habits.len(),
                forall|j: int| 0 <= j < i ==> (#[trigger] self@.habits[j]).id != id,
            decreases self.habits.len() - i,
        {
            if self.habits[i].id == id {
                assert(self@.habits[i as int].id == id);
                return true;
            }
            i += 1;
        }
        false
    }

    /// Empties the store and hands out its two tables.
    fn take_rows(&mut self) -> (rows: (Vec<Habit>, Vec<Completion>))
        ensures
            rows.0 == old(self).habits,
            rows.1 == old(self).completions,
    {
        let mut taken = Store::new();
        core::mem::swap(self, &mut taken);
        let Store { habits, completions } = taken;
        (habits, completions)
    }

    /// The identifier of the habit of this name.
    pub fn find_habit_id(&self, name: &str) -> (r: Result<i64, StoreError>)
        ensures
            r == self@.find_habit_id(name@),
    {
        match self.locate(name) {
            Some(i) => Ok(self.habits[i].id),
            None => Err(StoreError::NotFound),
        }
    }

    /// Adds a habit of this name, created at the given time, and returns the
    /// identifier that the store gave it. A name that is taken is a conflict.
    pub fn create_habit(&mut self, name: &str, created_at: &str) -> (r: Result<i64, StoreError>)
        requires
            name@.len() > 0,
        ensures
            r == old(self)@.create_habit_outcome(name@),
            final(self)@ == old(self)@.create_habit(name@, created_at@),
            final(self)@.wf(),
    {
        proof {
            use_type_invariant(&*self);
        }
        if self.locate(name).is_some() {
            return Err(StoreError::Conflict);
        }
        let id = match self.next_habit_id() {
            Some(id) => id,
            None => {
                return Err(StoreError::StorageUnavailable);
            },
        };
        let ghost before = self@;
        let (mut habits, completions) = self.take_rows();
        let habit = Habit { id, name: name.to_owned(), created_at: created_at.to_owned() };
        habits.push(habit);
        proof {
            before.create_habit_keeps_wf(name@, created_at@);
            assert(habit_rows(habits@) =~= before.create_habit(name@, created_at@).habits);
        }
        *self = Store { habits, completions };
        Ok(id)
    }

    /// Gives the habit of the old name the new one. Its identifier, its time
    /// of creation and its completions stay. A new name that another habit
    /// has is a conflict.
    pub fn rename_habit(&mut self, old_name: &str, new_name: &str) -> (r: Result<(), StoreError>)
        requires
            new_name@.len() > 0,
        ensures
            r == old(self)@.rename_habit_outcome(old_name@, new_name@),
            final(self)@ == old(self)@.rename_habit(old_name@, new_name@),
            final(self)@.wf(),
    {
        proof {
            use_type_invariant(&*self);
        }
        let at = match self.locate(old_name) {
            Some(at) => at,
            None => {
                return Err(StoreError::NotFound);
            },
        };
        if !same_text(old_name, new_name) && self.locate(new_name).is_some() {
            return Err(StoreError::Conflict);
        }
        let ghost before = self@;
        let (mut habits, completions) = self.take_rows();
        let mut habit = habits.remove(at);
        habit.name = new_name.to_owned();
        habits.insert(at, habit);
        proof {
            before.rename_habit_keeps_wf(old_name@, new_name@);
            assert(habit_rows(habits@) =~= before.rename_habit(old_name@, new_name@).habits);
        }
        *self = Store { habits, completions };
        Ok(())
    }

    /// Records that the habit with this identifier was completed on `date`.
    /// The date is kept as written, and a date that the habit has already is
    /// recorded once more.
    pub fn record_completion(&mut self, habit_id: i64, date: &str) -> (r: Result<i64, StoreError>)
        ensures
            r == old(self)@.record_completion_outcome(habit_id),
            final(self)@ == old(self)@.record_completion(habit_id, date@),
            final(self)@.wf(),
    {
        proof {
            use_type_invariant(&*self);
        }
        if !self.holds_id(habit_id) {
            return Err(StoreError::NotFound);
        }
        let id = match self.next_completion_id() {
            Some(id) => id,
            None => {
                return Err(StoreError::StorageUnavailable);
            },
        };
        let ghost before = self@;
        let (habits, mut completions) = self.take_rows();
        completions.push(Completion { id, habit_id, date: date.to_owned() });
        proof {
            before.record_completion_keeps_wf(habit_id, date@);
            assert(completion_rows(completions@) =~= before.record_completion(
                habit_id,
                date@,
            ).completions);
        }
        *self = Store { habits, completions };
        Ok(id)
    }

    /// Deletes the habit of this name together with all its completions, and
    /// returns the identifier it had. Nothing is left half done: the store that
    /// comes out holds neither the habit nor any of its completions.
    pub fn delete_habit(&mut self, name: &str) -> (r: Result<i64, StoreError>)
        ensures
            r == old(self)@.find_habit_id(name@),
            final(self)@ == old(self)@.delete_habit(name@),
            final(self)@.wf(),
    {
        proof {
            use_type_invariant(&*self);
        }
        let at = match self.locate(name) {
            Some(at) => at,
            None => {
                return Err(StoreError::NotFound);
            },
        };
        let ghost before = self@;
        let (mut habits, completions) = self.take_rows();
        let habit = habits.remove(at);
        let id = habit.id;
        let mut kept: Vec<Completion> = Vec::new();
        proof {
            assert(completion_rows(completions@.take(0)) =~= Seq::empty());
            assert(completion_rows(kept@) =~= Seq::empty());
        }
        for row in rows: completions
            invariant
                rows.seq() == completions@,
                completion_rows(kept@) == rows_without(
                    completion_rows(completions@.take(rows.index() as int)),
                    id,
                ),
        {
            proof {
                let k = rows.index() as int;
                assert(completions@.take(k + 1).drop_last() =~= completions@.take(k));
                assert(completion_rows(completions@.take(k + 1)).drop_last() =~= completion_rows(
                    completions@.take(k),
                ));
            }
            if row.habit_id != id {
                let ghost so_far = kept@;
                kept.push(row);
                proof {
                    assert(completion_rows(kept@) =~= completion_rows(so_far).push(row@));
                }
            }
        }
        proof {
            assert(completions@.take(completions@.len() as int) =~= completions@);
            before.delete_habit_keeps_wf(name@);
            assert(habit_rows(habits@) =~= before.delete_habit(name@).habits);
        }
        *self = Store { habits, completions: kept };
        Ok(id)
    }

    /// The names of all habits, in the order in which they were created.
    pub fn list_habits(&self) -> (names: Vec<String>)
        ensures
            texts_of(names@) == self@.names(),
    {
        let mut names: Vec<String> = Vec::new();
        let mut i: usize = 0;
        while i < self.habits.len()
            invariant
                i <= self.habits.len(),
                texts_of(names@) =~= self@.names().take(i as int),
            decreases self.habits.len() - i,
        {
            let ghost so_far = names@;
            names.push(self.habits[i].name.clone());
            proof {
                assert(texts_of(names@) =~= texts_of(so_far).push(self@.names()[i as int]));
            }
            i += 1;
        }
        names
    }

    /// The dates of one habit's completions, in the order in which they were
    /// recorded.
    fn dates_recorded(&self, habit_id: i64) -> (dates: Vec<String>)
        ensures
            texts_of(dates@) == self@.dates_of(habit_id),
    {
        let mut dates: Vec<String> = Vec::new();
        let mut i: usize = 0;
        let ghost rows = self@.completions;
        proof {
            assert(rows.take(0) =~= Seq::empty());
            assert(texts_of(dates@) =~= Seq::empty());
        }
        while i < self.completions.len()
            invariant
                i <= self.completions.len(),
                rows == self@.completions,
                texts_of(dates@) == dates_of_rows(rows.take(i as int), habit_id),
            decreases self.completions.len() - i,
        {
            proof {
                assert(rows.take(i + 1).drop_last() =~= rows.take(i as int));
            }
            if self.completions[i].habit_id == habit_id {
                let ghost so_far = dates@;
                dates.push(self.completions[i].date.clone());
                proof {
                    assert(texts_of(dates@) =~= texts_of(so_far).push(rows[i as int].date));
                }
            }
            i += 1;
        }
        proof {
            assert(rows.take(i as int) =~= rows);
        }
        dates
    }

    /// All dates on which the habit of this name was completed, the latest
    /// first. A date recorded twice stands twice; a habit without completions
    /// gives the empty list.
    pub fn completion_dates(&self, name: &str) -> (r: Result<Vec<String>, StoreError>)
        ensures
            match r {
                Ok(dates) => self@.has_name(name@) && is_history(
                    texts_of(dates@),
                    self@.dates_of(self@.habit_named(name@).id),
                ),
                Err(e) => e == StoreError::NotFound && !self@.has_name(name@),
            },
    {
        match self.find_habit_id(name) {
            Ok(id) => Ok(sort_descending(self.dates_recorded(id))),
            Err(e) => Err(e),
        }
    }

    /// The latest date on which the habit of this name was completed, or
    /// `None` if it never was.
    pub fn last_completion_date(&self, name: &str) -> (r: Result<Option<String>, StoreError>)
        ensures
            match r {
                Ok(Some(date)) => self@.has_name(name@) && is_latest(
                    date@,
                    self@.dates_of(self@.habit_named(name@).id),
                ),
                Ok(None) => self@.has_name(name@) && self@.dates_of(
                    self@.habit_named(name@).id,
                ).len() == 0,
                Err(e) => e == StoreError::NotFound && !self@.has_name(name@),
            },
    {
        let id = match self.find_habit_id(name) {
            Ok(id) => id,
            Err(e) => {
                return Err(e);
            },
        };
        let mut dates = self.dates_recorded(id);
        let ghost all = texts_of(dates@);
        let ghost recorded = dates@;
        let mut latest = match dates.pop() {
            Some(date) => date,
            None => {
                return Ok(None);
            },
        };
        proof {
            text_le_total(latest@, latest@);
            assert(texts_of(recorded)[recorded.len() - 1] == latest@);
            assert(all[all.len() - 1] == latest@);
        }
        while dates.len() > 0
            invariant
                all.len() > dates.len(),
                texts_of(dates@) =~= all.take(dates.len() as int),
                all.contains(latest@),
                forall|i: int| dates.len() <= i < all.len() ==> text_le(#[trigger] all[i], latest@),
            decreases dates.len(),
        {
            let ghost before = dates@;
            let date = dates.pop().unwrap();
            proof {
                assert(texts_of(before)[before.len() - 1] == date@);
                assert(date@ == all[dates.len() as int]);
                text_le_total(date@, latest@);
            }
            if !text_at_most(date.as_str(), latest.as_str()) {
                proof {
                    assert forall|i: int| dates.len() <= i < all.len() implies text_le(
                        #[trigger] all[i],
                        date@,
                    ) by {
                        if i > dates.len() {
                            text_le_transitive(all[i], latest@, date@);
                        }
                    }
                }
                latest = date;
            }
        }
        Ok(Some(latest))
    }

    /// How many completions the habit of this name has.
    pub fn completion_count(&self, name: &str) -> (r: Result<usize, StoreError>)
        ensures
            match r {
                Ok(count) => self@.has_name(name@) && count == self@.dates_of(
                    self@.habit_named(name@).id,
                ).len(),
                Err(e) => e == StoreError::NotFound && !self@.has_name(name@),
            },
    {
        match self.find_habit_id(name) {
            Ok(id) => Ok(self.dates_recorded(id).len()),
            Err(e) => Err(e),
        }
    }

    /// The table of habits, in the order of creation.
    pub fn habits(&self) -> (rows: &Vec<Habit>)
        ensures
            habit_rows(rows@) == self@.habits,
    {
        &self.habits
    }

    /// The table of completions, in the order of recording.
    pub fn completions(&self) -> (rows: &Vec<Completion>)
        ensures
            completion_rows(rows@) == self@.completions,
    {
        &self.completions
    }
}

} // verus!
