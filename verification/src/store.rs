//! The entity store: four typed tables held in memory, with the row
//! invariants every operation preserves.
//!
//! The store is constructed explicitly and handed to callers; each service
//! operation is a method on it. Primary keys are unique within each table,
//! and a habit has at most one completion mark per calendar day.

use crate::records::{Habit, HabitCompletion, PomodoroCycle, PomodoroSession};
use vstd::prelude::*;

verus! {

/// The abstract contents of a store: one sequence of rows per table.
#[verifier::ext_equal]
pub struct StoreView {
    pub habits: Seq<Habit>,
    pub completions: Seq<HabitCompletion>,
    pub cycles: Seq<PomodoroCycle>,
    pub sessions: Seq<PomodoroSession>,
}

/// The entity store behind every engine operation.
pub struct Store {
    pub habits: Vec<Habit>,
    pub completions: Vec<HabitCompletion>,
    pub cycles: Vec<PomodoroCycle>,
    pub sessions: Vec<PomodoroSession>,
}

impl View for Store {
    type V = StoreView;

    open spec fn view(&self) -> StoreView {
        StoreView {
            habits: self.habits@,
            completions: self.completions@,
            cycles: self.cycles@,
            sessions: self.sessions@,
        }
    }
}

/// Whether some habit row carries this id.
pub open spec fn has_habit_id(s: Seq<Habit>, id: Seq<char>) -> bool {
    exists|i: int| 0 <= i < s.len() && s[i].id@ == id
}

/// Whether some completion row carries this id.
pub open spec fn has_completion_id(s: Seq<HabitCompletion>, id: Seq<char>) -> bool {
    exists|i: int| 0 <= i < s.len() && s[i].id@ == id
}

/// Whether some completion row marks this habit on this day.
pub open spec fn has_completion_mark(
    s: Seq<HabitCompletion>,
    habit_id: Seq<char>,
    day: Seq<char>,
) -> bool {
    exists|i: int| 0 <= i < s.len() && s[i].habit_id@ == habit_id && s[i].created_at@ == day
}

/// Whether some cycle row carries this id.
pub open spec fn has_cycle_id(s: Seq<PomodoroCycle>, id: Seq<char>) -> bool {
    exists|i: int| 0 <= i < s.len() && s[i].id@ == id
}

/// Whether some session row carries this id.
pub open spec fn has_session_id(s: Seq<PomodoroSession>, id: Seq<char>) -> bool {
    exists|i: int| 0 <= i < s.len() && s[i].id@ == id
}

impl Store {
    /// Row invariants: primary keys are unique per table, and a habit has at
    /// most one completion mark per calendar day.
    pub open spec fn wf(self) -> bool {
        &&& forall|i: int, j: int|
            0 <= i < j < self@.habits.len() ==> self@.habits[i].id@ != self@.habits[j].id@
        &&& forall|i: int, j: int|
            0 <= i < j < self@.completions.len() ==> self@.completions[i].id@
                != self@.completions[j].id@
        &&& forall|i: int, j: int|
            0 <= i < j < self@.completions.len() ==> !(self@.completions[i].habit_id@
                == self@.completions[j].habit_id@ && self@.completions[i].created_at@
                == self@.completions[j].created_at@)
        &&& forall|i: int, j: int|
            0 <= i < j < self@.cycles.len() ==> self@.cycles[i].id@ != self@.cycles[j].id@
        &&& forall|i: int, j: int|
            0 <= i < j < self@.sessions.len() ==> self@.sessions[i].id@ != self@.sessions[j].id@
    }

    /// An empty store.
    pub fn new() -> (r: Store)
        ensures
            r.wf(),
            r@.habits.len() == 0,
            r@.completions.len() == 0,
            r@.cycles.len() == 0,
            r@.sessions.len() == 0,
    {
        Store { habits: Vec::new(), completions: Vec::new(), cycles: Vec::new(), sessions: Vec::new() }
    }
}

} // verus!
