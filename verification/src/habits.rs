//! The habit tracking service: habit CRUD, completion toggling, and the
//! streak computation.

use crate::dates::{date_text_wf, format_date, lemma_format_parse, lemma_parse_format, parse_date, Date};
use crate::records::{CreateHabitCompletion, EngineError, Habit, HabitCompletion, UpdateHabit};
use crate::runtime::{fresh_id, now_timestamp, today_utc};
use crate::seqs::{
    lemma_append_one_multiset, lemma_filter_all, lemma_filter_congruence,
    lemma_filter_distinct_keys, lemma_filter_in, lemma_filter_multiset_count, lemma_filter_one,
    lemma_insert_multiset,
};
use crate::store::{has_completion_id, has_completion_mark, has_habit_id, Store};
use crate::text::{lemma_lex_le_total, lemma_lex_le_trans, lex_le, str_eq, str_le};
use vstd::relations::sorted_by;
use vstd::prelude::*;

verus! {

/// Habits are listed most recently created first.
pub open spec fn habit_created_desc(a: Habit, b: Habit) -> bool {
    lex_le(b.created_at@, a.created_at@)
}

/// Inserts a habit into a list sorted by descending creation time, keeping
/// it sorted.
#[verifier::loop_isolation(false)]
fn insert_habit_sorted(out: &mut Vec<Habit>, h: Habit)
    requires
        sorted_by(old(out)@, |a: Habit, b: Habit| habit_created_desc(a, b)),
    ensures
        sorted_by(final(out)@, |a: Habit, b: Habit| habit_created_desc(a, b)),
        final(out)@.to_multiset() == old(out)@.to_multiset().insert(h),
        forall|x: Habit| final(out)@.contains(x) <==> old(out)@.contains(x) || x == h,
{
    let ghost leq = |a: Habit, b: Habit| habit_created_desc(a, b);
    let mut i: usize = 0;
    while i < out.len() && str_le(h.created_at.as_str(), out[i].created_at.as_str())
        invariant
            i <= out@.len(),
            forall|j: int| 0 <= j < i ==> habit_created_desc(out@[j], h),
        decreases out@.len() - i,
    {
        i = i + 1;
    }
    proof {
        if i < out@.len() {
            lemma_lex_le_total(h.created_at@, out@[i as int].created_at@);
        }
        let s = out@;
        assert forall|k: int| i <= k < s.len() implies habit_created_desc(h, s[k]) by {
            if k > i {
                assert(leq(s[i as int], s[k]));
                lemma_lex_le_trans(s[k].created_at@, s[i as int].created_at@, h.created_at@);
            }
        }
    }
    let ghost prev = out@;
    let ghost hv = h;
    out.insert(i, h);
    proof {
        lemma_insert_multiset(prev, i as int, hv);
        prev.insert_ensures(i as int, hv);
        assert forall|a: int, b: int| 0 <= a < b < out@.len() implies leq(out@[a], out@[b]) by {
            if b < i {
                assert(leq(prev[a], prev[b]));
            } else if a < i && b == i {
            } else if a < i && b > i {
                assert(leq(prev[a], prev[b - 1]));
            } else if a == i {
            } else {
                assert(leq(prev[a - 1], prev[b - 1]));
            }
        }
        broadcast use vstd::seq_lib::group_to_multiset_ensures;

        assert forall|x: Habit| out@.contains(x) <==> prev.contains(x) || x == hv by {
            assert(out@.contains(x) <==> out@.to_multiset().count(x) > 0);
            assert(prev.contains(x) <==> prev.to_multiset().count(x) > 0);
        }
    }
}

/// The index of the habit row with this id.
pub open spec fn habit_idx_of(s: Seq<Habit>, id: Seq<char>) -> int {
    choose|i: int| 0 <= i < s.len() && s[i].id@ == id
}

/// The habit after a partial patch: present fields replace old ones, the
/// update stamp is always written, identity and creation stamp are kept.
pub open spec fn patched_habit(h: Habit, p: UpdateHabit) -> Habit {
    Habit {
        id: h.id,
        title: match p.title {
            Some(t) => t,
            None => h.title,
        },
        description: match p.description {
            Some(d) => d,
            None => h.description,
        },
        icon: match p.icon {
            Some(ic) => ic,
            None => h.icon,
        },
        is_archived: match p.is_archived {
            Some(a) => a,
            None => h.is_archived,
        },
        updated_at: p.updated_at,
        created_at: h.created_at,
    }
}

impl Store {
    /// The position of the habit with this id, if any.
    fn habit_index(&self, id: &str) -> (r: Option<usize>)
        ensures
            match r {
                Some(i) => i < self@.habits.len() && self@.habits[i as int].id@ == id@,
                None => !has_habit_id(self@.habits, id@),
            },
    {
        let mut i: usize = 0;
        while i < self.habits.len()
            invariant
                i <= self@.habits.len(),
                forall|j: int| 0 <= j < i ==> self@.habits[j].id@ != id@,
            decreases self@.habits.len() - i,
        {
            if str_eq(self.habits[i].id.as_str(), id) {
                return Some(i);
            }
            i = i + 1;
        }
        None
    }

    /// Adds a habit row as given. Refused exactly when the id is taken.
    pub fn insert_habit(&mut self, habit: Habit) -> (r: Result<(), EngineError>)
        requires
            old(self).wf(),
        ensures
            final(self).wf(),
            match r {
                Ok(()) => !has_habit_id(old(self)@.habits, habit.id@) && final(self)@.habits
                    == old(self)@.habits.push(habit) && final(self)@.completions
                    == old(self)@.completions && final(self)@.cycles == old(self)@.cycles
                    && final(self)@.sessions == old(self)@.sessions,
                Err(e) => has_habit_id(old(self)@.habits, habit.id@) && final(self)@ == old(self)@
                    && (e is StorageFailure),
            },
    {
        match self.habit_index(habit.id.as_str()) {
            Some(_) => Err(
                EngineError::StorageFailure(String::from_str("habit id already taken")),
            ),
            None => {
                let ghost hv = habit;
                proof {
                    assert forall|i: int|
                        0 <= i < old(self)@.habits.len() implies old(self)@.habits[i].id@
                        != habit.id@ by {
                        if old(self)@.habits[i].id@ == habit.id@ {
                            assert(has_habit_id(old(self)@.habits, habit.id@));
                        }
                    }
                }
                self.habits.push(habit);
                proof {
                    assert(self@.completions == old(self)@.completions);
                    assert(self@.cycles == old(self)@.cycles);
                    assert(self@.sessions == old(self)@.sessions);
                    let hs = self@.habits;
                    assert forall|a: int, b: int|
                        0 <= a < b < hs.len() implies hs[a].id@ != hs[b].id@ by {
                        assert(hs[a] == old(self)@.habits[a]);
                        if b == hs.len() - 1 {
                            assert(hs[b] == hv);
                        } else {
                            assert(hs[b] == old(self)@.habits[b]);
                        }
                    }
                }
                Ok(())
            },
        }
    }

    /// Creates a habit with a fresh identity, both timestamps set to now,
    /// and not archived. Fails only if the freshly drawn id is already
    /// taken, which requires the store to already hold a habit with a
    /// 36-character id; in particular an empty store always succeeds.
    pub fn create_habit(&mut self, title: String, description: String, icon: String) -> (r: Result<
        Habit,
        EngineError,
    >)
        requires
            old(self).wf(),
        ensures
            final(self).wf(),
            match r {
                Ok(h) => {
                    &&& h.title == title
                    &&& h.description == description
                    &&& h.icon == icon
                    &&& h.is_archived == false
                    &&& h.created_at@ == h.updated_at@
                    &&& h.created_at@.len() >= 19
                    &&& !has_habit_id(old(self)@.habits, h.id@)
                    &&& final(self)@.habits == old(self)@.habits.push(h)
                    &&& final(self)@.completions == old(self)@.completions
                    &&& final(self)@.cycles == old(self)@.cycles
                    &&& final(self)@.sessions == old(self)@.sessions
                },
                Err(e) => final(self)@ == old(self)@ && e is StorageFailure && exists|i: int|
                    0 <= i < old(self)@.habits.len() && (#[trigger] old(
                        self,
                    )@.habits[i]).id@.len() == 36,
            },
    {
        let id = fresh_id();
        let now = now_timestamp();
        let habit = Habit {
            id,
            title,
            description,
            icon,
            is_archived: false,
            updated_at: now.clone(),
            created_at: now,
        };
        let out = habit.clone();
        match self.insert_habit(habit) {
            Ok(()) => Ok(out),
            Err(e) => {
                proof {
                    let i = choose|i: int|
                        0 <= i < old(self)@.habits.len() && old(self)@.habits[i].id@ == out.id@;
                    assert(old(self)@.habits[i].id@.len() == 36);
                }
                Err(e)
            },
        }
    }

    /// The habits with this archive flag, ordered by descending creation
    /// time: each matching habit appears exactly as often as in the store,
    /// and no other habit appears.
    #[verifier::loop_isolation(false)]
    pub fn list_habits(&self, archived: bool) -> (r: Vec<Habit>)
        ensures
            sorted_by(r@, |a: Habit, b: Habit| habit_created_desc(a, b)),
            forall|h: Habit|
                r@.to_multiset().count(h) == (if h.is_archived == archived {
                    self@.habits.to_multiset().count(h)
                } else {
                    0
                }),
            forall|h: Habit|
                r@.contains(h) <==> self@.habits.contains(h) && h.is_archived == archived,
    {
        let ghost pred = |h: Habit| h.is_archived == archived;
        let mut out: Vec<Habit> = Vec::new();
        let mut i: usize = 0;
        proof {
            assert(self@.habits.take(0) =~= Seq::<Habit>::empty());
            assert(Seq::<Habit>::empty().filter(pred) =~= Seq::<Habit>::empty()) by {
                reveal_with_fuel(Seq::filter, 2);
            }
        }
        while i < self.habits.len()
            invariant
                i <= self@.habits.len(),
                sorted_by(out@, |a: Habit, b: Habit| habit_created_desc(a, b)),
                out@.to_multiset() == self@.habits.take(i as int).filter(pred).to_multiset(),
            decreases self@.habits.len() - i,
        {
            let ghost prefix = self@.habits.take(i as int);
            let ghost x = self@.habits[i as int];
            if self.habits[i].is_archived == archived {
                insert_habit_sorted(&mut out, self.habits[i].clone());
            }
            proof {
                assert(self@.habits.take(i + 1) =~= prefix + seq![x]);
                lemma_filter_one(prefix, x, pred);
                if pred(x) {
                    lemma_append_one_multiset(prefix.filter(pred), x);
                } else {
                    assert(prefix.filter(pred) + Seq::<Habit>::empty() =~= prefix.filter(pred));
                }
            }
            i = i + 1;
        }
        proof {
            assert(self@.habits.take(self@.habits.len() as int) =~= self@.habits);
            broadcast use vstd::seq_lib::group_to_multiset_ensures;

            assert forall|h: Habit|
                out@.to_multiset().count(h) == (if h.is_archived == archived {
                    self@.habits.to_multiset().count(h)
                } else {
                    0
                }) by {
                lemma_filter_multiset_count(self@.habits, pred, h);
            }
            assert forall|h: Habit|
                out@.contains(h) <==> self@.habits.contains(h) && h.is_archived == archived by {
                assert(out@.contains(h) <==> out@.to_multiset().count(h) > 0);
                assert(self@.habits.contains(h) <==> self@.habits.to_multiset().count(h) > 0);
            }
        }
        out
    }

    /// The habits that are not archived, most recently created first.
    pub fn get_active_habits(&self) -> (r: Vec<Habit>)
        ensures
            sorted_by(r@, |a: Habit, b: Habit| habit_created_desc(a, b)),
            forall|h: Habit|
                r@.to_multiset().count(h) == (if !h.is_archived {
                    self@.habits.to_multiset().count(h)
                } else {
                    0
                }),
            forall|h: Habit| r@.contains(h) <==> self@.habits.contains(h) && !h.is_archived,
    {
        self.list_habits(false)
    }

    /// The habits that are archived, most recently created first.
    pub fn get_archived_habits(&self) -> (r: Vec<Habit>)
        ensures
            sorted_by(r@, |a: Habit, b: Habit| habit_created_desc(a, b)),
            forall|h: Habit|
                r@.to_multiset().count(h) == (if h.is_archived {
                    self@.habits.to_multiset().count(h)
                } else {
                    0
                }),
            forall|h: Habit| r@.contains(h) <==> self@.habits.contains(h) && h.is_archived,
    {
        self.list_habits(true)
    }

    /// Applies a partial habit patch to the habit with this id: present
    /// fields replace the old ones, the update stamp is always written, the
    /// identity and creation stamp are kept. An unknown id is reported as
    /// not found and changes nothing.
    pub fn update_habit_with(&mut self, id: &str, patch: UpdateHabit) -> (r: Result<
        (),
        EngineError,
    >)
        requires
            old(self).wf(),
        ensures
            final(self).wf(),
            final(self)@.completions == old(self)@.completions,
            final(self)@.cycles == old(self)@.cycles,
            final(self)@.sessions == old(self)@.sessions,
            match r {
                Ok(()) => has_habit_id(old(self)@.habits, id@) && final(self)@.habits == old(
                    self,
                )@.habits.update(
                    habit_idx_of(old(self)@.habits, id@),
                    patched_habit(
                        old(self)@.habits[habit_idx_of(old(self)@.habits, id@)],
                        patch,
                    ),
                ),
                Err(e) => e is NotFound && !has_habit_id(old(self)@.habits, id@) && final(self)@
                    == old(self)@,
            },
    {
        match self.habit_index(id) {
            None => Err(EngineError::NotFound),
            Some(i) => {
                let ghost pre = old(self)@.habits;
                let new_habit = {
                    let h = &self.habits[i];
                    Habit {
                        id: h.id.clone(),
                        title: match patch.title {
                            Some(t) => t,
                            None => h.title.clone(),
                        },
                        description: match patch.description {
                            Some(d) => d,
                            None => h.description.clone(),
                        },
                        icon: match patch.icon {
                            Some(ic) => ic,
                            None => h.icon.clone(),
                        },
                        is_archived: match patch.is_archived {
                            Some(a) => a,
                            None => h.is_archived,
                        },
                        updated_at: patch.updated_at,
                        created_at: h.created_at.clone(),
                    }
                };
                let ghost nh = new_habit;
                let _removed = self.habits.remove(i);
                self.habits.insert(i, new_habit);
                proof {
                    assert(self@.completions == old(self)@.completions);
                    assert(self@.cycles == old(self)@.cycles);
                    assert(self@.sessions == old(self)@.sessions);
                    assert(has_habit_id(pre, id@));
                    let ci = habit_idx_of(pre, id@);
                    if ci != i {
                        assert(pre[ci].id@ == pre[i as int].id@);
                        assert(false);
                    }
                    assert(self@.habits =~= pre.update(i as int, nh));
                    assert forall|a: int, b: int|
                        0 <= a < b < self@.habits.len() implies self@.habits[a].id@
                        != self@.habits[b].id@ by {
                        assert(pre[a].id@ != pre[b].id@);
                        assert(self@.habits[a].id@ == pre[a].id@);
                        assert(self@.habits[b].id@ == pre[b].id@);
                    }
                }
                Ok(())
            },
        }
    }

    /// Applies a partial patch, stamping the update with the current moment.
    pub fn update_habit(
        &mut self,
        id: &str,
        title: Option<String>,
        description: Option<String>,
        icon: Option<String>,
        is_archived: Option<bool>,
    ) -> (r: Result<(), EngineError>)
        requires
            old(self).wf(),
        ensures
            final(self).wf(),
            final(self)@.completions == old(self)@.completions,
            final(self)@.cycles == old(self)@.cycles,
            final(self)@.sessions == old(self)@.sessions,
            match r {
                Ok(()) => has_habit_id(old(self)@.habits, id@) && exists|stamp: String|
                    stamp@.len() >= 19 && final(self)@.habits == old(self)@.habits.update(
                        habit_idx_of(old(self)@.habits, id@),
                        patched_habit(
                            old(self)@.habits[habit_idx_of(old(self)@.habits, id@)],
                            UpdateHabit {
                                title: title,
                                description: description,
                                icon: icon,
                                is_archived: is_archived,
                                updated_at: stamp,
                            },
                        ),
                    ),
                Err(e) => e is NotFound && !has_habit_id(old(self)@.habits, id@) && final(self)@
                    == old(self)@,
            },
    {
        let now = now_timestamp();
        let ghost stamp = now;
        let patch = UpdateHabit { title, description, icon, is_archived, updated_at: now };
        let r = self.update_habit_with(id, patch);
        proof {
            if r is Ok {
                assert(final(self)@.habits == old(self)@.habits.update(
                    habit_idx_of(old(self)@.habits, id@),
                    patched_habit(
                        old(self)@.habits[habit_idx_of(old(self)@.habits, id@)],
                        UpdateHabit {
                            title: title,
                            description: description,
                            icon: icon,
                            is_archived: is_archived,
                            updated_at: stamp,
                        },
                    ),
                ));
            }
        }
        r
    }

    /// Removes the habit with this id, if any, and every completion mark that
    /// points at it, so no orphan completion rows remain.
    #[verifier::loop_isolation(false)]
    pub fn delete_habit(&mut self, habit_id: &str)
        requires
            old(self).wf(),
        ensures
            final(self).wf(),
            final(self)@.habits == old(self)@.habits.filter(|h: Habit| h.id@ != habit_id@),
            final(self)@.completions == old(self)@.completions.filter(
                |c: HabitCompletion| c.habit_id@ != habit_id@,
            ),
            final(self)@.cycles == old(self)@.cycles,
            final(self)@.sessions == old(self)@.sessions,
            forall|i: int|
                0 <= i < final(self)@.completions.len()
                    ==> final(self)@.completions[i].habit_id@ != habit_id@,
    {
        let ghost habit_pred = |h: Habit| h.id@ != habit_id@;
        let ghost completion_pred = |c: HabitCompletion| c.habit_id@ != habit_id@;
        let mut kept_habits: Vec<Habit> = Vec::new();
        let mut i: usize = 0;
        proof {
            assert(old(self)@.habits.take(0) =~= Seq::<Habit>::empty());
            assert(Seq::<Habit>::empty().filter(habit_pred) =~= Seq::<Habit>::empty()) by {
                reveal_with_fuel(Seq::filter, 2);
            }
        }
        while i < self.habits.len()
            invariant
                i <= self.habits@.len(),
                self.habits@ == old(self)@.habits,
                kept_habits@ == old(self)@.habits.take(i as int).filter(habit_pred),
            decreases self.habits@.len() - i,
        {
            let ghost prefix = old(self)@.habits.take(i as int);
            let ghost x = old(self)@.habits[i as int];
            if !str_eq(self.habits[i].id.as_str(), habit_id) {
                kept_habits.push(self.habits[i].clone());
            }
            proof {
                assert(old(self)@.habits.take(i + 1) =~= prefix + seq![x]);
                lemma_filter_one(prefix, x, habit_pred);
                if habit_pred(x) {
                    assert(kept_habits@ =~= prefix.filter(habit_pred) + seq![x]);
                } else {
                    assert(kept_habits@ =~= prefix.filter(habit_pred));
                }
            }
            i = i + 1;
        }
        let mut kept_completions: Vec<HabitCompletion> = Vec::new();
        let mut k: usize = 0;
        proof {
            assert(old(self)@.completions.take(0) =~= Seq::<HabitCompletion>::empty());
            assert(Seq::<HabitCompletion>::empty().filter(completion_pred)
                =~= Seq::<HabitCompletion>::empty()) by {
                reveal_with_fuel(Seq::filter, 2);
            }
        }
        while k < self.completions.len()
            invariant
                k <= self.completions@.len(),
                self.completions@ == old(self)@.completions,
                kept_completions@ == old(self)@.completions.take(k as int).filter(completion_pred),
            decreases self.completions@.len() - k,
        {
            let ghost prefix = old(self)@.completions.take(k as int);
            let ghost x = old(self)@.completions[k as int];
            if !str_eq(self.completions[k].habit_id.as_str(), habit_id) {
                kept_completions.push(self.completions[k].clone());
            }
            proof {
                assert(old(self)@.completions.take(k + 1) =~= prefix + seq![x]);
                lemma_filter_one(prefix, x, completion_pred);
                if completion_pred(x) {
                    assert(kept_completions@ =~= prefix.filter(completion_pred) + seq![x]);
                } else {
                    assert(kept_completions@ =~= prefix.filter(completion_pred));
                }
            }
            k = k + 1;
        }
        self.habits = kept_habits;
        self.completions = kept_completions;
        proof {
            assert(old(self)@.habits.take(old(self)@.habits.len() as int) =~= old(self)@.habits);
            assert(old(self)@.completions.take(old(self)@.completions.len() as int)
                =~= old(self)@.completions);
            lemma_filter_distinct_keys(old(self)@.habits, habit_pred, |h: Habit| h.id@);
            lemma_filter_distinct_keys(
                old(self)@.completions,
                completion_pred,
                |c: HabitCompletion| c.id@,
            );
            lemma_filter_distinct_keys(
                old(self)@.completions,
                completion_pred,
                |c: HabitCompletion| (c.habit_id@, c.created_at@),
            );
            let fc = old(self)@.completions.filter(completion_pred);
            assert forall|i: int| 0 <= i < fc.len() implies fc[i].habit_id@ != habit_id@ by {
                old(self)@.completions.lemma_filter_pred(completion_pred, i);
            }
        }
    }
}

/// The completion row a prepared insert stands for.
pub open spec fn completion_of(c: CreateHabitCompletion) -> HabitCompletion {
    HabitCompletion { id: c.id, habit_id: c.habit_id, created_at: c.created_at }
}

/// The completion rows after a toggle for one (habit, day) mark: if the mark
/// is present it is unset, otherwise the prepared row sets it.
pub open spec fn toggled_completions(
    s: Seq<HabitCompletion>,
    row: HabitCompletion,
) -> Seq<HabitCompletion> {
    if has_completion_mark(s, row.habit_id@, row.created_at@) {
        s.filter(
            |c: HabitCompletion|
                !(c.habit_id@ == row.habit_id@ && c.created_at@ == row.created_at@),
        )
    } else {
        s.push(row)
    }
}

/// Filtering away one (habit, day) mark leaves exactly the other marks.
proof fn lemma_filter_marks(
    s: Seq<HabitCompletion>,
    p: spec_fn(HabitCompletion) -> bool,
    hid: Seq<char>,
    day: Seq<char>,
)
    requires
        forall|c: HabitCompletion| #[trigger] p(c) == !(c.habit_id@ == hid && c.created_at@ == day),
    ensures
        forall|h: Seq<char>, d: Seq<char>|
            #![trigger has_completion_mark(s.filter(p), h, d)]
            has_completion_mark(s.filter(p), h, d) <==> (has_completion_mark(s, h, d) && !(h == hid
                && d == day)),
{
    let f = s.filter(p);
    lemma_filter_in(s, p);
    assert forall|h: Seq<char>, d: Seq<char>|
        #![trigger has_completion_mark(s.filter(p), h, d)]
        has_completion_mark(f, h, d) <==> (has_completion_mark(s, h, d) && !(h == hid && d
            == day)) by {
        if has_completion_mark(f, h, d) {
            let i = choose|i: int| 0 <= i < f.len() && f[i].habit_id@ == h && f[i].created_at@ == d;
            s.lemma_filter_pred(p, i);
            assert(s.contains(f[i]));
            let j = choose|j: int| 0 <= j < s.len() && s[j] == f[i];
            assert(has_completion_mark(s, h, d));
        }
        if has_completion_mark(s, h, d) && !(h == hid && d == day) {
            let i = choose|i: int| 0 <= i < s.len() && s[i].habit_id@ == h && s[i].created_at@ == d;
            assert(p(s[i]));
            s.lemma_filter_contains(p, i);
            let j = choose|j: int| 0 <= j < f.len() && f[j] == s[i];
            assert(has_completion_mark(f, h, d));
        }
    }
}

/// Appending a row adds exactly its (habit, day) mark.
proof fn lemma_push_marks(t: Seq<HabitCompletion>, r: HabitCompletion)
    ensures
        forall|h: Seq<char>, d: Seq<char>|
            #![trigger has_completion_mark(t.push(r), h, d)]
            has_completion_mark(t.push(r), h, d) <==> (has_completion_mark(t, h, d) || (
            r.habit_id@ == h && r.created_at@ == d)),
{
    assert forall|h: Seq<char>, d: Seq<char>|
        #![trigger has_completion_mark(t.push(r), h, d)]
        has_completion_mark(t.push(r), h, d) <==> (has_completion_mark(t, h, d) || (r.habit_id@
            == h && r.created_at@ == d)) by {
        let u = t.push(r);
        if has_completion_mark(u, h, d) {
            let i = choose|i: int| 0 <= i < u.len() && u[i].habit_id@ == h && u[i].created_at@ == d;
            if i < t.len() {
                assert(t[i] == u[i]);
                assert(has_completion_mark(t, h, d));
            }
        }
        if has_completion_mark(t, h, d) {
            let i = choose|i: int| 0 <= i < t.len() && t[i].habit_id@ == h && t[i].created_at@ == d;
            assert(u[i] == t[i]);
            assert(has_completion_mark(u, h, d));
        }
        if r.habit_id@ == h && r.created_at@ == d {
            assert(u[u.len() - 1] == r);
            assert(has_completion_mark(u, h, d));
        }
    }
}

/// Toggling the same (habit, day) mark twice returns to the original set of
/// marks: every habit is marked on exactly the days it was marked on before.
/// When the mark was absent, the rows themselves return to exactly the
/// original rows.
proof fn lemma_toggle_involutive_absent(
    s: Seq<HabitCompletion>,
    r1: HabitCompletion,
    r2: HabitCompletion,
)
    requires
        r1.habit_id@ == r2.habit_id@,
        r1.created_at@ == r2.created_at@,
        !has_completion_mark(s, r1.habit_id@, r1.created_at@),
    ensures
        toggled_completions(toggled_completions(s, r1), r2) == s,
{
    let hid = r1.habit_id@;
    let day = r1.created_at@;
    let p2 = |c: HabitCompletion| !(c.habit_id@ == r2.habit_id@ && c.created_at@ == r2.created_at@);
    let t1 = toggled_completions(s, r1);
    let t2 = toggled_completions(t1, r2);
    assert(t1 == s.push(r1));
    assert(t1[t1.len() - 1] == r1);
    assert(has_completion_mark(t1, hid, day));
    assert(t2 == t1.filter(p2));
    assert(s.push(r1) =~= s + seq![r1]);
    lemma_filter_one(s, r1, p2);
    assert forall|i: int| 0 <= i < s.len() implies p2(#[trigger] s[i]) by {
        if s[i].habit_id@ == hid && s[i].created_at@ == day {
            assert(has_completion_mark(s, hid, day));
        }
    }
    lemma_filter_all(s, p2);
    assert(t2 =~= s);
}

proof fn lemma_toggle_involutive_present(
    s: Seq<HabitCompletion>,
    r1: HabitCompletion,
    r2: HabitCompletion,
)
    requires
        r1.habit_id@ == r2.habit_id@,
        r1.created_at@ == r2.created_at@,
        has_completion_mark(s, r1.habit_id@, r1.created_at@),
    ensures
        forall|h: Seq<char>, d: Seq<char>|
            #![trigger has_completion_mark(toggled_completions(toggled_completions(s, r1), r2), h, d)]
            has_completion_mark(toggled_completions(toggled_completions(s, r1), r2), h, d)
                <==> has_completion_mark(s, h, d),
{
    let hid = r1.habit_id@;
    let day = r1.created_at@;
    let t1 = toggled_completions(s, r1);
    let t2 = toggled_completions(t1, r2);
    let p1 = |c: HabitCompletion| !(c.habit_id@ == r1.habit_id@ && c.created_at@ == r1.created_at@);
    assert(t1 == s.filter(p1));
    lemma_filter_marks(s, p1, hid, day);
    assert(!has_completion_mark(t1, hid, day));
    assert(t2 == t1.push(r2));
    lemma_push_marks(t1, r2);
}

pub proof fn lemma_toggle_involutive(
    s: Seq<HabitCompletion>,
    r1: HabitCompletion,
    r2: HabitCompletion,
)
    requires
        r1.habit_id@ == r2.habit_id@,
        r1.created_at@ == r2.created_at@,
    ensures
        forall|h: Seq<char>, d: Seq<char>|
            #![trigger has_completion_mark(toggled_completions(toggled_completions(s, r1), r2), h, d)]
            has_completion_mark(toggled_completions(toggled_completions(s, r1), r2), h, d)
                <==> has_completion_mark(s, h, d),
        !has_completion_mark(s, r1.habit_id@, r1.created_at@) ==> toggled_completions(
            toggled_completions(s, r1),
            r2,
        ) == s,
{
    if !has_completion_mark(s, r1.habit_id@, r1.created_at@) {
        lemma_toggle_involutive_absent(s, r1, r2);
    } else {
        lemma_toggle_involutive_present(s, r1, r2);
    }
}

impl Store {
    /// The position of the completion row with this id, if any.
    fn completion_id_index(&self, id: &str) -> (r: Option<usize>)
        ensures
            match r {
                Some(i) => i < self@.completions.len() && self@.completions[i as int].id@ == id@,
                None => !has_completion_id(self@.completions, id@),
            },
    {
        let mut i: usize = 0;
        while i < self.completions.len()
            invariant
                i <= self@.completions.len(),
                forall|j: int| 0 <= j < i ==> self@.completions[j].id@ != id@,
            decreases self@.completions.len() - i,
        {
            if str_eq(self.completions[i].id.as_str(), id) {
                return Some(i);
            }
            i = i + 1;
        }
        None
    }

    /// Whether some completion row marks this habit on this day.
    fn has_mark(&self, habit_id: &str, day: &str) -> (r: bool)
        ensures
            r == has_completion_mark(self@.completions, habit_id@, day@),
    {
        let mut i: usize = 0;
        while i < self.completions.len()
            invariant
                i <= self@.completions.len(),
                forall|j: int|
                    0 <= j < i ==> !(self@.completions[j].habit_id@ == habit_id@
                        && self@.completions[j].created_at@ == day@),
            decreases self@.completions.len() - i,
        {
            if str_eq(self.completions[i].habit_id.as_str(), habit_id) && str_eq(
                self.completions[i].created_at.as_str(),
                day,
            ) {
                return true;
            }
            i = i + 1;
        }
        false
    }

    /// Deletes the completion row with this id, if any.
    #[verifier::loop_isolation(false)]
    pub fn delete_completion(&mut self, id: &str)
        requires
            old(self).wf(),
        ensures
            final(self).wf(),
            final(self)@.completions == old(self)@.completions.filter(
                |c: HabitCompletion| c.id@ != id@,
            ),
            final(self)@.habits == old(self)@.habits,
            final(self)@.cycles == old(self)@.cycles,
            final(self)@.sessions == old(self)@.sessions,
    {
        let ghost pred = |c: HabitCompletion| c.id@ != id@;
        let mut kept: Vec<HabitCompletion> = Vec::new();
        let mut i: usize = 0;
        proof {
            assert(old(self)@.completions.take(0) =~= Seq::<HabitCompletion>::empty());
            assert(Seq::<HabitCompletion>::empty().filter(pred)
                =~= Seq::<HabitCompletion>::empty()) by {
                reveal_with_fuel(Seq::filter, 2);
            }
        }
        while i < self.completions.len()
            invariant
                i <= self.completions@.len(),
                self.completions@ == old(self)@.completions,
                kept@ == old(self)@.completions.take(i as int).filter(pred),
            decreases self.completions@.len() - i,
        {
            let ghost prefix = old(self)@.completions.take(i as int);
            let ghost x = old(self)@.completions[i as int];
            if !str_eq(self.completions[i].id.as_str(), id) {
                kept.push(self.completions[i].clone());
            }
            proof {
                assert(old(self)@.completions.take(i + 1) =~= prefix + seq![x]);
                lemma_filter_one(prefix, x, pred);
                if pred(x) {
                    assert(kept@ =~= prefix.filter(pred) + seq![x]);
                } else {
                    assert(kept@ =~= prefix.filter(pred));
                }
            }
            i = i + 1;
        }
        self.completions = kept;
        proof {
            assert(self@.habits == old(self)@.habits);
            assert(self@.cycles == old(self)@.cycles);
            assert(self@.sessions == old(self)@.sessions);
            assert(old(self)@.completions.take(old(self)@.completions.len() as int)
                =~= old(self)@.completions);
            lemma_filter_distinct_keys(old(self)@.completions, pred, |c: HabitCompletion| c.id@);
            lemma_filter_distinct_keys(
                old(self)@.completions,
                pred,
                |c: HabitCompletion| (c.habit_id@, c.created_at@),
            );
        }
    }

    /// Toggles the (habit, day) mark the prepared row names: unsets a present
    /// mark, otherwise inserts the row. Refused exactly when an insert is due
    /// and the prepared row's id is already taken.
    #[verifier::loop_isolation(false)]
    pub fn toggle_completion_with(&mut self, row: CreateHabitCompletion) -> (r: Result<
        (),
        EngineError,
    >)
        requires
            old(self).wf(),
        ensures
            final(self).wf(),
            final(self)@.habits == old(self)@.habits,
            final(self)@.cycles == old(self)@.cycles,
            final(self)@.sessions == old(self)@.sessions,
            match r {
                Ok(()) => final(self)@.completions == toggled_completions(
                    old(self)@.completions,
                    completion_of(row),
                ),
                Err(e) => e is StorageFailure && final(self)@ == old(self)@ && !has_completion_mark(
                    old(self)@.completions,
                    row.habit_id@,
                    row.created_at@,
                ) && has_completion_id(old(self)@.completions, row.id@),
            },
            r is Err ==> !has_completion_mark(
                old(self)@.completions,
                row.habit_id@,
                row.created_at@,
            ),
    {
        let ghost pred = |c: HabitCompletion|
            !(c.habit_id@ == row.habit_id@ && c.created_at@ == row.created_at@);
        if self.has_mark(row.habit_id.as_str(), row.created_at.as_str()) {
            let mut kept: Vec<HabitCompletion> = Vec::new();
            let mut i: usize = 0;
            proof {
                assert(old(self)@.completions.take(0) =~= Seq::<HabitCompletion>::empty());
                assert(Seq::<HabitCompletion>::empty().filter(pred)
                    =~= Seq::<HabitCompletion>::empty()) by {
                    reveal_with_fuel(Seq::filter, 2);
                }
            }
            while i < self.completions.len()
                invariant
                    i <= self.completions@.len(),
                    self.completions@ == old(self)@.completions,
                    kept@ == old(self)@.completions.take(i as int).filter(pred),
                decreases self.completions@.len() - i,
            {
                let ghost prefix = old(self)@.completions.take(i as int);
                let ghost x = old(self)@.completions[i as int];
                if !(str_eq(self.completions[i].habit_id.as_str(), row.habit_id.as_str())
                    && str_eq(self.completions[i].created_at.as_str(), row.created_at.as_str())) {
                    kept.push(self.completions[i].clone());
                }
                proof {
                    assert(old(self)@.completions.take(i + 1) =~= prefix + seq![x]);
                    lemma_filter_one(prefix, x, pred);
                    if pred(x) {
                        assert(kept@ =~= prefix.filter(pred) + seq![x]);
                    } else {
                        assert(kept@ =~= prefix.filter(pred));
                    }
                }
                i = i + 1;
            }
            self.completions = kept;
            proof {
                assert(self@.habits == old(self)@.habits);
                assert(self@.cycles == old(self)@.cycles);
                assert(self@.sessions == old(self)@.sessions);
                assert(old(self)@.completions.take(old(self)@.completions.len() as int)
                    =~= old(self)@.completions);
                lemma_filter_distinct_keys(
                    old(self)@.completions,
                    pred,
                    |c: HabitCompletion| c.id@,
                );
                lemma_filter_distinct_keys(
                    old(self)@.completions,
                    pred,
                    |c: HabitCompletion| (c.habit_id@, c.created_at@),
                );
            }
            Ok(())
        } else {
            match self.completion_id_index(row.id.as_str()) {
                Some(_) => Err(
                    EngineError::StorageFailure(
                        String::from_str("habit completion id already taken"),
                    ),
                ),
                None => {
                    let rec = HabitCompletion {
                        id: row.id,
                        habit_id: row.habit_id,
                        created_at: row.created_at,
                    };
                    let ghost rv = rec;
                    self.completions.push(rec);
                    proof {
                        assert(self@.habits == old(self)@.habits);
                        assert(self@.cycles == old(self)@.cycles);
                        assert(self@.sessions == old(self)@.sessions);
                        let cs = self@.completions;
                        assert forall|a: int, b: int|
                            0 <= a < b < cs.len() implies cs[a].id@ != cs[b].id@ by {
                            assert(cs[a] == old(self)@.completions[a]);
                            if b == cs.len() - 1 {
                                assert(cs[b] == rv);
                                if old(self)@.completions[a].id@ == rv.id@ {
                                    assert(has_completion_id(old(self)@.completions, rv.id@));
                                }
                            } else {
                                assert(cs[b] == old(self)@.completions[b]);
                            }
                        }
                        assert forall|a: int, b: int|
                            0 <= a < b < cs.len() implies !(cs[a].habit_id@ == cs[b].habit_id@
                            && cs[a].created_at@ == cs[b].created_at@) by {
                            assert(cs[a] == old(self)@.completions[a]);
                            if b == cs.len() - 1 {
                                assert(cs[b] == rv);
                                if old(self)@.completions[a].habit_id@ == rv.habit_id@ && old(
                                    self,
                                )@.completions[a].created_at@ == rv.created_at@ {
                                    assert(has_completion_mark(
                                        old(self)@.completions,
                                        rv.habit_id@,
                                        rv.created_at@,
                                    ));
                                }
                            } else {
                                assert(cs[b] == old(self)@.completions[b]);
                            }
                        }
                    }
                    Ok(())
                },
            }
        }
    }

    /// Toggles a habit completion as the operation is exposed. An explicit id
    /// deletes that completion row. Otherwise the mark for the named day is
    /// set or unset under a freshly drawn row id; a missing or malformed date
    /// falls back to today, a deliberately lenient policy rather than an
    /// error path. Setting a mark fails only if the freshly drawn row id is
    /// already taken, which requires the store to already hold a completion
    /// with a 36-character id.
    pub fn toggle_habit_completion(
        &mut self,
        id: Option<String>,
        habit_id: String,
        created_at: Option<String>,
    ) -> (r: Result<(), EngineError>)
        requires
            old(self).wf(),
        ensures
            final(self).wf(),
            final(self)@.habits == old(self)@.habits,
            final(self)@.cycles == old(self)@.cycles,
            final(self)@.sessions == old(self)@.sessions,
            match id {
                Some(cid) => r is Ok && final(self)@.completions == old(self)@.completions.filter(
                    |c: HabitCompletion| c.id@ != cid@,
                ),
                None => match r {
                    Ok(()) => exists|row: HabitCompletion|
                        #![auto]
                        row.habit_id@ == habit_id@ && date_text_wf(row.created_at@) && (match created_at {
                            Some(s) => date_text_wf(s@) ==> row.created_at@ == s@,
                            None => true,
                        }) && final(self)@.completions == toggled_completions(
                            old(self)@.completions,
                            row,
                        ),
                    Err(e) => {
                        &&& final(self)@ == old(self)@
                        &&& e is StorageFailure
                        &&& exists|i: int|
                            0 <= i < old(self)@.completions.len() && (#[trigger] old(
                                self,
                            )@.completions[i]).id@.len() == 36
                        &&& (match created_at {
                            Some(s) => date_text_wf(s@) ==> !has_completion_mark(
                                old(self)@.completions,
                                habit_id@,
                                s@,
                            ),
                            None => true,
                        })
                    },
                },
            },
    {
        match id {
            Some(cid) => {
                self.delete_completion(cid.as_str());
                Ok(())
            },
            None => {
                let ghost given = created_at;
                let day: Date = match &created_at {
                    Some(s) => match parse_date(s.as_str()) {
                        Some(d) => d,
                        None => today_utc(),
                    },
                    None => today_utc(),
                };
                let key = format_date(&day);
                proof {
                    lemma_format_parse(day);
                    if given is Some && date_text_wf(given.unwrap()@) {
                        lemma_parse_format(given.unwrap()@);
                    }
                }
                let row = CreateHabitCompletion { id: fresh_id(), habit_id, created_at: key };
                let ghost rec = completion_of(row);
                let r = self.toggle_completion_with(row);
                proof {
                    if r is Ok {
                        assert(rec.habit_id@ == habit_id@ && date_text_wf(rec.created_at@)
                            && (match given {
                            Some(s) => date_text_wf(s@) ==> rec.created_at@ == s@,
                            None => true,
                        }) && final(self)@.completions == toggled_completions(
                            old(self)@.completions,
                            rec,
                        ));
                    } else {
                        let i = choose|i: int|
                            0 <= i < old(self)@.completions.len() && old(
                                self,
                            )@.completions[i].id@ == rec.id@;
                        assert(old(self)@.completions[i].id@.len() == 36);
                    }
                }
                r
            },
        }
    }
}


/// Completions are listed most recent day first.
pub open spec fn completion_date_desc(a: HabitCompletion, b: HabitCompletion) -> bool {
    lex_le(b.created_at@, a.created_at@)
}

/// Inserts a completion into a list sorted by descending date, keeping it
/// sorted.
#[verifier::loop_isolation(false)]
fn insert_completion_sorted(out: &mut Vec<HabitCompletion>, c: HabitCompletion)
    requires
        sorted_by(old(out)@, |a: HabitCompletion, b: HabitCompletion| completion_date_desc(a, b)),
    ensures
        sorted_by(final(out)@, |a: HabitCompletion, b: HabitCompletion| completion_date_desc(a, b)),
        final(out)@.to_multiset() == old(out)@.to_multiset().insert(c),
        forall|x: HabitCompletion| final(out)@.contains(x) <==> old(out)@.contains(x) || x == c,
{
    let ghost leq = |a: HabitCompletion, b: HabitCompletion| completion_date_desc(a, b);
    let mut i: usize = 0;
    while i < out.len() && str_le(c.created_at.as_str(), out[i].created_at.as_str())
        invariant
            i <= out@.len(),
            forall|j: int| 0 <= j < i ==> completion_date_desc(out@[j], c),
        decreases out@.len() - i,
    {
        i = i + 1;
    }
    proof {
        if i < out@.len() {
            lemma_lex_le_total(c.created_at@, out@[i as int].created_at@);
        }
        let s = out@;
        assert forall|k: int| i <= k < s.len() implies completion_date_desc(c, s[k]) by {
            if k > i {
                assert(leq(s[i as int], s[k]));
                lemma_lex_le_trans(s[k].created_at@, s[i as int].created_at@, c.created_at@);
            }
        }
    }
    let ghost prev = out@;
    let ghost cv = c;
    out.insert(i, c);
    proof {
        lemma_insert_multiset(prev, i as int, cv);
        prev.insert_ensures(i as int, cv);
        assert forall|a: int, b: int| 0 <= a < b < out@.len() implies leq(out@[a], out@[b]) by {
            if b < i {
                assert(leq(prev[a], prev[b]));
            } else if a < i && b == i {
            } else if a < i && b > i {
                assert(leq(prev[a], prev[b - 1]));
            } else if a == i {
            } else {
                assert(leq(prev[a - 1], prev[b - 1]));
            }
        }
        broadcast use vstd::seq_lib::group_to_multiset_ensures;

        assert forall|x: HabitCompletion| out@.contains(x) <==> prev.contains(x) || x == cv by {
            assert(out@.contains(x) <==> out@.to_multiset().count(x) > 0);
            assert(prev.contains(x) <==> prev.to_multiset().count(x) > 0);
        }
    }
}

impl Store {
    /// This habit's completions, most recent day first; each matching row
    /// appears exactly as often as in the store. When a limit is given, only
    /// the first rows of that ordering, at most the limit, are returned.
    #[verifier::loop_isolation(false)]
    pub fn get_habit_completions(&self, habit_id: &str, limit: Option<usize>) -> (r: Vec<
        HabitCompletion,
    >)
        ensures
            sorted_by(r@, |a: HabitCompletion, b: HabitCompletion| completion_date_desc(a, b)),
            forall|c: HabitCompletion|
                r@.contains(c) ==> self@.completions.contains(c) && c.habit_id@ == habit_id@,
            exists|full: Seq<HabitCompletion>|
                #![trigger full.to_multiset()]
                {
                    &&& sorted_by(
                        full,
                        |a: HabitCompletion, b: HabitCompletion| completion_date_desc(a, b),
                    )
                    &&& forall|c: HabitCompletion|
                        full.to_multiset().count(c) == (if c.habit_id@ == habit_id@ {
                            self@.completions.to_multiset().count(c)
                        } else {
                            0
                        })
                    &&& r@ == (match limit {
                        None => full,
                        Some(l) => full.take(if l <= full.len() {
                            l as int
                        } else {
                            full.len() as int
                        }),
                    })
                },
    {
        let ghost pred = |c: HabitCompletion| c.habit_id@ == habit_id@;
        let mut out: Vec<HabitCompletion> = Vec::new();
        let mut i: usize = 0;
        proof {
            assert(self@.completions.take(0) =~= Seq::<HabitCompletion>::empty());
            assert(Seq::<HabitCompletion>::empty().filter(pred)
                =~= Seq::<HabitCompletion>::empty()) by {
                reveal_with_fuel(Seq::filter, 2);
            }
        }
        while i < self.completions.len()
            invariant
                i <= self@.completions.len(),
                sorted_by(
                    out@,
                    |a: HabitCompletion, b: HabitCompletion| completion_date_desc(a, b),
                ),
                out@.to_multiset() == self@.completions.take(i as int).filter(pred).to_multiset(),
                forall|c: HabitCompletion|
                    out@.contains(c) ==> self@.completions.contains(c) && c.habit_id@ == habit_id@,
            decreases self@.completions.len() - i,
        {
            let ghost prefix = self@.completions.take(i as int);
            let ghost x = self@.completions[i as int];
            if str_eq(self.completions[i].habit_id.as_str(), habit_id) {
                insert_completion_sorted(&mut out, self.completions[i].clone());
                proof {
                    assert(self@.completions.contains(x));
                }
            }
            proof {
                assert(self@.completions.take(i + 1) =~= prefix + seq![x]);
                lemma_filter_one(prefix, x, pred);
                if pred(x) {
                    lemma_append_one_multiset(prefix.filter(pred), x);
                } else {
                    assert(prefix.filter(pred) + Seq::<HabitCompletion>::empty() =~= prefix.filter(
                        pred,
                    ));
                }
            }
            i = i + 1;
        }
        proof {
            assert(self@.completions.take(self@.completions.len() as int) =~= self@.completions);
            broadcast use vstd::seq_lib::group_to_multiset_ensures;

            assert forall|c: HabitCompletion|
                out@.to_multiset().count(c) == (if c.habit_id@ == habit_id@ {
                    self@.completions.to_multiset().count(c)
                } else {
                    0
                }) by {
                lemma_filter_multiset_count(self@.completions, pred, c);
            }
        }
        let ghost full = out@;
        match limit {
            None => out,
            Some(l) => {
                if l < out.len() {
                    out.truncate(l);
                    proof {
                        let lt = |a: HabitCompletion, b: HabitCompletion| completion_date_desc(
                            a,
                            b,
                        );
                        assert(out@ =~= full.take(l as int));
                        assert forall|a: int, b: int|
                            0 <= a < b < out@.len() implies lt(out@[a], out@[b]) by {
                            assert(lt(full[a], full[b]));
                        }
                        assert forall|c: HabitCompletion| out@.contains(c) implies self@.completions.contains(c)
                            && c.habit_id@ == habit_id@ by {
                            let k = choose|k: int| 0 <= k < out@.len() && out@[k] == c;
                            assert(full.contains(full[k]));
                        }
                    }
                }
                out
            },
        }
    }
}

} // verus!
