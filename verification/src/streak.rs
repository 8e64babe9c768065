//! The streak computation: how many consecutive days, counted back from
//! yesterday, a habit was completed — plus one more if it is already
//! completed today.
//!
//! Days are identified by their [`crate::dates::day_index`] rank, so
//! "consecutive days" means consecutive integers. The walk starts at
//! yesterday: a habit completed every day through yesterday but not yet
//! today still reports the full streak, and completing today adds one.

use crate::dates::{date_of_text, date_text_wf, parse_date, Date};
use crate::records::HabitCompletion;
use crate::runtime::today_utc;
use crate::store::Store;
use crate::text::str_eq;
use vstd::prelude::*;

verus! {

/// The length of the unbroken run of marked days ending at day d: how many
/// of d, d - 1, d - 2, ... are marked before the first gap.
pub open spec fn run_before(days: Set<int>, d: int) -> nat
    decreases days.len(),
{
    if days.finite() && days.contains(d) {
        (1 + run_before(days.remove(d), d - 1)) as nat
    } else {
        0
    }
}

/// The streak reported for a day set: the run ending at yesterday, plus one
/// if today itself is marked.
pub open spec fn streak_of(days: Set<int>, today: int) -> nat {
    run_before(days, today - 1) + (if days.contains(today) {
        1nat
    } else {
        0nat
    })
}

/// Removing a day above the end of a run does not change it.
proof fn lemma_run_before_remove_above(days: Set<int>, d: int, e: int)
    requires
        days.finite(),
        e > d,
    ensures
        run_before(days.remove(e), d) == run_before(days, d),
    decreases days.len(),
{
    broadcast use vstd::set::group_set_axioms;

    if days.contains(d) {
        assert(days.remove(e).remove(d) =~= days.remove(d).remove(e));
        lemma_run_before_remove_above(days.remove(d), d - 1, e);
    }
}

/// One step of the run: a marked day extends the run ending the day before.
pub proof fn lemma_run_before_step(days: Set<int>, d: int)
    requires
        days.finite(),
    ensures
        run_before(days, d) == if days.contains(d) {
            1 + run_before(days, d - 1)
        } else {
            0nat
        },
{
    broadcast use vstd::set::group_set_axioms;

    if days.contains(d) {
        lemma_run_before_remove_above(days, d - 1, d);
    }
}

/// A run is never longer than the number of marked days.
proof fn lemma_run_before_le_len(days: Set<int>, d: int)
    requires
        days.finite(),
    ensures
        run_before(days, d) <= days.len(),
    decreases days.len(),
{
    broadcast use vstd::set::group_set_axioms;

    if days.contains(d) {
        lemma_run_before_le_len(days.remove(d), d - 1);
    }
}

/// The day indices of this habit's completion marks, in row order, one per
/// well-formed date text.
pub open spec fn completion_day_indices(s: Seq<HabitCompletion>, habit_id: Seq<char>) -> Seq<int> {
    s.filter(
        |c: HabitCompletion| c.habit_id@ == habit_id && date_text_wf(c.created_at@),
    ).map_values(|c: HabitCompletion| date_of_text(c.created_at@).index())
}

/// Whether a sequence of day numbers holds this value.
fn days_contain(days: &Vec<i64>, x: i64) -> (r: bool)
    ensures
        r == days@.contains(x),
{
    let mut i: usize = 0;
    while i < days.len()
        invariant
            i <= days@.len(),
            forall|j: int| 0 <= j < i ==> days@[j] != x,
        decreases days@.len() - i,
    {
        if days[i] == x {
            return true;
        }
        i = i + 1;
    }
    false
}

impl Store {
    /// The day numbers of this habit's completion marks, in row order.
    #[verifier::loop_isolation(false)]
    fn completion_day_numbers(&self, habit_id: &str) -> (r: Vec<i64>)
        ensures
            r@.map_values(|v: i64| v as int) == completion_day_indices(
                self@.completions,
                habit_id@,
            ),
            forall|j: int| 0 <= j < r@.len() ==> 0 <= #[trigger] r@[j] <= 3_700_000,
    {
        let ghost pred = |c: HabitCompletion| c.habit_id@ == habit_id@ && date_text_wf(
            c.created_at@,
        );
        let ghost day_of = |c: HabitCompletion| date_of_text(c.created_at@).index();
        let mut out: Vec<i64> = Vec::new();
        let mut i: usize = 0;
        proof {
            assert(self@.completions.take(0) =~= Seq::<HabitCompletion>::empty());
            assert(Seq::<HabitCompletion>::empty().filter(pred)
                =~= Seq::<HabitCompletion>::empty()) by {
                reveal_with_fuel(Seq::filter, 2);
            }
        }
        while i < self.completions.len()
            invariant
                i <= self@.completions.len(),
                out@.map_values(|v: i64| v as int) == self@.completions.take(i as int).filter(
                    pred,
                ).map_values(day_of),
                forall|j: int| 0 <= j < out@.len() ==> 0 <= #[trigger] out@[j] <= 3_700_000,
            decreases self@.completions.len() - i,
        {
            let ghost prefix = self@.completions.take(i as int);
            let ghost x = self@.completions[i as int];
            if str_eq(self.completions[i].habit_id.as_str(), habit_id) {
                match parse_date(self.completions[i].created_at.as_str()) {
                    Some(d) => {
                        out.push(d.day_number());
                    },
                    None => {},
                }
            }
            proof {
                assert(self@.completions.take(i + 1) =~= prefix + seq![x]);
                crate::seqs::lemma_filter_one(prefix, x, pred);
                if pred(x) {
                    assert(prefix.filter(pred) + seq![x] =~= prefix.filter(pred).push(x));
                    assert(out@.map_values(|v: i64| v as int) =~= prefix.filter(pred).map_values(
                        day_of,
                    ).push(day_of(x)));
                    assert(prefix.filter(pred).push(x).map_values(day_of) =~= prefix.filter(
                        pred,
                    ).map_values(day_of).push(day_of(x)));
                } else {
                    assert(prefix.filter(pred) + Seq::<HabitCompletion>::empty() =~= prefix.filter(
                        pred,
                    ));
                    assert(out@.map_values(|v: i64| v as int) =~= prefix.filter(pred).map_values(
                        day_of,
                    ));
                }
            }
            i = i + 1;
        }
        proof {
            assert(self@.completions.take(self@.completions.len() as int) =~= self@.completions);
        }
        out
    }

    /// The completion streak of this habit as seen from a given day: marked
    /// days are walked back one at a time starting at the day before `today`
    /// until the first gap, and a mark on `today` itself adds one.
    #[verifier::loop_isolation(false)]
    pub fn streak_on(&self, habit_id: &str, today: &Date) -> (r: i32)
        requires
            today.wf(),
        ensures
            r as int == streak_of(
                completion_day_indices(self@.completions, habit_id@).to_set(),
                today.index(),
            ),
    {
        let days = self.completion_day_numbers(habit_id);
        let ghost dset = completion_day_indices(self@.completions, habit_id@).to_set();
        proof {
            broadcast use vstd::seq_lib::seq_to_set_is_finite;

            assert(days@.map_values(|v: i64| v as int).to_set().finite());
            assert forall|x: i64| days@.contains(x) == dset.contains(x as int) by {
                if days@.contains(x) {
                    let j = choose|j: int| 0 <= j < days@.len() && days@[j] == x;
                    assert(days@.map_values(|v: i64| v as int)[j] == x as int);
                }
                if dset.contains(x as int) {
                    let m = days@.map_values(|v: i64| v as int);
                    let j = choose|j: int| 0 <= j < m.len() && m[j] == x as int;
                    assert(days@[j] as int == x as int);
                }
            }
            assert forall|d: int| dset.contains(d) implies 0 <= d <= 3_700_000 by {
                let m = days@.map_values(|v: i64| v as int);
                let j = choose|j: int| 0 <= j < m.len() && m[j] == d;
                assert(days@[j] as int == d);
            }
        }
        let t: i64 = today.day_number();
        let mut streak: i32 = 0;
        while days_contain(&days, t - 1 - (streak as i64))
            invariant
                0 <= streak as int <= t as int,
                run_before(dset, t as int - 1) == streak as int + run_before(
                    dset,
                    t as int - 1 - streak as int,
                ),
            decreases t - streak,
        {
            proof {
                lemma_run_before_step(dset, t as int - 1 - streak as int);
            }
            streak = streak + 1;
        }
        proof {
            lemma_run_before_step(dset, t as int - 1 - streak as int);
            assert(run_before(dset, t as int - 1) == streak as int);
            lemma_run_before_le_len(dset, t as int - 1);
        }
        if days_contain(&days, t) {
            streak = streak + 1;
        }
        streak
    }

    /// The completion streak of this habit, counted from the current UTC
    /// calendar day.
    pub fn get_habit_completion_streak(&self, habit_id: &str) -> (r: i32)
        ensures
            exists|today: Date|
                #![trigger today.index()]
                today.wf() && r as int == streak_of(
                    completion_day_indices(self@.completions, habit_id@).to_set(),
                    today.index(),
                ),
    {
        let today = today_utc();
        self.streak_on(habit_id, &today)
    }
}

/// Streak scenario: with the three days before `today` marked and a gap four
/// days back, the streak is three; a mark on `today` itself makes it four.
pub proof fn lemma_streak_three_back(days: Set<int>, today: int)
    requires
        days.finite(),
        days.contains(today - 1),
        days.contains(today - 2),
        days.contains(today - 3),
        !days.contains(today - 4),
    ensures
        !days.contains(today) ==> streak_of(days, today) == 3,
        days.contains(today) ==> streak_of(days, today) == 4,
{
    lemma_run_before_step(days, today - 1);
    lemma_run_before_step(days, today - 2);
    lemma_run_before_step(days, today - 3);
    lemma_run_before_step(days, today - 4);
}

/// A gap at the day before yesterday caps the streak at one, no matter how
/// many earlier days are marked.
pub proof fn lemma_streak_gap_caps(days: Set<int>, today: int)
    requires
        days.finite(),
        days.contains(today - 1),
        !days.contains(today - 2),
        !days.contains(today),
    ensures
        streak_of(days, today) == 1,
{
    lemma_run_before_step(days, today - 1);
    lemma_run_before_step(days, today - 2);
}

} // verus!
