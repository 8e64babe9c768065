//! The pomodoro service: the cycle/session state machine and the daily
//! focus-time aggregation.
//!
//! A cycle starts in progress and ends, once, as completed or abandoned.
//! Starting a cycle does not check for another one in progress: that
//! invariant is the caller's responsibility, surfaced through
//! [`Store::get_current_cycle`], which always yields the most recently
//! started live cycle.

use crate::dates::{date_of_text, date_text_of, date_text_wf, format_date, parse_date, Date};
use crate::records::{
    CreatePomodoroCycle, CreatePomodoroSession, EngineError, PomodoroCycle, PomodoroSession,
    SessionType, Status, UpdatePomodoroCycle, UpdatePomodoroSession,
};
use crate::runtime::{fresh_id, now_timestamp};
use crate::store::{has_cycle_id, has_session_id, Store};
use crate::text::{lex_le, str_eq, str_le};
use vstd::prelude::*;

verus! {

/// The cycle row a prepared insert stands for: freshly in progress, with no
/// completion stamp.
pub open spec fn cycle_of_create(c: CreatePomodoroCycle) -> PomodoroCycle {
    PomodoroCycle {
        id: c.id,
        status: Status::InProgress,
        focus_duration: c.focus_duration,
        short_break_duration: c.short_break_duration,
        long_break_duration: c.long_break_duration,
        sessions_until_long_break: c.sessions_until_long_break,
        auto_start_breaks: c.auto_start_breaks,
        auto_start_pomodoros: c.auto_start_pomodoros,
        started_at: c.started_at,
        completed_at: None,
        updated_at: c.updated_at,
    }
}

/// The index of the cycle row with this id.
pub open spec fn cycle_idx_of(s: Seq<PomodoroCycle>, id: Seq<char>) -> int {
    choose|i: int| 0 <= i < s.len() && s[i].id@ == id
}

/// A cycle after a partial patch: present fields replace old ones, the
/// update stamp is always written, everything else is kept. An absent
/// completion stamp in the patch leaves the stored stamp untouched.
pub open spec fn patched_cycle(c: PomodoroCycle, p: UpdatePomodoroCycle) -> PomodoroCycle {
    PomodoroCycle {
        id: c.id,
        status: match p.status {
            Some(st) => st,
            None => c.status,
        },
        focus_duration: c.focus_duration,
        short_break_duration: c.short_break_duration,
        long_break_duration: c.long_break_duration,
        sessions_until_long_break: c.sessions_until_long_break,
        auto_start_breaks: c.auto_start_breaks,
        auto_start_pomodoros: c.auto_start_pomodoros,
        started_at: c.started_at,
        completed_at: match p.completed_at {
            Some(t) => Some(t),
            None => c.completed_at,
        },
        updated_at: p.updated_at,
    }
}

/// The session row a prepared insert stands for: not yet completed.
pub open spec fn session_of_create(s: CreatePomodoroSession) -> PomodoroSession {
    PomodoroSession {
        id: s.id,
        cycle_id: s.cycle_id,
        session_type: s.session_type,
        started_at: s.started_at,
        completed_at: None,
        duration_minutes: s.duration_minutes,
        was_completed: false,
    }
}

/// The index of the session row with this id.
pub open spec fn session_idx_of(s: Seq<PomodoroSession>, id: Seq<char>) -> int {
    choose|i: int| 0 <= i < s.len() && s[i].id@ == id
}

/// A session after a partial patch: an absent completion stamp is left
/// untouched, the completion flag is always written.
pub open spec fn patched_session(s: PomodoroSession, p: UpdatePomodoroSession) -> PomodoroSession {
    PomodoroSession {
        id: s.id,
        cycle_id: s.cycle_id,
        session_type: s.session_type,
        started_at: s.started_at,
        completed_at: match p.completed_at {
            Some(t) => Some(t),
            None => s.completed_at,
        },
        duration_minutes: s.duration_minutes,
        was_completed: p.was_completed,
    }
}

/// The first timestamp text of a day: `YYYY-MM-DDT00:00:00Z`.
pub open spec fn day_start_text(d: Date) -> Seq<char> {
    date_text_of(d) + seq!['T', '0', '0', ':', '0', '0', ':', '0', '0', 'Z']
}

/// The last timestamp text of a day: `YYYY-MM-DDT23:59:59Z`.
pub open spec fn day_end_text(d: Date) -> Seq<char> {
    date_text_of(d) + seq!['T', '2', '3', ':', '5', '9', ':', '5', '9', 'Z']
}

/// Whether a session counts toward a day's focus total: a focus session the
/// user completed, started inside the day's closed interval of timestamp
/// texts.
pub open spec fn counts_for_day(s: PomodoroSession, lo: Seq<char>, hi: Seq<char>) -> bool {
    s.session_type is Focus && s.was_completed && lex_le(lo, s.started_at@) && lex_le(
        s.started_at@,
        hi,
    )
}

/// The minutes of the counted sessions, summed in row order.
pub open spec fn focus_total(sessions: Seq<PomodoroSession>, lo: Seq<char>, hi: Seq<char>) -> int
    decreases sessions.len(),
{
    if sessions.len() == 0 {
        0
    } else {
        focus_total(sessions.drop_last(), lo, hi) + (if counts_for_day(sessions.last(), lo, hi) {
            sessions.last().duration_minutes as int
        } else {
            0
        })
    }
}

impl Store {
    /// The position of the cycle with this id, if any.
    fn cycle_index(&self, id: &str) -> (r: Option<usize>)
        ensures
            match r {
                Some(i) => i < self@.cycles.len() && self@.cycles[i as int].id@ == id@,
                None => !has_cycle_id(self@.cycles, id@),
            },
    {
        let mut i: usize = 0;
        while i < self.cycles.len()
            invariant
                i <= self@.cycles.len(),
                forall|j: int| 0 <= j < i ==> self@.cycles[j].id@ != id@,
            decreases self@.cycles.len() - i,
        {
            if str_eq(self.cycles[i].id.as_str(), id) {
                return Some(i);
            }
            i = i + 1;
        }
        None
    }

    /// Adds a cycle row from its prepared fields: the new cycle is in
    /// progress with no completion stamp. Refused exactly when the id is
    /// taken.
    pub fn insert_cycle(&mut self, row: CreatePomodoroCycle) -> (r: Result<
        PomodoroCycle,
        EngineError,
    >)
        requires
            old(self).wf(),
        ensures
            final(self).wf(),
            match r {
                Ok(c) => c == cycle_of_create(row) && !has_cycle_id(old(self)@.cycles, c.id@)
                    && final(self)@.cycles == old(self)@.cycles.push(c) && final(self)@.habits
                    == old(self)@.habits && final(self)@.completions == old(self)@.completions
                    && final(self)@.sessions == old(self)@.sessions,
                Err(e) => e is StorageFailure && has_cycle_id(old(self)@.cycles, row.id@)
                    && final(self)@ == old(self)@,
            },
    {
        match self.cycle_index(row.id.as_str()) {
            Some(_) => Err(
                EngineError::StorageFailure(String::from_str("pomodoro cycle id already taken")),
            ),
            None => {
                let cycle = PomodoroCycle {
                    id: row.id,
                    status: Status::InProgress,
                    focus_duration: row.focus_duration,
                    short_break_duration: row.short_break_duration,
                    long_break_duration: row.long_break_duration,
                    sessions_until_long_break: row.sessions_until_long_break,
                    auto_start_breaks: row.auto_start_breaks,
                    auto_start_pomodoros: row.auto_start_pomodoros,
                    started_at: row.started_at,
                    completed_at: None,
                    updated_at: row.updated_at,
                };
                let out = cycle.clone();
                let ghost cv = cycle;
                self.cycles.push(cycle);
                proof {
                    assert(self@.habits == old(self)@.habits);
                    assert(self@.completions == old(self)@.completions);
                    assert(self@.sessions == old(self)@.sessions);
                    let cs = self@.cycles;
                    assert forall|a: int, b: int|
                        0 <= a < b < cs.len() implies cs[a].id@ != cs[b].id@ by {
                        assert(cs[a] == old(self)@.cycles[a]);
                        if b == cs.len() - 1 {
                            assert(cs[b] == cv);
                            if old(self)@.cycles[a].id@ == cv.id@ {
                                assert(has_cycle_id(old(self)@.cycles, cv.id@));
                            }
                        } else {
                            assert(cs[b] == old(self)@.cycles[b]);
                        }
                    }
                }
                Ok(out)
            },
        }
    }

    /// Starts a pomodoro cycle with the given configuration: a fresh
    /// identity, in progress, started and stamped now. Fails only if the
    /// freshly drawn id is already taken, which requires the store to
    /// already hold a cycle with a 36-character id; in particular an empty
    /// store always succeeds.
    pub fn start_pomodoro_cycle(
        &mut self,
        focus_duration: i32,
        short_break_duration: i32,
        long_break_duration: i32,
        sessions_until_long_break: i32,
        auto_start_breaks: bool,
        auto_start_pomodoros: bool,
    ) -> (r: Result<PomodoroCycle, EngineError>)
        requires
            old(self).wf(),
        ensures
            final(self).wf(),
            match r {
                Ok(c) => {
                    &&& c.status is InProgress
                    &&& c.completed_at is None
                    &&& c.focus_duration == focus_duration
                    &&& c.short_break_duration == short_break_duration
                    &&& c.long_break_duration == long_break_duration
                    &&& c.sessions_until_long_break == sessions_until_long_break
                    &&& c.auto_start_breaks == auto_start_breaks
                    &&& c.auto_start_pomodoros == auto_start_pomodoros
                    &&& c.started_at@ == c.updated_at@
                    &&& c.started_at@.len() >= 19
                    &&& !has_cycle_id(old(self)@.cycles, c.id@)
                    &&& final(self)@.cycles == old(self)@.cycles.push(c)
                    &&& final(self)@.habits == old(self)@.habits
                    &&& final(self)@.completions == old(self)@.completions
                    &&& final(self)@.sessions == old(self)@.sessions
                },
                Err(e) => final(self)@ == old(self)@ && e is StorageFailure && exists|i: int|
                    0 <= i < old(self)@.cycles.len() && (#[trigger] old(
                        self,
                    )@.cycles[i]).id@.len() == 36,
            },
    {
        let id = fresh_id();
        let ghost rid = id@;
        let now = now_timestamp();
        let row = CreatePomodoroCycle {
            id,
            focus_duration,
            short_break_duration,
            long_break_duration,
            sessions_until_long_break,
            auto_start_breaks,
            auto_start_pomodoros,
            started_at: now.clone(),
            updated_at: now,
        };
        let r = self.insert_cycle(row);
        proof {
            if r is Err {
                let i = choose|i: int|
                    0 <= i < old(self)@.cycles.len() && old(self)@.cycles[i].id@ == rid;
                assert(old(self)@.cycles[i].id@.len() == 36);
            }
        }
        r
    }

    /// The most recently started cycle still in progress, together with all
    /// of its sessions in row order, or nothing when no cycle is live. When
    /// several cycles are in progress the latest start wins.
    #[verifier::loop_isolation(false)]
    pub fn get_current_cycle(&self) -> (r: Option<(PomodoroCycle, Vec<PomodoroSession>)>)
        ensures
            match r {
                None => forall|i: int|
                    0 <= i < self@.cycles.len() ==> !(#[trigger] self@.cycles[i].status
                        is InProgress),
                Some((c, sessions)) => {
                    &&& self@.cycles.contains(c)
                    &&& c.status is InProgress
                    &&& forall|i: int|
                        0 <= i < self@.cycles.len() && (#[trigger] self@.cycles[i].status
                            is InProgress) ==> lex_le(self@.cycles[i].started_at@, c.started_at@)
                    &&& sessions@ == self@.sessions.filter(
                        |s: PomodoroSession| s.cycle_id@ == c.id@,
                    )
                },
            },
    {
        let mut best: Option<usize> = None;
        let mut i: usize = 0;
        while i < self.cycles.len()
            invariant
                i <= self@.cycles.len(),
                match best {
                    None => forall|j: int|
                        0 <= j < i ==> !(#[trigger] self@.cycles[j].status is InProgress),
                    Some(b) => {
                        &&& b < i
                        &&& self@.cycles[b as int].status is InProgress
                        &&& forall|j: int|
                            0 <= j < i && (#[trigger] self@.cycles[j].status is InProgress)
                                ==> lex_le(
                                self@.cycles[j].started_at@,
                                self@.cycles[b as int].started_at@,
                            )
                    },
                },
            decreases self@.cycles.len() - i,
        {
            if matches!(self.cycles[i].status, Status::InProgress) {
                match best {
                    None => {
                        proof {
                            crate::text::lemma_lex_le_total(
                                self@.cycles[i as int].started_at@,
                                self@.cycles[i as int].started_at@,
                            );
                        }
                        best = Some(i);
                    },
                    Some(b) => {
                        if !str_le(self.cycles[i].started_at.as_str(), self.cycles[b].started_at.as_str()) {
                            proof {
                                crate::text::lemma_lex_le_total(
                                    self@.cycles[i as int].started_at@,
                                    self@.cycles[b as int].started_at@,
                                );
                            }
                            proof {
                                assert forall|j: int|
                                    0 <= j < i + 1 && (#[trigger] self@.cycles[j].status
                                        is InProgress) implies lex_le(
                                    self@.cycles[j].started_at@,
                                    self@.cycles[i as int].started_at@,
                                ) by {
                                    if j < i {
                                        crate::text::lemma_lex_le_trans(
                                            self@.cycles[j].started_at@,
                                            self@.cycles[b as int].started_at@,
                                            self@.cycles[i as int].started_at@,
                                        );
                                    } else {
                                        crate::text::lemma_lex_le_total(
                                            self@.cycles[j].started_at@,
                                            self@.cycles[j].started_at@,
                                        );
                                    }
                                }
                            }
                            best = Some(i);
                        }
                    },
                }
            }
            i = i + 1;
        }
        match best {
            None => None,
            Some(b) => {
                let cycle = self.cycles[b].clone();
                let ghost pred = |s: PomodoroSession| s.cycle_id@ == cycle.id@;
                let mut sessions: Vec<PomodoroSession> = Vec::new();
                let mut k: usize = 0;
                proof {
                    assert(self@.sessions.take(0) =~= Seq::<PomodoroSession>::empty());
                    assert(Seq::<PomodoroSession>::empty().filter(pred)
                        =~= Seq::<PomodoroSession>::empty()) by {
                        reveal_with_fuel(Seq::filter, 2);
                    }
                }
                while k < self.sessions.len()
                    invariant
                        k <= self@.sessions.len(),
                        sessions@ == self@.sessions.take(k as int).filter(pred),
                    decreases self@.sessions.len() - k,
                {
                    let ghost prefix = self@.sessions.take(k as int);
                    let ghost x = self@.sessions[k as int];
                    if str_eq(self.sessions[k].cycle_id.as_str(), cycle.id.as_str()) {
                        sessions.push(self.sessions[k].clone());
                    }
                    proof {
                        assert(self@.sessions.take(k + 1) =~= prefix + seq![x]);
                        crate::seqs::lemma_filter_one(prefix, x, pred);
                        if pred(x) {
                            assert(sessions@ =~= prefix.filter(pred) + seq![x]);
                        } else {
                            assert(sessions@ =~= prefix.filter(pred));
                        }
                    }
                    k = k + 1;
                }
                proof {
                    assert(self@.sessions.take(self@.sessions.len() as int) =~= self@.sessions);
                    assert(self@.cycles[b as int] == cycle);
                }
                Some((cycle, sessions))
            },
        }
    }

    /// Applies a partial cycle patch to the cycle with this id. An unknown
    /// id is reported as not found and changes nothing.
    pub fn update_cycle_with(&mut self, id: &str, patch: UpdatePomodoroCycle) -> (r: Result<
        PomodoroCycle,
        EngineError,
    >)
        requires
            old(self).wf(),
        ensures
            final(self).wf(),
            final(self)@.habits == old(self)@.habits,
            final(self)@.completions == old(self)@.completions,
            final(self)@.sessions == old(self)@.sessions,
            match r {
                Ok(c) => has_cycle_id(old(self)@.cycles, id@) && c == patched_cycle(
                    old(self)@.cycles[cycle_idx_of(old(self)@.cycles, id@)],
                    patch,
                ) && final(self)@.cycles == old(self)@.cycles.update(
                    cycle_idx_of(old(self)@.cycles, id@),
                    c,
                ),
                Err(e) => e is NotFound && !has_cycle_id(old(self)@.cycles, id@) && final(self)@
                    == old(self)@,
            },
    {
        match self.cycle_index(id) {
            None => Err(EngineError::NotFound),
            Some(i) => {
                let ghost pre = old(self)@.cycles;
                let new_cycle = {
                    let c = &self.cycles[i];
                    PomodoroCycle {
                        id: c.id.clone(),
                        status: match patch.status {
                            Some(st) => st,
                            None => c.status,
                        },
                        focus_duration: c.focus_duration,
                        short_break_duration: c.short_break_duration,
                        long_break_duration: c.long_break_duration,
                        sessions_until_long_break: c.sessions_until_long_break,
                        auto_start_breaks: c.auto_start_breaks,
                        auto_start_pomodoros: c.auto_start_pomodoros,
                        started_at: c.started_at.clone(),
                        completed_at: match patch.completed_at {
                            Some(t) => Some(t),
                            None => match &c.completed_at {
                                Some(t) => Some(t.clone()),
                                None => None,
                            },
                        },
                        updated_at: patch.updated_at,
                    }
                };
                let out = new_cycle.clone();
                let ghost nc = new_cycle;
                let _removed = self.cycles.remove(i);
                self.cycles.insert(i, new_cycle);
                proof {
                    assert(self@.habits == old(self)@.habits);
                    assert(self@.completions == old(self)@.completions);
                    assert(self@.sessions == old(self)@.sessions);
                    assert(has_cycle_id(pre, id@));
                    let ci = cycle_idx_of(pre, id@);
                    if ci != i {
                        assert(pre[ci].id@ == pre[i as int].id@);
                        assert(false);
                    }
                    assert(self@.cycles =~= pre.update(i as int, nc));
                    assert forall|a: int, b: int|
                        0 <= a < b < self@.cycles.len() implies self@.cycles[a].id@
                        != self@.cycles[b].id@ by {
                        assert(pre[a].id@ != pre[b].id@);
                        assert(self@.cycles[a].id@ == pre[a].id@);
                        assert(self@.cycles[b].id@ == pre[b].id@);
                    }
                }
                Ok(out)
            },
        }
    }

    /// Sets a cycle's status, stamping the update moment. Moving to a
    /// terminal status also stamps the completion moment; moving back to in
    /// progress never clears an existing completion stamp.
    pub fn update_cycle_status(&mut self, id: &str, status: Status) -> (r: Result<
        PomodoroCycle,
        EngineError,
    >)
        requires
            old(self).wf(),
        ensures
            final(self).wf(),
            final(self)@.habits == old(self)@.habits,
            final(self)@.completions == old(self)@.completions,
            final(self)@.sessions == old(self)@.sessions,
            match r {
                Ok(c) => {
                    &&& has_cycle_id(old(self)@.cycles, id@)
                    &&& c.status == status
                    &&& c.id@ == id@
                    &&& ((status is Completed || status is Abandoned) ==> c.completed_at is Some)
                    &&& (status is InProgress ==> c.completed_at == old(self)@.cycles[cycle_idx_of(
                        old(self)@.cycles,
                        id@,
                    )].completed_at)
                    &&& exists|p: UpdatePomodoroCycle|
                        #![trigger patched_cycle(old(self)@.cycles[cycle_idx_of(old(self)@.cycles, id@)], p)]
                        {
                            &&& p.status == Some(status)
                            &&& p.updated_at@.len() >= 19
                            &&& (match p.completed_at {
                                Some(t) => (status is Completed || status is Abandoned) && t
                                    == p.updated_at,
                                None => !(status is Completed || status is Abandoned),
                            })
                            &&& c == patched_cycle(
                                old(self)@.cycles[cycle_idx_of(old(self)@.cycles, id@)],
                                p,
                            )
                            &&& final(self)@.cycles == old(self)@.cycles.update(
                                cycle_idx_of(old(self)@.cycles, id@),
                                c,
                            )
                        }
                },
                Err(e) => e is NotFound && !has_cycle_id(old(self)@.cycles, id@) && final(self)@
                    == old(self)@,
            },
    {
        let now = now_timestamp();
        let terminal = matches!(status, Status::Completed | Status::Abandoned);
        let patch = UpdatePomodoroCycle {
            status: Some(status),
            completed_at: if terminal {
                Some(now.clone())
            } else {
                None
            },
            updated_at: now,
        };
        let ghost pv = patch;
        let r = self.update_cycle_with(id, patch);
        proof {
            if r is Ok {
                let ci = cycle_idx_of(old(self)@.cycles, id@);
                assert(patched_cycle(old(self)@.cycles[ci], pv) == patched_cycle(
                    old(self)@.cycles[ci],
                    pv,
                ));
            }
        }
        r
    }

    /// The position of the session with this id, if any.
    fn session_index(&self, id: &str) -> (r: Option<usize>)
        ensures
            match r {
                Some(i) => i < self@.sessions.len() && self@.sessions[i as int].id@ == id@,
                None => !has_session_id(self@.sessions, id@),
            },
    {
        let mut i: usize = 0;
        while i < self.sessions.len()
            invariant
                i <= self@.sessions.len(),
                forall|j: int| 0 <= j < i ==> self@.sessions[j].id@ != id@,
            decreases self@.sessions.len() - i,
        {
            if str_eq(self.sessions[i].id.as_str(), id) {
                return Some(i);
            }
            i = i + 1;
        }
        None
    }

    /// Adds a session row from its prepared fields: the new session has no
    /// completion stamp and is not yet marked completed. The cycle it names
    /// is not checked to be in progress. Refused exactly when the id is
    /// taken.
    pub fn insert_session(&mut self, row: CreatePomodoroSession) -> (r: Result<
        PomodoroSession,
        EngineError,
    >)
        requires
            old(self).wf(),
        ensures
            final(self).wf(),
            match r {
                Ok(s) => s == session_of_create(row) && !has_session_id(old(self)@.sessions, s.id@)
                    && final(self)@.sessions == old(self)@.sessions.push(s) && final(self)@.habits
                    == old(self)@.habits && final(self)@.completions == old(self)@.completions
                    && final(self)@.cycles == old(self)@.cycles,
                Err(e) => e is StorageFailure && has_session_id(old(self)@.sessions, row.id@)
                    && final(self)@ == old(self)@,
            },
    {
        match self.session_index(row.id.as_str()) {
            Some(_) => Err(
                EngineError::StorageFailure(String::from_str("pomodoro session id already taken")),
            ),
            None => {
                let session = PomodoroSession {
                    id: row.id,
                    cycle_id: row.cycle_id,
                    session_type: row.session_type,
                    started_at: row.started_at,
                    completed_at: None,
                    duration_minutes: row.duration_minutes,
                    was_completed: false,
                };
                let out = session.clone();
                let ghost sv = session;
                self.sessions.push(session);
                proof {
                    assert(self@.habits == old(self)@.habits);
                    assert(self@.completions == old(self)@.completions);
                    assert(self@.cycles == old(self)@.cycles);
                    let ss = self@.sessions;
                    assert forall|a: int, b: int|
                        0 <= a < b < ss.len() implies ss[a].id@ != ss[b].id@ by {
                        assert(ss[a] == old(self)@.sessions[a]);
                        if b == ss.len() - 1 {
                            assert(ss[b] == sv);
                            if old(self)@.sessions[a].id@ == sv.id@ {
                                assert(has_session_id(old(self)@.sessions, sv.id@));
                            }
                        } else {
                            assert(ss[b] == old(self)@.sessions[b]);
                        }
                    }
                }
                Ok(out)
            },
        }
    }

    /// Starts a session inside a cycle: a fresh identity, started now, not
    /// yet completed. Fails only if the freshly drawn id is already taken,
    /// which requires the store to already hold a session with a
    /// 36-character id; in particular an empty store always succeeds.
    pub fn start_session(
        &mut self,
        cycle_id: String,
        session_type: SessionType,
        duration_minutes: i32,
    ) -> (r: Result<PomodoroSession, EngineError>)
        requires
            old(self).wf(),
        ensures
            final(self).wf(),
            match r {
                Ok(s) => {
                    &&& s.cycle_id == cycle_id
                    &&& s.session_type == session_type
                    &&& s.duration_minutes == duration_minutes
                    &&& s.started_at@.len() >= 19
                    &&& s.completed_at is None
                    &&& s.was_completed == false
                    &&& !has_session_id(old(self)@.sessions, s.id@)
                    &&& final(self)@.sessions == old(self)@.sessions.push(s)
                    &&& final(self)@.habits == old(self)@.habits
                    &&& final(self)@.completions == old(self)@.completions
                    &&& final(self)@.cycles == old(self)@.cycles
                },
                Err(e) => final(self)@ == old(self)@ && e is StorageFailure && exists|i: int|
                    0 <= i < old(self)@.sessions.len() && (#[trigger] old(
                        self,
                    )@.sessions[i]).id@.len() == 36,
            },
    {
        let id = fresh_id();
        let ghost rid = id@;
        let now = now_timestamp();
        let row = CreatePomodoroSession {
            id,
            cycle_id,
            session_type,
            started_at: now,
            duration_minutes,
        };
        let r = self.insert_session(row);
        proof {
            if r is Err {
                let i = choose|i: int|
                    0 <= i < old(self)@.sessions.len() && old(self)@.sessions[i].id@ == rid;
                assert(old(self)@.sessions[i].id@.len() == 36);
            }
        }
        r
    }

    /// Applies a partial session patch to the session with this id: an
    /// absent completion stamp is left untouched, the completion flag is
    /// always written. An unknown id is reported as not found and changes
    /// nothing.
    pub fn update_session_with(&mut self, id: &str, patch: UpdatePomodoroSession) -> (r: Result<
        PomodoroSession,
        EngineError,
    >)
        requires
            old(self).wf(),
        ensures
            final(self).wf(),
            final(self)@.habits == old(self)@.habits,
            final(self)@.completions == old(self)@.completions,
            final(self)@.cycles == old(self)@.cycles,
            match r {
                Ok(s) => has_session_id(old(self)@.sessions, id@) && s == patched_session(
                    old(self)@.sessions[session_idx_of(old(self)@.sessions, id@)],
                    patch,
                ) && final(self)@.sessions == old(self)@.sessions.update(
                    session_idx_of(old(self)@.sessions, id@),
                    s,
                ),
                Err(e) => e is NotFound && !has_session_id(old(self)@.sessions, id@)
                    && final(self)@ == old(self)@,
            },
    {
        match self.session_index(id) {
            None => Err(EngineError::NotFound),
            Some(i) => {
                let ghost pre = old(self)@.sessions;
                let new_session = {
                    let s = &self.sessions[i];
                    PomodoroSession {
                        id: s.id.clone(),
                        cycle_id: s.cycle_id.clone(),
                        session_type: s.session_type,
                        started_at: s.started_at.clone(),
                        completed_at: match patch.completed_at {
                            Some(t) => Some(t),
                            None => match &s.completed_at {
                                Some(t) => Some(t.clone()),
                                None => None,
                            },
                        },
                        duration_minutes: s.duration_minutes,
                        was_completed: patch.was_completed,
                    }
                };
                let out = new_session.clone();
                let ghost ns = new_session;
                let _removed = self.sessions.remove(i);
                self.sessions.insert(i, new_session);
                proof {
                    assert(self@.habits == old(self)@.habits);
                    assert(self@.completions == old(self)@.completions);
                    assert(self@.cycles == old(self)@.cycles);
                    assert(has_session_id(pre, id@));
                    let si = session_idx_of(pre, id@);
                    if si != i {
                        assert(pre[si].id@ == pre[i as int].id@);
                        assert(false);
                    }
                    assert(self@.sessions =~= pre.update(i as int, ns));
                    assert forall|a: int, b: int|
                        0 <= a < b < self@.sessions.len() implies self@.sessions[a].id@
                        != self@.sessions[b].id@ by {
                        assert(pre[a].id@ != pre[b].id@);
                        assert(self@.sessions[a].id@ == pre[a].id@);
                        assert(self@.sessions[b].id@ == pre[b].id@);
                    }
                }
                Ok(out)
            },
        }
    }

    /// Completes a session: stamps the completion moment now and records the
    /// caller's flag, which may be false for a session that ran to its
    /// timer's end without the user engaging.
    pub fn complete_session(&mut self, session_id: &str, was_completed: bool) -> (r: Result<
        PomodoroSession,
        EngineError,
    >)
        requires
            old(self).wf(),
        ensures
            final(self).wf(),
            final(self)@.habits == old(self)@.habits,
            final(self)@.completions == old(self)@.completions,
            final(self)@.cycles == old(self)@.cycles,
            match r {
                Ok(s) => {
                    &&& has_session_id(old(self)@.sessions, session_id@)
                    &&& s.was_completed == was_completed
                    &&& (match s.completed_at {
                        Some(t) => t@.len() >= 19,
                        None => false,
                    })
                    &&& s.id@ == session_id@
                    &&& exists|p: UpdatePomodoroSession|
                        #![trigger patched_session(old(self)@.sessions[session_idx_of(old(self)@.sessions, session_id@)], p)]
                        {
                            &&& (match p.completed_at {
                                Some(t) => t@.len() >= 19,
                                None => false,
                            })
                            &&& p.was_completed == was_completed
                            &&& s == patched_session(
                                old(self)@.sessions[session_idx_of(
                                    old(self)@.sessions,
                                    session_id@,
                                )],
                                p,
                            )
                            &&& final(self)@.sessions == old(self)@.sessions.update(
                                session_idx_of(old(self)@.sessions, session_id@),
                                s,
                            )
                        }
                },
                Err(e) => e is NotFound && !has_session_id(old(self)@.sessions, session_id@)
                    && final(self)@ == old(self)@,
            },
    {
        let now = now_timestamp();
        let patch = UpdatePomodoroSession { completed_at: Some(now), was_completed };
        let ghost pv = patch;
        let r = self.update_session_with(session_id, patch);
        proof {
            if r is Ok {
                let si = session_idx_of(old(self)@.sessions, session_id@);
                assert(patched_session(old(self)@.sessions[si], pv) == patched_session(
                    old(self)@.sessions[si],
                    pv,
                ));
            }
        }
        r
    }

    /// The total minutes of completed focus sessions that started on this
    /// day, read from its `YYYY-MM-DD` text. The day is the closed interval
    /// from T00:00:00Z through T23:59:59Z on its timestamp texts, so a
    /// session started at the final second of the day still counts. A
    /// malformed date is reported as a validation error.
    #[verifier::loop_isolation(false)]
    pub fn get_daily_stats(&self, date: &str) -> (r: Result<i128, EngineError>)
        ensures
            match r {
                Ok(total) => date_text_wf(date@) && total == focus_total(
                    self@.sessions,
                    day_start_text(date_of_text(date@)),
                    day_end_text(date_of_text(date@)),
                ),
                Err(e) => e is Validation && !date_text_wf(date@),
            },
    {
        let day = match parse_date(date) {
            Some(d) => d,
            None => {
                return Err(EngineError::Validation(String::from_str("date must be YYYY-MM-DD")));
            },
        };
        let mut lo = format_date(&day);
        lo.append("T00:00:00Z");
        let mut hi = format_date(&day);
        hi.append("T23:59:59Z");
        proof {
            reveal_strlit("T00:00:00Z");
            reveal_strlit("T23:59:59Z");
            assert(lo@ =~= day_start_text(day));
            assert(hi@ =~= day_end_text(day));
        }
        let mut total: i128 = 0;
        let mut i: usize = 0;
        while i < self.sessions.len()
            invariant
                i <= self@.sessions.len(),
                total == focus_total(self@.sessions.take(i as int), lo@, hi@),
                -(0x8000_0000 * (i as int)) <= total <= 0x8000_0000 * (i as int),
            decreases self@.sessions.len() - i,
        {
            let counted = matches!(self.sessions[i].session_type, SessionType::Focus)
                && self.sessions[i].was_completed && str_le(
                lo.as_str(),
                self.sessions[i].started_at.as_str(),
            ) && str_le(self.sessions[i].started_at.as_str(), hi.as_str());
            if counted {
                total = total + (self.sessions[i].duration_minutes as i128);
            }
            proof {
                assert(self@.sessions.take(i + 1).drop_last() =~= self@.sessions.take(i as int));
                assert(self@.sessions.take(i + 1).last() == self@.sessions[i as int]);
            }
            i = i + 1;
        }
        proof {
            assert(self@.sessions.take(self@.sessions.len() as int) =~= self@.sessions);
        }
        Ok(total)
    }
}

} // verus!
