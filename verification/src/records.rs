//! The typed records of the entity store, the closed status variants with
//! their text forms, and the engine's error taxonomy.

use crate::text::str_eq;
use vstd::prelude::*;

verus! {

/// Lifecycle status of a pomodoro cycle. `InProgress` is the only live state;
/// `Completed` and `Abandoned` are terminal.
#[derive(Clone, Copy, Debug, PartialEq, Eq, Structural)]
pub enum Status {
    Completed,
    InProgress,
    Abandoned,
}

/// The kind of a timed interval within a cycle.
#[derive(Clone, Copy, Debug, PartialEq, Eq, Structural)]
pub enum SessionType {
    LongBreak,
    Focus,
    ShortBreak,
}

pub open spec fn status_text(s: Status) -> Seq<char> {
    match s {
        Status::Completed => "COMPLETED"@,
        Status::InProgress => "IN_PROGRESS"@,
        Status::Abandoned => "ABANDONED"@,
    }
}

/// The status named by a text, with unrecognized texts read as `InProgress`.
/// The lenient default mirrors how stored rows with a stray status are shown.
pub open spec fn status_of_text(s: Seq<char>) -> Status {
    if s == "COMPLETED"@ {
        Status::Completed
    } else if s == "ABANDONED"@ {
        Status::Abandoned
    } else {
        Status::InProgress
    }
}

pub open spec fn session_type_text(s: SessionType) -> Seq<char> {
    match s {
        SessionType::LongBreak => "LONG_BREAK"@,
        SessionType::Focus => "FOCUS"@,
        SessionType::ShortBreak => "SHORT_BREAK"@,
    }
}

/// The session type named by a text, with unrecognized texts read as `Focus`.
pub open spec fn session_type_of_text(s: Seq<char>) -> SessionType {
    if s == "LONG_BREAK"@ {
        SessionType::LongBreak
    } else if s == "SHORT_BREAK"@ {
        SessionType::ShortBreak
    } else {
        SessionType::Focus
    }
}

impl Status {
    pub fn from_str(s: &str) -> (r: Status)
        ensures
            r == status_of_text(s@),
    {
        if str_eq(s, "COMPLETED") {
            Status::Completed
        } else if str_eq(s, "ABANDONED") {
            Status::Abandoned
        } else {
            Status::InProgress
        }
    }

    pub fn to_str(&self) -> (r: &'static str)
        ensures
            r@ == status_text(*self),
    {
        match self {
            Status::Completed => "COMPLETED",
            Status::InProgress => "IN_PROGRESS",
            Status::Abandoned => "ABANDONED",
        }
    }
}

impl SessionType {
    pub fn from_str(s: &str) -> (r: SessionType)
        ensures
            r == session_type_of_text(s@),
    {
        if str_eq(s, "LONG_BREAK") {
            SessionType::LongBreak
        } else if str_eq(s, "SHORT_BREAK") {
            SessionType::ShortBreak
        } else {
            SessionType::Focus
        }
    }

    pub fn to_str(&self) -> (r: &'static str)
        ensures
            r@ == session_type_text(*self),
    {
        match self {
            SessionType::LongBreak => "LONG_BREAK",
            SessionType::Focus => "FOCUS",
            SessionType::ShortBreak => "SHORT_BREAK",
        }
    }
}

/// A status survives the trip through its text form.
pub proof fn lemma_status_text_round(s: Status)
    ensures
        status_of_text(status_text(s)) == s,
{
    reveal_strlit("COMPLETED");
    reveal_strlit("IN_PROGRESS");
    reveal_strlit("ABANDONED");
    assert("COMPLETED"@.len() == 9);
    assert("IN_PROGRESS"@.len() == 11);
    assert("ABANDONED"@.len() == 9);
    assert("ABANDONED"@[0] == 'A' && "COMPLETED"@[0] == 'C');
}

/// A session type survives the trip through its text form.
pub proof fn lemma_session_type_text_round(s: SessionType)
    ensures
        session_type_of_text(session_type_text(s)) == s,
{
    reveal_strlit("LONG_BREAK");
    reveal_strlit("FOCUS");
    reveal_strlit("SHORT_BREAK");
    assert("LONG_BREAK"@.len() == 10);
    assert("FOCUS"@.len() == 5);
    assert("SHORT_BREAK"@.len() == 11);
}

/// A recurring activity tracked by daily completion marks.
#[derive(Debug)]
pub struct Habit {
    pub id: String,
    pub title: String,
    pub description: String,
    pub icon: String,
    pub is_archived: bool,
    pub updated_at: String,
    pub created_at: String,
}

/// A partial patch for a habit: only the present fields are applied, while
/// the update stamp is always written.
#[derive(Debug)]
pub struct UpdateHabit {
    pub title: Option<String>,
    pub description: Option<String>,
    pub icon: Option<String>,
    pub is_archived: Option<bool>,
    pub updated_at: String,
}

/// The mark "this habit was completed on this calendar day".
#[derive(Debug)]
pub struct HabitCompletion {
    pub id: String,
    pub habit_id: String,
    pub created_at: String,
}

/// The fields a completion row is created from.
#[derive(Debug)]
pub struct CreateHabitCompletion {
    pub id: String,
    pub habit_id: String,
    pub created_at: String,
}

/// One pomodoro work unit with its configured durations and lifecycle status.
#[derive(Debug)]
pub struct PomodoroCycle {
    pub id: String,
    pub status: Status,
    pub focus_duration: i32,
    pub short_break_duration: i32,
    pub long_break_duration: i32,
    pub sessions_until_long_break: i32,
    pub auto_start_breaks: bool,
    pub auto_start_pomodoros: bool,
    pub started_at: String,
    pub completed_at: Option<String>,
    pub updated_at: String,
}

/// The fields a cycle row is created from; the new cycle starts in progress
/// with no completion stamp.
#[derive(Debug)]
pub struct CreatePomodoroCycle {
    pub id: String,
    pub focus_duration: i32,
    pub short_break_duration: i32,
    pub long_break_duration: i32,
    pub sessions_until_long_break: i32,
    pub auto_start_breaks: bool,
    pub auto_start_pomodoros: bool,
    pub started_at: String,
    pub updated_at: String,
}

/// A partial patch for a cycle: absent fields are left untouched.
#[derive(Debug)]
pub struct UpdatePomodoroCycle {
    pub status: Option<Status>,
    pub completed_at: Option<String>,
    pub updated_at: String,
}

/// One timed interval within a cycle.
#[derive(Debug)]
pub struct PomodoroSession {
    pub id: String,
    pub cycle_id: String,
    pub session_type: SessionType,
    pub started_at: String,
    pub completed_at: Option<String>,
    pub duration_minutes: i32,
    pub was_completed: bool,
}

/// The fields a session row is created from; the new session has no
/// completion stamp and is not yet marked completed.
#[derive(Debug)]
pub struct CreatePomodoroSession {
    pub id: String,
    pub cycle_id: String,
    pub session_type: SessionType,
    pub started_at: String,
    pub duration_minutes: i32,
}

/// A partial patch for a session: an absent stamp is left untouched, the
/// completion flag is always written.
#[derive(Debug)]
pub struct UpdatePomodoroSession {
    pub completed_at: Option<String>,
    pub was_completed: bool,
}

/// How an operation fails, by the engine's taxonomy.
#[derive(Debug)]
pub enum EngineError {
    /// An update or lookup named an id that no row has.
    NotFound,
    /// An input was malformed in a way the engine does not smooth over.
    Validation(String),
    /// The store refused a write, such as an id that is already taken.
    StorageFailure(String),
    /// A remote entitlement call failed; never guessed to be a success.
    RemoteFailure(String),
}

fn clone_opt_text(o: &Option<String>) -> (r: Option<String>)
    ensures
        r == *o,
{
    match o {
        Some(t) => Some(t.clone()),
        None => None,
    }
}

impl Clone for Habit {
    fn clone(&self) -> (r: Self)
        ensures
            r == *self,
    {
        Habit {
            id: self.id.clone(),
            title: self.title.clone(),
            description: self.description.clone(),
            icon: self.icon.clone(),
            is_archived: self.is_archived,
            updated_at: self.updated_at.clone(),
            created_at: self.created_at.clone(),
        }
    }
}

impl Clone for HabitCompletion {
    fn clone(&self) -> (r: Self)
        ensures
            r == *self,
    {
        HabitCompletion {
            id: self.id.clone(),
            habit_id: self.habit_id.clone(),
            created_at: self.created_at.clone(),
        }
    }
}

impl Clone for PomodoroCycle {
    fn clone(&self) -> (r: Self)
        ensures
            r == *self,
    {
        PomodoroCycle {
            id: self.id.clone(),
            status: self.status,
            focus_duration: self.focus_duration,
            short_break_duration: self.short_break_duration,
            long_break_duration: self.long_break_duration,
            sessions_until_long_break: self.sessions_until_long_break,
            auto_start_breaks: self.auto_start_breaks,
            auto_start_pomodoros: self.auto_start_pomodoros,
            started_at: self.started_at.clone(),
            completed_at: clone_opt_text(&self.completed_at),
            updated_at: self.updated_at.clone(),
        }
    }
}

impl Clone for PomodoroSession {
    fn clone(&self) -> (r: Self)
        ensures
            r == *self,
    {
        PomodoroSession {
            id: self.id.clone(),
            cycle_id: self.cycle_id.clone(),
            session_type: self.session_type,
            started_at: self.started_at.clone(),
            completed_at: clone_opt_text(&self.completed_at),
            duration_minutes: self.duration_minutes,
            was_completed: self.was_completed,
        }
    }
}

} // verus!
