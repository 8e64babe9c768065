//! Verified tracking engine for a personal productivity application.
//!
//! The engine manages two trackable entities: recurring habits with daily
//! completion marks, and pomodoro focus cycles composed of timed sessions.
//! All records live in an explicitly constructed in-memory [`store::Store`],
//! which plays the role of the persistent entity store; every operation on it
//! is specified and verified. Identifier generation and the clock are the only
//! effects, reached through small trusted wrappers in [`runtime`].

mod dates;
mod habits;
mod license;
mod pomodoro;
mod records;
mod runtime;
mod seqs;
mod store;
mod streak;
mod text;

pub use dates::{date_le, format_date, lemma_date_text_order, parse_date, Date};
pub use habits::{
    habit_created_desc, lemma_toggle_involutive, patched_habit, toggled_completions,
};
pub use license::{
    activate_request_body, instance_request_body, interpret_activation, interpret_checkout,
    interpret_deactivation, interpret_validation, json_string, ActivateLicenseKeyArgs,
    ActivateLicenseKeyResponse, DeactivateLicenseKeyArgs, DeactivateLicenseKeyResponse,
    GenerateCheckoutSessionResponse, ValidateLicenseKeyArgs, ValidateLicenseKeyResponse,
};
pub use pomodoro::{cycle_of_create, patched_cycle, patched_session, session_of_create};
pub use runtime::today_utc;
pub use store::Store;
pub use streak::{lemma_streak_gap_caps, lemma_streak_three_back, run_before, streak_of};
pub use records::{
    CreateHabitCompletion, CreatePomodoroCycle, CreatePomodoroSession, EngineError, Habit,
    HabitCompletion, PomodoroCycle, PomodoroSession, SessionType, Status, UpdateHabit,
    UpdatePomodoroCycle, UpdatePomodoroSession,
};
