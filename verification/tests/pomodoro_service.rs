use tracking_engine::{
    CreatePomodoroCycle, CreatePomodoroSession, EngineError, SessionType, Status, Store,
};

fn cycle_row(id: &str, started_at: &str) -> CreatePomodoroCycle {
    CreatePomodoroCycle {
        id: id.to_string(),
        focus_duration: 25,
        short_break_duration: 5,
        long_break_duration: 15,
        sessions_until_long_break: 4,
        auto_start_breaks: false,
        auto_start_pomodoros: false,
        started_at: started_at.to_string(),
        updated_at: started_at.to_string(),
    }
}

fn session_row(id: &str, cycle_id: &str, kind: SessionType, started_at: &str, minutes: i32) -> CreatePomodoroSession {
    CreatePomodoroSession {
        id: id.to_string(),
        cycle_id: cycle_id.to_string(),
        session_type: kind,
        started_at: started_at.to_string(),
        duration_minutes: minutes,
    }
}

#[test]
fn started_cycle_is_in_progress_and_unstamped() {
    let mut store = Store::new();
    let c = store.start_pomodoro_cycle(25, 5, 15, 4, true, false).unwrap();
    assert!(matches!(c.status, Status::InProgress));
    assert!(c.completed_at.is_none());
    assert_eq!(c.focus_duration, 25);
    assert_eq!(c.short_break_duration, 5);
    assert_eq!(c.long_break_duration, 15);
    assert_eq!(c.sessions_until_long_break, 4);
    assert!(c.auto_start_breaks);
    assert!(!c.auto_start_pomodoros);
    assert_eq!(c.started_at, c.updated_at);
}

#[test]
fn current_cycle_is_none_without_live_cycles() {
    let mut store = Store::new();
    assert!(store.get_current_cycle().is_none());
    let c = store.insert_cycle(cycle_row("c1", "2024-01-01T08:00:00+00:00")).unwrap();
    store.update_cycle_status(&c.id, Status::Completed).unwrap();
    assert!(store.get_current_cycle().is_none());
}

#[test]
fn latest_started_live_cycle_wins() {
    let mut store = Store::new();
    store.insert_cycle(cycle_row("older", "2024-01-01T08:00:00+00:00")).unwrap();
    store.insert_cycle(cycle_row("newer", "2024-01-02T08:00:00+00:00")).unwrap();
    store.insert_cycle(cycle_row("middle", "2024-01-01T20:00:00+00:00")).unwrap();
    let (current, _) = store.get_current_cycle().unwrap();
    assert_eq!(current.id, "newer");
}

#[test]
fn current_cycle_carries_only_its_sessions() {
    let mut store = Store::new();
    store.insert_cycle(cycle_row("c1", "2024-01-01T08:00:00+00:00")).unwrap();
    store
        .insert_session(session_row("s1", "c1", SessionType::Focus, "2024-01-01T08:00:00+00:00", 25))
        .unwrap();
    store
        .insert_session(session_row("s2", "other", SessionType::Focus, "2024-01-01T09:00:00+00:00", 25))
        .unwrap();
    store
        .insert_session(session_row("s3", "c1", SessionType::ShortBreak, "2024-01-01T08:30:00+00:00", 5))
        .unwrap();
    let (current, sessions) = store.get_current_cycle().unwrap();
    assert_eq!(current.id, "c1");
    let ids: Vec<&str> = sessions.iter().map(|s| s.id.as_str()).collect();
    assert_eq!(ids, vec!["s1", "s3"]);
}

#[test]
fn completing_a_cycle_stamps_completion() {
    let mut store = Store::new();
    let c = store.insert_cycle(cycle_row("c1", "2024-01-01T08:00:00+00:00")).unwrap();
    let done = store.update_cycle_status(&c.id, Status::Completed).unwrap();
    assert!(matches!(done.status, Status::Completed));
    assert!(done.completed_at.is_some());
}

#[test]
fn reopening_a_cycle_keeps_its_completion_stamp() {
    let mut store = Store::new();
    let c = store.insert_cycle(cycle_row("c1", "2024-01-01T08:00:00+00:00")).unwrap();
    let done = store.update_cycle_status(&c.id, Status::Abandoned).unwrap();
    let stamp = done.completed_at.clone().unwrap();
    let reopened = store.update_cycle_status(&c.id, Status::InProgress).unwrap();
    assert!(matches!(reopened.status, Status::InProgress));
    assert_eq!(reopened.completed_at, Some(stamp));
}

#[test]
fn cycle_status_update_of_unknown_id_reports_not_found() {
    let mut store = Store::new();
    let r = store.update_cycle_status("missing", Status::Completed);
    assert!(matches!(r, Err(EngineError::NotFound)));
}

#[test]
fn started_session_is_fresh_and_incomplete() {
    let mut store = Store::new();
    let s = store
        .start_session("c1".to_string(), SessionType::Focus, 25)
        .unwrap();
    assert_eq!(s.cycle_id, "c1");
    assert!(matches!(s.session_type, SessionType::Focus));
    assert_eq!(s.duration_minutes, 25);
    assert!(s.completed_at.is_none());
    assert!(!s.was_completed);
}

#[test]
fn completing_a_session_stamps_and_records_the_flag() {
    let mut store = Store::new();
    let s = store
        .insert_session(session_row("s1", "c1", SessionType::Focus, "2024-01-01T08:00:00+00:00", 25))
        .unwrap();
    let done = store.complete_session(&s.id, false).unwrap();
    assert!(done.completed_at.is_some());
    assert!(!done.was_completed);
    let done_again = store.complete_session(&s.id, true).unwrap();
    assert!(done_again.was_completed);
}

#[test]
fn session_completion_of_unknown_id_reports_not_found() {
    let mut store = Store::new();
    let r = store.complete_session("missing", true);
    assert!(matches!(r, Err(EngineError::NotFound)));
}

#[test]
fn daily_stats_sum_completed_focus_sessions_of_the_day() {
    let mut store = Store::new();
    let rows = [
        // Counted: completed focus sessions inside 2024-03-01.
        ("a", SessionType::Focus, "2024-03-01T00:00:00Z", 25, true),
        ("b", SessionType::Focus, "2024-03-01T12:00:00Z", 20, true),
        // The closed upper bound: the final second of the day still counts.
        ("c", SessionType::Focus, "2024-03-01T23:59:59Z", 10, true),
        // The next day's first second does not.
        ("d", SessionType::Focus, "2024-03-02T00:00:00Z", 40, true),
        // A break, and an uncompleted focus session, do not count.
        ("e", SessionType::ShortBreak, "2024-03-01T13:00:00Z", 5, true),
        ("f", SessionType::Focus, "2024-03-01T14:00:00Z", 30, false),
    ];
    for (id, kind, start, minutes, completed) in rows {
        store
            .insert_session(session_row(id, "c1", kind, start, minutes))
            .unwrap();
        if completed {
            store.complete_session(id, true).unwrap();
        }
    }
    assert_eq!(store.get_daily_stats("2024-03-01").unwrap(), 55);
}

#[test]
fn daily_stats_reject_a_malformed_date() {
    let store = Store::new();
    assert!(matches!(store.get_daily_stats("01/03/2024"), Err(EngineError::Validation(_))));
    assert!(matches!(store.get_daily_stats("2024-13-01"), Err(EngineError::Validation(_))));
    assert!(matches!(store.get_daily_stats("2024-02-30"), Err(EngineError::Validation(_))));
}

#[test]
fn status_texts_round_trip_with_lenient_default() {
    assert_eq!(Status::from_str("COMPLETED").to_str(), "COMPLETED");
    assert_eq!(Status::from_str("IN_PROGRESS").to_str(), "IN_PROGRESS");
    assert_eq!(Status::from_str("ABANDONED").to_str(), "ABANDONED");
    assert!(matches!(Status::from_str("whatever"), Status::InProgress));
    assert_eq!(SessionType::from_str("FOCUS").to_str(), "FOCUS");
    assert_eq!(SessionType::from_str("SHORT_BREAK").to_str(), "SHORT_BREAK");
    assert_eq!(SessionType::from_str("LONG_BREAK").to_str(), "LONG_BREAK");
    assert!(matches!(SessionType::from_str("whatever"), SessionType::Focus));
}
