use tracking_engine::{Date, EngineError, Habit, Store, UpdateHabit};

fn habit(id: &str, title: &str, archived: bool, created_at: &str) -> Habit {
    Habit {
        id: id.to_string(),
        title: title.to_string(),
        description: String::new(),
        icon: String::new(),
        is_archived: archived,
        updated_at: created_at.to_string(),
        created_at: created_at.to_string(),
    }
}

#[test]
fn create_habit_is_active_with_fresh_identity() {
    let mut store = Store::new();
    let h = store
        .create_habit("Read".to_string(), "A chapter a day".to_string(), "book".to_string())
        .unwrap();
    assert_eq!(h.title, "Read");
    assert_eq!(h.description, "A chapter a day");
    assert_eq!(h.icon, "book");
    assert!(!h.is_archived);
    assert_eq!(h.created_at, h.updated_at);
    assert_eq!(h.id.len(), 36);
    assert_eq!(store.habits.len(), 1);
}

#[test]
fn listing_splits_active_and_archived() {
    let mut store = Store::new();
    store.insert_habit(habit("a", "Read", false, "2024-01-01T08:00:00+00:00")).unwrap();
    store.insert_habit(habit("b", "Run", true, "2024-01-02T08:00:00+00:00")).unwrap();
    store.insert_habit(habit("c", "Write", false, "2024-01-03T08:00:00+00:00")).unwrap();
    let active = store.get_active_habits();
    let archived = store.get_archived_habits();
    assert_eq!(active.len(), 2);
    assert_eq!(archived.len(), 1);
    assert!(active.iter().all(|h| !h.is_archived));
    assert!(archived.iter().all(|h| h.is_archived));
    // Most recently created first.
    assert_eq!(active[0].id, "c");
    assert_eq!(active[1].id, "a");
    assert_eq!(archived[0].id, "b");
}

#[test]
fn archiving_moves_a_habit_between_listings() {
    let mut store = Store::new();
    store.insert_habit(habit("a", "Read", false, "2024-01-01T08:00:00+00:00")).unwrap();
    let patch = UpdateHabit {
        title: None,
        description: None,
        icon: None,
        is_archived: Some(true),
        updated_at: "2024-02-01T08:00:00+00:00".to_string(),
    };
    store.update_habit_with("a", patch).unwrap();
    assert_eq!(store.get_active_habits().len(), 0);
    let archived = store.get_archived_habits();
    assert_eq!(archived.len(), 1);
    assert_eq!(archived[0].updated_at, "2024-02-01T08:00:00+00:00");
    assert_eq!(archived[0].created_at, "2024-01-01T08:00:00+00:00");
    assert_eq!(archived[0].title, "Read");
}

#[test]
fn update_patches_only_present_fields_and_stamps() {
    let mut store = Store::new();
    store.insert_habit(habit("a", "Read", false, "2024-01-01T08:00:00+00:00")).unwrap();
    let patch = UpdateHabit {
        title: Some("Read more".to_string()),
        description: None,
        icon: None,
        is_archived: None,
        updated_at: "2024-03-01T08:00:00+00:00".to_string(),
    };
    store.update_habit_with("a", patch).unwrap();
    let h = &store.habits[0];
    assert_eq!(h.title, "Read more");
    assert_eq!(h.description, "");
    assert!(!h.is_archived);
    assert_eq!(h.updated_at, "2024-03-01T08:00:00+00:00");
}

#[test]
fn update_of_unknown_id_reports_not_found() {
    let mut store = Store::new();
    let patch = UpdateHabit {
        title: None,
        description: None,
        icon: None,
        is_archived: None,
        updated_at: "2024-03-01T08:00:00+00:00".to_string(),
    };
    let r = store.update_habit_with("missing", patch);
    assert!(matches!(r, Err(EngineError::NotFound)));
}

#[test]
fn duplicate_habit_id_is_a_storage_failure() {
    let mut store = Store::new();
    store.insert_habit(habit("a", "Read", false, "2024-01-01T08:00:00+00:00")).unwrap();
    let r = store.insert_habit(habit("a", "Run", false, "2024-01-02T08:00:00+00:00"));
    assert!(matches!(r, Err(EngineError::StorageFailure(_))));
    assert_eq!(store.habits.len(), 1);
}

#[test]
fn toggle_sets_then_unsets_a_day_mark() {
    let mut store = Store::new();
    store.insert_habit(habit("a", "Read", false, "2024-01-01T08:00:00+00:00")).unwrap();
    store
        .toggle_habit_completion(None, "a".to_string(), Some("2024-06-01".to_string()))
        .unwrap();
    assert_eq!(store.completions.len(), 1);
    assert_eq!(store.completions[0].habit_id, "a");
    assert_eq!(store.completions[0].created_at, "2024-06-01");
    store
        .toggle_habit_completion(None, "a".to_string(), Some("2024-06-01".to_string()))
        .unwrap();
    assert_eq!(store.completions.len(), 0);
}

#[test]
fn toggle_with_malformed_date_falls_back_to_today() {
    let mut store = Store::new();
    store.insert_habit(habit("a", "Read", false, "2024-01-01T08:00:00+00:00")).unwrap();
    store
        .toggle_habit_completion(None, "a".to_string(), Some("not-a-date".to_string()))
        .unwrap();
    assert_eq!(store.completions.len(), 1);
    // The lenient fallback stores a canonical calendar day, not the raw text.
    assert!(tracking_engine::parse_date(&store.completions[0].created_at).is_some());
}

#[test]
fn deleting_a_habit_removes_its_completions() {
    let mut store = Store::new();
    store.insert_habit(habit("a", "Read", false, "2024-01-01T08:00:00+00:00")).unwrap();
    store.insert_habit(habit("b", "Run", false, "2024-01-02T08:00:00+00:00")).unwrap();
    store
        .toggle_habit_completion(None, "a".to_string(), Some("2024-06-01".to_string()))
        .unwrap();
    store
        .toggle_habit_completion(None, "a".to_string(), Some("2024-06-02".to_string()))
        .unwrap();
    store
        .toggle_habit_completion(None, "b".to_string(), Some("2024-06-01".to_string()))
        .unwrap();
    store.delete_habit("a");
    assert_eq!(store.habits.len(), 1);
    assert_eq!(store.habits[0].id, "b");
    assert_eq!(store.completions.len(), 1);
    assert!(store.completions.iter().all(|c| c.habit_id != "a"));
}

#[test]
fn completions_list_newest_day_first_with_limit() {
    let mut store = Store::new();
    store.insert_habit(habit("a", "Read", false, "2024-01-01T08:00:00+00:00")).unwrap();
    for day in ["2024-06-01", "2024-06-03", "2024-06-02"] {
        store
            .toggle_habit_completion(None, "a".to_string(), Some(day.to_string()))
            .unwrap();
    }
    let all = store.get_habit_completions("a", None);
    assert_eq!(all.len(), 3);
    assert_eq!(all[0].created_at, "2024-06-03");
    assert_eq!(all[1].created_at, "2024-06-02");
    assert_eq!(all[2].created_at, "2024-06-01");
    let top = store.get_habit_completions("a", Some(2));
    assert_eq!(top.len(), 2);
    assert_eq!(top[0].created_at, "2024-06-03");
    assert_eq!(top[1].created_at, "2024-06-02");
}

#[test]
fn streak_counts_consecutive_days_back_from_yesterday() {
    let mut store = Store::new();
    store.insert_habit(habit("a", "Read", false, "2024-01-01T08:00:00+00:00")).unwrap();
    for day in ["2024-06-09", "2024-06-08", "2024-06-07"] {
        store
            .toggle_habit_completion(None, "a".to_string(), Some(day.to_string()))
            .unwrap();
    }
    let today = Date { year: 2024, month: 6, day: 10 };
    assert_eq!(store.streak_on("a", &today), 3);
    store
        .toggle_habit_completion(None, "a".to_string(), Some("2024-06-10".to_string()))
        .unwrap();
    assert_eq!(store.streak_on("a", &today), 4);
}

#[test]
fn streak_stops_at_the_first_gap() {
    let mut store = Store::new();
    store.insert_habit(habit("a", "Read", false, "2024-01-01T08:00:00+00:00")).unwrap();
    for day in ["2024-06-09", "2024-06-07", "2024-06-06"] {
        store
            .toggle_habit_completion(None, "a".to_string(), Some(day.to_string()))
            .unwrap();
    }
    let today = Date { year: 2024, month: 6, day: 10 };
    assert_eq!(store.streak_on("a", &today), 1);
}

#[test]
fn streak_walks_across_a_month_boundary() {
    let mut store = Store::new();
    store.insert_habit(habit("a", "Read", false, "2024-01-01T08:00:00+00:00")).unwrap();
    // February 2024 is a leap month: the 29th exists and precedes March 1st.
    for day in ["2024-02-28", "2024-02-29", "2024-03-01"] {
        store
            .toggle_habit_completion(None, "a".to_string(), Some(day.to_string()))
            .unwrap();
    }
    let today = Date { year: 2024, month: 3, day: 2 };
    assert_eq!(store.streak_on("a", &today), 3);
}

#[test]
fn streak_of_unmarked_habit_is_zero() {
    let store = Store::new();
    let today = Date { year: 2024, month: 6, day: 10 };
    assert_eq!(store.streak_on("missing", &today), 0);
}

#[test]
fn end_to_end_read_habit_round_trip() {
    let mut store = Store::new();
    let h = store
        .create_habit("Read".to_string(), String::new(), String::new())
        .unwrap();
    store
        .toggle_habit_completion(None, h.id.clone(), Some("2024-06-01".to_string()))
        .unwrap();
    let rows = store.get_habit_completions(&h.id, None);
    assert_eq!(rows.len(), 1);
    assert_eq!(rows[0].created_at, "2024-06-01");
    let row_id = rows[0].id.clone();
    store
        .toggle_habit_completion(Some(row_id), h.id.clone(), None)
        .unwrap();
    assert_eq!(store.get_habit_completions(&h.id, None).len(), 0);
}

#[test]
fn update_habit_stamps_the_current_moment() {
    let mut store = Store::new();
    store.insert_habit(habit("a", "Read", false, "2024-01-01T08:00:00+00:00")).unwrap();
    store
        .update_habit("a", Some("Read daily".to_string()), None, None, None)
        .unwrap();
    let h = &store.habits[0];
    assert_eq!(h.title, "Read daily");
    assert_ne!(h.updated_at, "2024-01-01T08:00:00+00:00");
    assert!(h.updated_at.len() >= 19);
}

#[test]
fn deleting_an_unknown_habit_changes_nothing() {
    let mut store = Store::new();
    store.insert_habit(habit("a", "Read", false, "2024-01-01T08:00:00+00:00")).unwrap();
    store.delete_habit("missing");
    assert_eq!(store.habits.len(), 1);
}

#[test]
fn explicit_id_toggle_deletes_only_that_row() {
    let mut store = Store::new();
    store.insert_habit(habit("a", "Read", false, "2024-01-01T08:00:00+00:00")).unwrap();
    store
        .toggle_habit_completion(None, "a".to_string(), Some("2024-06-01".to_string()))
        .unwrap();
    store
        .toggle_habit_completion(None, "a".to_string(), Some("2024-06-02".to_string()))
        .unwrap();
    let rows = store.get_habit_completions("a", None);
    let target = rows.iter().find(|c| c.created_at == "2024-06-01").unwrap().id.clone();
    store
        .toggle_habit_completion(Some(target), "a".to_string(), None)
        .unwrap();
    let left = store.get_habit_completions("a", None);
    assert_eq!(left.len(), 1);
    assert_eq!(left[0].created_at, "2024-06-02");
}
