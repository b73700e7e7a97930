use chrono::{TimeZone, Utc};
use taskcap::models::TaskItem;
use taskcap::reminder::{is_reminder_due, toast_text, ReminderState};
use taskcap::store::TaskStore;

fn ms(y: i32, mo: u32, d: u32, h: u32, mi: u32, s: u32) -> i64 {
    Utc.with_ymd_and_hms(y, mo, d, h, mi, s).unwrap().timestamp_millis()
}

fn sample_task(reminder_at: Option<i64>) -> TaskItem {
    TaskItem {
        id: 7,
        title: "Call".into(),
        notes: String::new(),
        is_completed: false,
        is_current: false,
        created_at: 0,
        updated_at: 0,
        completed_at: None,
        sort_index: 0,
        priority_raw_value: None,
        due_at: None,
        reminder_at,
        repeat_rule_raw_value: None,
        tags_raw_value: None,
        project_name: None,
        estimated_minutes: None,
        today_sort_index: None,
        today_added_date: None,
        subtasks: vec![],
        focus_started_at: None,
        focus_accumulated_seconds: None,
        postponed_at: None,
        postpone_count_raw_value: None,
    }
}

#[test]
fn reminder_due_within_two_minute_window() {
    let now = ms(2026, 6, 10, 12, 1, 30);
    let reminder_at = ms(2026, 6, 10, 12, 0, 0);
    let task = sample_task(Some(reminder_at));
    assert!(is_reminder_due(&task, now));
}

#[test]
fn reminder_not_due_before_time_or_after_window() {
    let reminder_at = ms(2026, 6, 10, 12, 0, 0);
    let before = ms(2026, 6, 10, 11, 59, 0);
    let after = ms(2026, 6, 10, 12, 3, 0);
    let task = sample_task(Some(reminder_at));
    assert!(!is_reminder_due(&task, before));
    assert!(!is_reminder_due(&task, after));
}

#[test]
fn reminder_falls_back_to_due_date() {
    let mut task = sample_task(None);
    task.due_at = Some(ms(2026, 6, 10, 12, 0, 0));
    assert!(is_reminder_due(&task, ms(2026, 6, 10, 12, 0, 0)));
    assert!(is_reminder_due(&task, ms(2026, 6, 10, 12, 2, 0)));
    assert!(!is_reminder_due(&task, ms(2026, 6, 10, 12, 2, 1)));
    assert!(!is_reminder_due(&sample_task(None), ms(2026, 6, 10, 12, 0, 0)));
}

#[test]
fn reminders_fire_once_per_task() {
    let mut store = TaskStore::new();
    let at = ms(2026, 6, 10, 12, 0, 0);
    store
        .add_task_from_metadata(
            "Call", "", false, false, at, at, None, taskcap::models::TaskPriority::Medium,
            None, Some(at), None, vec![], None, None, None, vec![],
        )
        .unwrap();
    let mut state = ReminderState::new();
    let first = state.take_due(&store, at + 30_000);
    assert_eq!(first.len(), 1);
    let second = state.take_due(&store, at + 30_000);
    assert!(second.is_empty());
    assert!(state.should_fire(99));
    assert!(!state.should_fire(99));
}

#[test]
fn toast_text_names_the_task() {
    let task = sample_task(None);
    assert!(toast_text(&task).contains("Call"));
}
