use taskcap::config::{normalize_config, AppConfig};
use taskcap::models::TaskPriority;
use taskcap::panel::priority_from_raw;
use taskcap::store::TaskStore;

#[test]
fn priority_raw_roundtrip_values() {
    for p in [TaskPriority::High, TaskPriority::Medium, TaskPriority::Low] {
        assert_eq!(TaskPriority::from_raw(Some(p.as_raw())), p);
        assert_eq!(priority_from_raw(p.as_raw()), p);
    }
    assert_eq!(TaskPriority::High.as_raw(), 0);
    assert_eq!(TaskPriority::Low.as_raw(), 2);
}

#[test]
fn normalize_twice_is_normalize_once() {
    let mut c = AppConfig::default();
    c.capsule_transparency_percent = 200;
    c.panel_refresh_interval_secs = 1;
    let once = normalize_config(c);
    let twice = normalize_config(once.clone());
    assert_eq!(once.capsule_transparency_percent, twice.capsule_transparency_percent);
    assert_eq!(once.panel_refresh_interval_secs, twice.panel_refresh_interval_secs);
    assert_eq!(once.capsule_transparency_percent, 50);
}

#[test]
fn reload_keeps_only_todays_queue() {
    let mut store = TaskStore::new();
    let t = store.add_task("回复邮件", "", TaskPriority::Medium).unwrap().unwrap();
    store.set_today_queue(t.id, true).unwrap();
    assert_eq!(store.today_tasks_on(&store.tasks[0].today_added_date.clone().unwrap()).len(), 1);
    store.reload_tasks_on("1999-01-01");
    assert!(store.tasks[0].today_sort_index.is_none());
    assert!(store.tasks[0].today_added_date.is_none());
    store.reload_tasks_on("1999-01-01");
    assert!(store.tasks[0].today_sort_index.is_none());
}

#[test]
fn at_most_one_current_task() {
    let mut store = TaskStore::new();
    let a = store.add_task("A", "", TaskPriority::Medium).unwrap().unwrap();
    let b = store.add_task("B", "", TaskPriority::Medium).unwrap().unwrap();
    store.set_current(a.id).unwrap();
    store.set_current(b.id).unwrap();
    assert_eq!(store.tasks.iter().filter(|t| t.is_current).count(), 1);
    assert_eq!(store.current_task().unwrap().id, b.id);
}

#[test]
fn delete_removes_only_that_task() {
    let mut store = TaskStore::new();
    let a = store.add_task("A", "", TaskPriority::Medium).unwrap().unwrap();
    let b = store.add_task("B", "", TaskPriority::Medium).unwrap().unwrap();
    store.delete(a.id).unwrap();
    assert!(store.tasks.iter().all(|t| t.id != a.id));
    assert!(store.tasks.iter().any(|t| t.id == b.id));
    assert_eq!(store.delete(a.id), Ok(()));
    assert_eq!(store.tasks.len(), 1);
}

#[test]
fn open_and_completed_partition_the_list() {
    let mut store = TaskStore::new();
    let a = store.add_task("A", "", TaskPriority::Medium).unwrap().unwrap();
    store.add_task("B", "", TaskPriority::Medium).unwrap();
    store.add_task("C", "", TaskPriority::Medium).unwrap();
    store.complete(a.id, 1_000).unwrap();
    assert_eq!(store.incomplete_tasks().len() + store.completed_tasks().len(), store.tasks.len());
}

#[test]
fn reopen_makes_a_task_open_again() {
    let mut store = TaskStore::new();
    let a = store.add_task("A", "", TaskPriority::Medium).unwrap().unwrap();
    store.complete(a.id, 1_000).unwrap();
    store.reopen(a.id, 2_000).unwrap();
    let t = store.tasks.iter().find(|t| t.id == a.id).unwrap();
    assert!(!t.is_completed);
    assert_eq!(t.completed_at, None);
}

#[test]
fn csv_export_import_keeps_the_tasks() {
    let mut store = TaskStore::new();
    store.add_task("写周报, 带 \"引号\" #工作 !高 /30m", "第一行\n第二行", TaskPriority::Medium).unwrap();
    store.add_task("阅读 +个人", "", TaskPriority::Low).unwrap();
    let text = store.csv_export_text();
    let mut other = TaskStore::new();
    assert_eq!(other.import_csv_text(&text), 2);
    let mut a: Vec<(String, String, TaskPriority, Vec<String>, Option<String>, Option<i32>)> = store
        .tasks
        .iter()
        .map(|t| (t.title.clone(), t.notes.clone(), t.priority(), t.tags(), t.project_name.clone(), t.estimated_minutes))
        .collect();
    let mut b: Vec<(String, String, TaskPriority, Vec<String>, Option<String>, Option<i32>)> = other
        .tasks
        .iter()
        .map(|t| (t.title.clone(), t.notes.clone(), t.priority(), t.tags(), t.project_name.clone(), t.estimated_minutes))
        .collect();
    a.sort_by(|x, y| x.0.cmp(&y.0));
    b.sort_by(|x, y| x.0.cmp(&y.0));
    assert_eq!(a, b);
}

#[test]
fn csv_export_reads_back_as_rows() {
    let mut store = TaskStore::new();
    store.add_task("写周报, 带 \"引号\"", "第一行\n第二行", TaskPriority::High).unwrap();
    let text = store.csv_export_text();
    let rows = taskcap::csv::parse_csv(&text);
    assert_eq!(rows.len(), 2);
    assert_eq!(rows[0].len(), 16);
    assert_eq!(rows[0][0], "id");
    assert_eq!(rows[0][15], "postponeCount");
    assert_eq!(rows[1][1], "写周报, 带 \"引号\"");
    assert_eq!(rows[1][2], "第一行\n第二行");
    assert_eq!(rows[1][3], "false");
    assert_eq!(rows[1][5], "高");
}

#[test]
fn complete_marks_the_task_completed_at_that_instant() {
    let mut store = TaskStore::new();
    let a = store.add_task("A", "", TaskPriority::Medium).unwrap().unwrap();
    store.set_current(a.id).unwrap();
    store.complete(a.id, 5_000).unwrap();
    let t = store.tasks.iter().find(|t| t.id == a.id).unwrap();
    assert!(t.is_completed);
    assert!(!t.is_current);
    assert_eq!(t.completed_at, Some(5_000));
}

#[test]
fn completing_a_repeating_task_adds_the_next_one() {
    let mut store = TaskStore::new();
    let due = 1_780_000_000_000; // 2026-05-28 in milliseconds
    let a = store
        .add_task_from_metadata(
            "日报", "写", false, false, due, due, None, TaskPriority::Low, Some(due), None,
            Some(taskcap::models::TaskRepeatRule::Daily), vec!["工作".into()], Some("运营".into()),
            Some(15), None, vec![],
        )
        .unwrap()
        .unwrap();
    store.complete(a.id, due).unwrap();
    let next = store.tasks.iter().find(|t| t.id != a.id).unwrap();
    assert!(!next.is_completed);
    assert_eq!(next.title, "日报");
    assert_eq!(next.notes, "写");
    assert_eq!(next.due_at, Some(due + 86_400_000));
    assert_eq!(next.priority(), TaskPriority::Low);
    assert_eq!(next.project_name.as_deref(), Some("运营"));
    assert_eq!(next.estimated_minutes, Some(15));
    assert_eq!(next.repeat_rule_raw_value.as_deref(), Some("daily"));
}

#[test]
fn csv_export_writes_identifiers_and_instants_in_their_text_forms() {
    let mut store = TaskStore::new();
    let due = 1_780_000_000_000;
    let a = store
        .add_task_from_metadata(
            "日报", "", false, false, due, due, None, TaskPriority::Low, Some(due), None, None,
            vec![], None, None, None, vec![],
        )
        .unwrap()
        .unwrap();
    let rows = taskcap::csv::parse_csv(&store.csv_export_text());
    assert_eq!(rows[1][0], uuid::Uuid::from_u128(a.id).to_string());
    assert_eq!(
        rows[1][6],
        chrono::DateTime::from_timestamp_millis(due).unwrap().to_rfc3339()
    );
    let mut other = TaskStore::new();
    other.import_csv_text(&store.csv_export_text());
    assert_eq!(other.tasks[0].id, a.id);
    assert_eq!(other.tasks[0].due_at, Some(due));
}

#[test]
fn complete_then_reopen_restores_the_task() {
    let mut store = TaskStore::new();
    let a = store.add_task("报告 #工作 !高", "备注", TaskPriority::Medium).unwrap().unwrap();
    store.complete(a.id, 1_000).unwrap();
    store.reopen(a.id, 2_000).unwrap();
    let t = store.tasks.iter().find(|t| t.id == a.id).unwrap();
    assert!(!t.is_completed);
    assert_eq!(t.completed_at, None);
    assert_eq!(t.updated_at, 2_000);
    assert_eq!(t.title, "报告");
    assert_eq!(t.notes, "备注");
    assert_eq!(t.priority(), TaskPriority::High);
    assert_eq!(t.tags(), vec!["工作"]);
    assert_eq!(store.incomplete_count(), 1);
}

#[test]
fn completing_a_completed_task_changes_nothing() {
    let mut store = TaskStore::new();
    let a = store.add_task("A", "", TaskPriority::Medium).unwrap().unwrap();
    store.complete(a.id, 1_000).unwrap();
    let before: Vec<(u128, bool, Option<i64>)> =
        store.tasks.iter().map(|t| (t.id, t.is_completed, t.completed_at)).collect();
    store.complete(a.id, 9_000).unwrap();
    let after: Vec<(u128, bool, Option<i64>)> =
        store.tasks.iter().map(|t| (t.id, t.is_completed, t.completed_at)).collect();
    assert_eq!(before, after);
}

#[test]
fn starting_focus_stops_the_other_clock() {
    let mut store = TaskStore::new();
    let a = store.add_task("A", "", TaskPriority::Medium).unwrap().unwrap();
    let b = store.add_task("B", "", TaskPriority::Medium).unwrap().unwrap();
    store.start_focus(a.id, 10_000).unwrap();
    store.start_focus(b.id, 70_000).unwrap();
    let ta = store.tasks.iter().find(|t| t.id == a.id).unwrap();
    let tb = store.tasks.iter().find(|t| t.id == b.id).unwrap();
    assert_eq!(ta.focus_started_at, None);
    assert_eq!(ta.focus_seconds(), 60);
    assert_eq!(tb.focus_started_at, Some(70_000));
    assert_eq!(store.current_task().unwrap().id, b.id);
    assert_eq!(store.focus_attention_task_id, Some(b.id));
    assert_eq!(store.pause_focus(7, 1), Err("task not found".to_string()));
}

#[test]
fn history_lists_matching_completions_newest_first() {
    let mut store = TaskStore::new();
    let a = store.add_task("周报 一", "", TaskPriority::Medium).unwrap().unwrap();
    let b = store.add_task("周报 二", "", TaskPriority::Medium).unwrap().unwrap();
    let c = store.add_task("其他", "", TaskPriority::Medium).unwrap().unwrap();
    store.complete(a.id, 1_000).unwrap();
    store.complete(b.id, 3_000).unwrap();
    store.complete(c.id, 2_000).unwrap();
    let h = taskcap::panel::query_history(&store, " 周报 ", None, None);
    assert_eq!(h.iter().map(|t| t.id).collect::<Vec<_>>(), vec![b.id, a.id]);
    let h = taskcap::panel::query_history(&store, "", Some(1_500), Some(2_500));
    assert_eq!(h.iter().map(|t| t.id).collect::<Vec<_>>(), vec![c.id]);
}

#[test]
fn quick_add_takes_marks_found_out_of_order() {
    let mut store = TaskStore::new();
    let t = store.add_task("!低 x !高 a一", "", TaskPriority::Medium).unwrap().unwrap();
    assert_eq!(t.title, "x a一");
    assert_eq!(t.priority(), TaskPriority::Low);
}
