use chrono::{Datelike, TimeZone, Timelike, Utc};
use taskcap::models::{TaskItem, TaskPostponeOption, TaskPriority, TaskRepeatRule};
use taskcap::parser::parse;
use taskcap::store::TaskStore;

fn ms(y: i32, mo: u32, d: u32, h: u32, mi: u32, s: u32) -> i64 {
    Utc.with_ymd_and_hms(y, mo, d, h, mi, s).unwrap().timestamp_millis()
}

fn now() -> i64 {
    Utc::now().timestamp_millis()
}

fn utc(t: i64) -> chrono::DateTime<Utc> {
    Utc.timestamp_millis_opt(t).unwrap()
}

fn count_of(counts: &[(TaskPriority, usize)], p: TaskPriority) -> usize {
    counts.iter().find(|(q, _)| *q == p).map(|(_, n)| *n).unwrap_or(0)
}

fn titles(v: &[TaskItem]) -> Vec<String> {
    v.iter().map(|t| t.title.clone()).collect()
}

fn find(store: &TaskStore, id: u128) -> TaskItem {
    store.tasks.iter().find(|t| t.id == id).unwrap().clone()
}

fn add(store: &mut TaskStore, title: &str, p: TaskPriority) -> TaskItem {
    store.add_task(title, "", p).unwrap().unwrap()
}

#[allow(clippy::too_many_arguments)]
fn add_meta(
    store: &mut TaskStore,
    title: &str,
    notes: &str,
    at: i64,
    priority: TaskPriority,
    due: Option<i64>,
    tags: Vec<String>,
    project: Option<String>,
    minutes: Option<i32>,
) -> TaskItem {
    store
        .add_task_from_metadata(
            title, notes, false, false, at, at, None, priority, due, None, None, tags, project,
            minutes, None, vec![],
        )
        .unwrap()
        .unwrap()
}

#[test]
fn taskcap_checks() {
    // CRUD + current task rules
    {
        let mut store = TaskStore::new();
        let task = add(&mut store, "Draft launch notes", TaskPriority::Medium);
        assert!(store.incomplete_count() == 1, "First task was not added");
        assert!(store.current_task().is_none(), "New tasks should not become current automatically");
        assert_eq!(store.menu_bar_title(), "暂无当前任务");
        assert_eq!(task.priority(), TaskPriority::Medium);
        store.update_title(task.id, "  Launch v1 checklist  ").unwrap();
        assert_eq!(find(&store, task.id).title, "Launch v1 checklist");
        store.update_title(task.id, "   ").unwrap();
        assert_eq!(find(&store, task.id).title, "Launch v1 checklist");
        store.set_current(task.id).unwrap();
        assert_eq!(store.current_task().unwrap().title, "Launch v1 checklist");
        assert!(store.current_task().unwrap().is_current);
    }

    {
        let mut store = TaskStore::new();
        let first = add(&mut store, "First", TaskPriority::Medium);
        add(&mut store, "Second", TaskPriority::Medium);
        store.set_current(first.id).unwrap();
        store.complete(first.id, now()).unwrap();
        assert_eq!(store.incomplete_count(), 1);
        assert!(store.current_task().is_none());
        assert_eq!(store.incomplete_tasks()[0].title, "Second");
        assert_eq!(store.completed_tasks().len(), 1);
    }

    {
        let mut store = TaskStore::new();
        let task = add(&mut store, "Only task", TaskPriority::Medium);
        store.complete(task.id, now()).unwrap();
        assert!(store.incomplete_tasks().is_empty());
        assert_eq!(store.completed_tasks()[0].title, "Only task");
    }

    {
        let mut store = TaskStore::new();
        add(&mut store, "One", TaskPriority::Medium);
        add(&mut store, "Two", TaskPriority::Medium);
        add(&mut store, "Three", TaskPriority::Medium);
        store.advance_current().unwrap();
        assert_eq!(store.current_task().unwrap().title, "One");
        store.advance_current().unwrap();
        assert_eq!(store.current_task().unwrap().title, "Two");
        store.advance_current().unwrap();
        assert_eq!(store.current_task().unwrap().title, "Three");
        store.advance_current().unwrap();
        assert_eq!(store.current_task().unwrap().title, "One");
    }

    {
        let mut store = TaskStore::new();
        assert!(store.add_task("   ", "", TaskPriority::Medium).unwrap().is_none());
        assert_eq!(store.incomplete_count(), 0);
    }

    {
        let mut store = TaskStore::new();
        let first = add(&mut store, "First", TaskPriority::Medium);
        add(&mut store, "Second", TaskPriority::Medium);
        store.set_current(first.id).unwrap();
        store.delete(first.id).unwrap();
        assert_eq!(store.incomplete_count(), 1);
        assert!(store.current_task().is_none());
        assert_eq!(store.incomplete_tasks()[0].title, "Second");
    }

    // priority
    {
        let mut store = TaskStore::new();
        let low = add(&mut store, "Low", TaskPriority::Low);
        let high = add(&mut store, "High", TaskPriority::High);
        let medium = add(&mut store, "Medium", TaskPriority::Medium);
        let counts = store.priority_counts();
        assert_eq!(count_of(&counts, TaskPriority::High), 1);
        assert_eq!(count_of(&counts, TaskPriority::Medium), 1);
        assert_eq!(count_of(&counts, TaskPriority::Low), 1);
        assert_eq!(titles(&store.preview_tasks(3)), vec!["High", "Medium", "Low"]);
        store.set_priority(low.id, TaskPriority::High).unwrap();
        let counts = store.priority_counts();
        assert_eq!(count_of(&counts, TaskPriority::High), 2);
        assert_eq!(count_of(&counts, TaskPriority::Low), 0);
        store.complete(high.id, now()).unwrap();
        assert_eq!(titles(&store.preview_tasks(2)), vec!["Low", "Medium"]);
        let _ = medium;
    }

    // legacy priority nil => medium
    {
        let item = TaskItem {
            id: uuid::Uuid::new_v4().as_u128(),
            title: "Legacy".into(),
            notes: String::new(),
            is_completed: false,
            is_current: false,
            created_at: now(),
            updated_at: now(),
            completed_at: None,
            sort_index: 0,
            priority_raw_value: None,
            due_at: None,
            reminder_at: None,
            repeat_rule_raw_value: None,
            tags_raw_value: None,
            project_name: None,
            estimated_minutes: None,
            today_sort_index: None,
            today_added_date: None,
            subtasks: vec![],
            focus_started_at: None,
            focus_accumulated_seconds: Some(0),
            postponed_at: None,
            postpone_count_raw_value: Some(0),
        };
        assert_eq!(item.priority(), TaskPriority::Medium);
    }

    // parser
    {
        let at = ms(2026, 6, 1, 12, 0, 0);
        let parsed = parse("明天 10点 发周报 #工作 !高 /30m", TaskPriority::Medium, at).unwrap();
        assert_eq!(parsed.title, "发周报");
        assert_eq!(parsed.priority, TaskPriority::High);
        assert_eq!(parsed.tags, vec!["工作"]);
        assert_eq!(parsed.estimated_minutes, Some(30));
        let due = utc(parsed.due_at.unwrap());
        assert_eq!(due.day(), 2);
        assert_eq!(due.hour(), 10);
        assert_eq!(due.minute(), 0);
    }

    {
        let mut store = TaskStore::new();
        let task = add(&mut store, "今天 15:30 写日报 #工作 !低 /45m", TaskPriority::Medium);
        assert_eq!(task.title, "写日报");
        assert_eq!(task.priority(), TaskPriority::Low);
        assert_eq!(task.tags(), vec!["工作"]);
        assert_eq!(task.estimated_minutes, Some(45));
        assert!(task.due_at.is_some());
        assert!(task.is_in_today_queue());
        assert_eq!(store.today_tasks().len(), 1);
    }

    {
        let at = ms(2026, 6, 1, 12, 0, 0);
        let parsed = parse("每周五 18:00 发周报 #工作 !高", TaskPriority::Medium, at).unwrap();
        assert_eq!(parsed.repeat_rule, Some(TaskRepeatRule::Weekly));
        assert_eq!(parsed.title, "发周报");
        let due = utc(parsed.due_at.unwrap());
        assert_eq!(due.weekday().num_days_from_monday(), 4);
        assert_eq!(due.hour(), 18);
        assert_eq!(due.minute(), 0);
    }

    {
        let mut store = TaskStore::new();
        let task = add(&mut store, "每周五 18:00 发周报 #工作 !高 /30m", TaskPriority::Medium);
        let old_due = task.due_at;
        store.complete(task.id, now()).unwrap();
        assert_eq!(store.completed_tasks().len(), 1);
        assert_eq!(store.incomplete_count(), 1);
        let next = store.incomplete_tasks()[0].clone();
        assert_eq!(next.title, "发周报");
        assert_eq!(next.repeat_rule(), Some(TaskRepeatRule::Weekly));
        assert_eq!(next.tags(), vec!["工作"]);
        assert_eq!(next.estimated_minutes, Some(30));
        assert_eq!(next.priority(), TaskPriority::High);
        assert_ne!(next.due_at, old_due);
    }

    // focus
    {
        let mut store = TaskStore::new();
        let task = add(&mut store, "写产品方案 /25m", TaskPriority::Medium);
        let start = 100_000;
        let pause = 700_000;
        store.start_focus(task.id, start).unwrap();
        assert_eq!(store.active_focus_task().unwrap().id, task.id);
        assert_eq!(store.focus_attention_task().unwrap().id, task.id);
        store.pause_focus(task.id, pause).unwrap();
        assert_eq!(store.focus_seconds(task.id, pause), 600);
        assert_eq!(store.focus_remaining_seconds(task.id, pause, 45), 900);
        assert!(store.active_focus_task().is_none());
        assert_eq!(store.focus_attention_task().unwrap().id, task.id);
        store.start_focus(task.id, pause).unwrap();
        assert_eq!(store.active_focus_task().unwrap().id, task.id);
        let stop = 760_000;
        store.stop_focus(task.id, stop).unwrap();
        assert!(store.active_focus_task().is_none());
        assert!(store.focus_attention_task().is_none());

        let default_task = add(&mut store, "阅读资料", TaskPriority::Medium);
        assert_eq!(store.focus_target_minutes(default_task.id, 15), 15);
        assert_eq!(store.focus_remaining_seconds(default_task.id, pause, 15), 900);
    }

    // subtasks
    {
        let mut store = TaskStore::new();
        let task = add(&mut store, "整理发布清单", TaskPriority::Medium);
        store.add_subtask(task.id, "检查安装包").unwrap();
        store.add_subtask(task.id, "更新说明").unwrap();
        let t = find(&store, task.id);
        assert_eq!(t.subtasks().len(), 2);
        let sub_id = t.subtasks()[0].id;
        store.toggle_subtask(task.id, sub_id).unwrap();
        let t = find(&store, task.id);
        assert_eq!(t.completed_subtask_count(), 1);
        let sub2 = t.subtasks()[1].id;
        store.delete_subtask(task.id, sub2).unwrap();
        let t = find(&store, task.id);
        assert_eq!(t.subtasks().len(), 1);
    }

    // postpone + review
    {
        let mut store = TaskStore::new();
        let at = ms(2026, 6, 1, 10, 0, 0);
        let task = add(&mut store, "回复邮件", TaskPriority::Medium);
        store.set_today_queue(task.id, true).unwrap();
        store.postpone(task.id, TaskPostponeOption::Tomorrow, at).unwrap();
        let t = find(&store, task.id);
        assert_eq!(t.postpone_count(), 1);
        assert!(t.due_at.is_some());
        assert!(!t.is_in_today_queue());
        let review = store.daily_review(at);
        assert_eq!(review.postponed_today.len(), 1);
        assert_eq!(review.tomorrow_tasks.len(), 1);
    }

    {
        let mut store = TaskStore::new();
        let at = ms(2026, 6, 1, 10, 0, 0);
        let today_due = ms(2026, 6, 1, 16, 0, 0);
        let future_due = ms(2026, 6, 4, 9, 0, 0);
        add_meta(&mut store, "低优未来", "", at, TaskPriority::Low, Some(future_due), vec![], None, None);
        add_meta(&mut store, "高优今天", "", at, TaskPriority::High, Some(today_due), vec![], None, Some(20));
        add_meta(&mut store, "中优无日期", "", at, TaskPriority::Medium, None, vec![], None, None);
        assert_eq!(store.suggested_today_tasks(1, at)[0].title, "高优今天");
        let task_id = store
            .incomplete_tasks()
            .into_iter()
            .find(|t| t.title == "中优无日期")
            .unwrap()
            .id;
        store.postpone(task_id, TaskPostponeOption::ThisWeek, at).unwrap();
        let t = find(&store, task_id);
        assert!(t.due_at.is_some());
        assert!(!t.is_in_today_queue());
    }

    // export/import of the archive (the JSON framing stands in the application)
    {
        let mut store = TaskStore::new();
        let task = add(&mut store, "导出测试 #数据 !高 /10m", TaskPriority::Medium);
        store.add_subtask(task.id, "子任务").unwrap();
        let archive = store.archive_at(now());
        let mut imported = TaskStore::new();
        let count = imported.import_items(archive.tasks);
        assert_eq!(count, 1);
        assert_eq!(imported.incomplete_count(), 1);
        let t = imported.incomplete_tasks()[0].clone();
        assert_eq!(t.priority(), TaskPriority::High);
        assert_eq!(t.tags(), vec!["数据"]);
        assert_eq!(t.subtasks().len(), 1);
    }

    // tags/projects/search
    {
        let mut store = TaskStore::new();
        let due = ms(2026, 6, 3, 10, 0, 0);
        add_meta(
            &mut store,
            "准备客户演示",
            "带上设计稿",
            now(),
            TaskPriority::High,
            Some(due),
            vec!["客户".into(), "演示".into()],
            Some("增长项目".into()),
            Some(45),
        );
        add(&mut store, "无日期任务 #杂项 +个人", TaskPriority::Medium);
        assert!(store.all_tags().contains(&"客户".to_string()));
        assert!(store.all_projects().contains(&"增长项目".to_string()));
        assert_eq!(store.upcoming_tasks()[0].title, "准备客户演示");
        assert_eq!(store.incomplete_tasks_tagged("客户").len(), 1);
        assert_eq!(store.incomplete_tasks_in_project("增长项目").len(), 1);
        assert_eq!(store.tasks_matching("设计稿").len(), 1);
    }

    // metadata setters
    {
        let mut store = TaskStore::new();
        let task = add(&mut store, "编辑详情", TaskPriority::Medium);
        store.set_project_name(task.id, Some("产品".into())).unwrap();
        store.set_tags(task.id, vec!["设计".into(), "发布".into()]).unwrap();
        store.set_estimated_minutes(task.id, Some(35)).unwrap();
        store.set_repeat_rule(task.id, Some(TaskRepeatRule::Monthly)).unwrap();
        let t = find(&store, task.id);
        assert_eq!(t.project_name.as_deref(), Some("产品"));
        assert_eq!(t.tags(), vec!["设计", "发布"]);
        assert_eq!(t.estimated_minutes, Some(35));
        assert_eq!(t.repeat_rule(), Some(TaskRepeatRule::Monthly));
    }

    // csv + markdown export/import
    {
        let mut store = TaskStore::new();
        add(&mut store, "CSV 导出 #数据 !高 /10m", TaskPriority::Medium);
        let csv_text = store.csv_export_text();
        let md_text = store.markdown_export_text();
        assert!(csv_text.contains("CSV 导出"));
        assert!(md_text.contains("# TaskCap 导出"));
        let mut imported = TaskStore::new();
        let count = imported.import_csv_text(&csv_text);
        assert_eq!(count, 1);
        assert_eq!(imported.incomplete_tasks()[0].tags(), vec!["数据"]);
    }

    // todoist csv
    {
        let todoist = "TYPE,CONTENT,DESCRIPTION,PRIORITY,DATE,LABELS,PROJECT\ntask,发周报,整理本周数据,1,2026-06-05 18:00,工作|周报,运营\n";
        let mut store = TaskStore::new();
        let count = store.import_csv_text(todoist);
        assert_eq!(count, 1);
        let task = store.incomplete_tasks()[0].clone();
        assert_eq!(task.title, "发周报");
        assert_eq!(task.notes, "整理本周数据");
        assert_eq!(task.priority(), TaskPriority::High);
        assert_eq!(task.tags(), vec!["工作", "周报"]);
        assert_eq!(task.project_name.as_deref(), Some("运营"));
        assert!(task.due_at.is_some());
    }
}
