//! A task's life: creating it (from quick-add text or from full metadata),
//! completing it (with the next occurrence of a repeating task) and reopening it.

use super::current::{after_clear, normalized};
use super::edits::{at_id, max_sort, max_today, not_found, not_found_err, put};
use super::{expire_all, has_id, upsert, StoreView, TaskStore};
use crate::clock::{day_index, fields_of, in_range, instant_of, utc_fields, utc_instant, DAY_MS};
use crate::models::{
    kept_subtasks, opt_text, rule_raw, subtask_views, tags_raw_of, SubtaskView, TaskItem,
    TaskPriority, TaskRepeatRule, TaskSubtask, TaskView,
};
use crate::parser::{parse_ok, parse_spec, ParsedView};
use crate::text::{texts, trim};
use vstd::prelude::*;

verus! {

/// Whole seconds of focus between `started` and `now`; none when `now` is not later.
pub open spec fn elapsed_secs(started: i64, now: i64) -> int {
    if now - started > 0 {
        (now - started) / 1000
    } else {
        0
    }
}

pub open spec fn sat_i64(v: int) -> i64 {
    if v > i64::MAX {
        i64::MAX
    } else if v < i64::MIN {
        i64::MIN
    } else {
        v as i64
    }
}

/// The task once its focus clock, if running, is stopped at `now`: the elapsed
/// seconds join the accumulated ones (never below zero).
pub open spec fn stopped(t: TaskView, now: i64) -> TaskView {
    match t.focus_started_at {
        Some(s) => {
            let v = sat_i64(t.focus_seconds() + elapsed_secs(s, now));
            TaskView {
                focus_accumulated_seconds: Some(
                    if v < 0 {
                        0
                    } else {
                        v
                    },
                ),
                focus_started_at: None,
                updated_at: now,
                ..t
            }
        },
        None => t,
    }
}

/// The next due instant of a repeating task: a day or a week later, or the same
/// day and time in the next month or year as `chrono` builds it (none where that
/// date does not exist).
pub open spec fn next_after(date: i64, rule: TaskRepeatRule) -> Option<int> {
    let f = utc_fields(date as int);
    match rule {
        TaskRepeatRule::Daily => Some(date + DAY_MS),
        TaskRepeatRule::Weekly => Some(date + 7 * DAY_MS),
        TaskRepeatRule::Monthly => if f.1 == 12 {
            utc_instant((f.0 + 1) as i32, 1, f.2, f.3, f.4, f.5)
        } else {
            utc_instant(f.0, (f.1 + 1) as u32, f.2, f.3, f.4, f.5)
        },
        TaskRepeatRule::Yearly => utc_instant((f.0 + 1) as i32, f.1, f.2, f.3, f.4, f.5),
    }
}

/// The instants a repeating task needs to exist for its next occurrence.
pub open spec fn next_after_ok(date: i64, rule: TaskRepeatRule) -> bool {
    &&& in_range(date as int)
    &&& rule is Daily ==> in_range(date + DAY_MS)
    &&& rule is Weekly ==> in_range(date + 7 * DAY_MS)
}

pub open spec fn opt_today(idx: Option<i32>, today: Seq<char>) -> Option<Seq<char>> {
    if idx is Some {
        Some(today)
    } else {
        None
    }
}

/// A new task as `new_task_item` makes it: next sort index, focus and postpone
/// counters at zero, the clock as update stamp.
pub open spec fn fresh_task(
    id: u128,
    title: Seq<char>,
    notes: Seq<char>,
    is_completed: bool,
    is_current: bool,
    created_at: i64,
    clock: i64,
    completed_at: Option<i64>,
    sort_index: int,
    priority: TaskPriority,
    due_at: Option<i64>,
    reminder_at: Option<i64>,
    repeat_rule: Option<TaskRepeatRule>,
    tags: Seq<Seq<char>>,
    project_name: Option<Seq<char>>,
    estimated_minutes: Option<i32>,
    today_sort_index: Option<i32>,
    subtasks: Seq<SubtaskView>,
    today: Seq<char>,
) -> TaskView {
    TaskView {
        id,
        title,
        notes,
        is_completed,
        is_current,
        created_at,
        updated_at: clock,
        completed_at,
        sort_index: sort_index as i32,
        priority_raw_value: Some(priority.raw()),
        due_at,
        reminder_at,
        repeat_rule_raw_value: rule_raw(repeat_rule),
        tags_raw_value: tags_raw_of(tags),
        project_name,
        estimated_minutes,
        today_sort_index,
        today_added_date: opt_today(today_sort_index, today),
        subtasks: kept_subtasks(subtasks),
        focus_started_at: None,
        focus_accumulated_seconds: Some(0),
        postponed_at: None,
        postpone_count_raw_value: Some(0),
    }
}

/// The task that `add_task_from_metadata` makes; a completed task is never current.
pub open spec fn metadata_task(
    id: u128,
    title: Seq<char>,
    notes: Seq<char>,
    is_completed: bool,
    is_current: bool,
    created_at: i64,
    clock: i64,
    completed_at: Option<i64>,
    s: Seq<TaskView>,
    priority: TaskPriority,
    due_at: Option<i64>,
    reminder_at: Option<i64>,
    repeat_rule: Option<TaskRepeatRule>,
    tags: Seq<Seq<char>>,
    project_name: Option<Seq<char>>,
    estimated_minutes: Option<i32>,
    today_sort_index: Option<i32>,
    subtasks: Seq<SubtaskView>,
    today: Seq<char>,
) -> TaskView {
    fresh_task(
        id,
        trim(title),
        notes,
        is_completed,
        is_current && !is_completed,
        created_at,
        clock,
        completed_at,
        max_sort(s) + 1,
        priority,
        due_at,
        reminder_at,
        repeat_rule,
        tags,
        project_name,
        estimated_minutes,
        today_sort_index,
        subtasks,
        today,
    )
}

/// The next occurrence of a repeating task with a due instant.
pub open spec fn next_recurring(
    src: TaskView,
    s: Seq<TaskView>,
    clock: i64,
    today: Seq<char>,
    next_id: u128,
    sub_ids: Seq<u128>,
) -> Option<TaskView> {
    match (src.repeat_rule(), src.due_at) {
        (Some(rule), Some(due)) => match next_after(due, rule) {
            Some(nd) => {
                let tsi = if day_index(nd, 0) == day_index(clock as int, 0) {
                    Some((max_today(s) + 1) as i32)
                } else {
                    None
                };
                Some(
                    fresh_task(
                        next_id,
                        src.title,
                        src.notes,
                        false,
                        false,
                        clock,
                        clock,
                        None,
                        max_sort(s) + 1,
                        src.priority(),
                        Some(nd as i64),
                        if src.reminder_at is Some {
                            Some(nd as i64)
                        } else {
                            None
                        },
                        Some(rule),
                        src.tags(),
                        src.project_name,
                        src.estimated_minutes,
                        tsi,
                        Seq::new(
                            src.subtasks.len(),
                            |k: int|
                                SubtaskView {
                                    id: sub_ids[k],
                                    title: src.subtasks[k].title,
                                    is_completed: false,
                                    created_at: clock,
                                },
                        ),
                        today,
                    ),
                )
            },
            None => None,
        },
        _ => None,
    }
}

/// What completing `src` needs: room for the next sort and today index, and
/// instants within chrono's range.
pub open spec fn recur_ok(src: TaskView, s: Seq<TaskView>, clock: i64, sub_ids: Seq<u128>) -> bool {
    match (src.repeat_rule(), src.due_at) {
        (Some(rule), Some(due)) => {
            &&& next_after_ok(due, rule)
            &&& next_after(due, rule) is Some ==> max_sort(s) < i32::MAX
            &&& next_after(due, rule) is Some ==> sub_ids.len() >= src.subtasks.len()
            &&& (next_after(due, rule) matches Some(nd) && day_index(nd, 0) == day_index(
                clock as int,
                0,
            )) ==> max_today(s) < i32::MAX
        },
        _ => true,
    }
}

pub open spec fn completed_task(t: TaskView, now: i64) -> TaskView {
    TaskView {
        is_completed: true,
        is_current: false,
        completed_at: Some(now),
        updated_at: now,
        focus_started_at: None,
        ..stopped(t, now)
    }
}

/// The outcome of `complete`.
pub open spec fn complete_spec(
    old: StoreView,
    new: StoreView,
    r: Result<(), String>,
    id: u128,
    now: i64,
    clock: i64,
    today: Seq<char>,
    next_id: u128,
    sub_ids: Seq<u128>,
) -> bool {
    if !has_id(old.tasks, id) {
        not_found(r) && new == old
    } else if at_id(old.tasks, id).is_completed {
        r is Ok && new == old
    } else {
        let src = at_id(old.tasks, id);
        let v1 = put(old, id, completed_task(src, now), today);
        let v2 = StoreView {
            focus_attention_task_id: if old.focus_attention_task_id == Some(id) {
                None
            } else {
                old.focus_attention_task_id
            },
            ..v1
        };
        let v3 = match next_recurring(src, old.tasks, clock, today, next_id, sub_ids) {
            Some(x) => StoreView { tasks: expire_all(upsert(v2.tasks, x), today), last_error: None, ..v2 },
            None => v2,
        };
        r is Ok && new == normalized(v3, clock, today)
    }
}

/// The outcome of `reopen`.
pub open spec fn reopen_spec(
    old: StoreView,
    new: StoreView,
    r: Result<(), String>,
    id: u128,
    now: i64,
    clock: i64,
    today: Seq<char>,
) -> bool {
    if !has_id(old.tasks, id) {
        not_found(r) && new == old
    } else if !at_id(old.tasks, id).is_completed {
        r is Ok && new == old
    } else {
        let t = at_id(old.tasks, id);
        r is Ok && new == normalized(
            put(old, id, TaskView { is_completed: false, completed_at: None, updated_at: now, ..t }, today),
            clock,
            today,
        )
    }
}

/// Storing a new task: a current one first clears the other marks.
pub open spec fn inserted(v: StoreView, x: TaskView, clock: i64, today: Seq<char>) -> StoreView {
    let v1 = if x.is_current {
        after_clear(v, clock, today)
    } else {
        v
    };
    StoreView { tasks: expire_all(upsert(v1.tasks, x), today), last_error: None, ..v1 }
}

pub open spec fn i64_opt(o: Option<int>) -> Option<i64> {
    match o {
        Some(v) => Some(v as i64),
        None => None,
    }
}

pub open spec fn i32_opt(o: Option<int>) -> Option<i32> {
    match o {
        Some(v) => Some(v as i32),
        None => None,
    }
}

/// The task that a quick-add text makes.
pub open spec fn quick_task(
    p: ParsedView,
    id: u128,
    notes: Seq<char>,
    clock: i64,
    s: Seq<TaskView>,
    today: Seq<char>,
) -> TaskView {
    fresh_task(
        id,
        trim(p.title),
        notes,
        false,
        false,
        clock,
        clock,
        None,
        max_sort(s) + 1,
        p.priority,
        i64_opt(p.due_at),
        i64_opt(p.reminder_at),
        p.repeat_rule,
        p.tags,
        p.project_name,
        i32_opt(p.estimated_minutes),
        if p.is_today {
            Some((max_today(s) + 1) as i32)
        } else {
            None
        },
        seq![],
        today,
    )
}

impl TaskItem {
    /// Stops a running focus clock at `now` (see `stopped`).
    pub fn stop_focus_clock(&mut self, now: i64)
        ensures
            final(self)@ == stopped(old(self)@, now),
    {
        if let Some(started) = self.focus_started_at {
            let diff: i128 = now as i128 - started as i128;
            let secs: i128 = if diff > 0 {
                diff / 1000
            } else {
                0
            };
            let total: i128 = self.focus_seconds() as i128 + secs;
            let v: i64 = if total > 0x7fff_ffff_ffff_ffff {
                0x7fff_ffff_ffff_ffff
            } else {
                total as i64
            };
            self.focus_accumulated_seconds = Some(
                if v < 0 {
                    0
                } else {
                    v
                },
            );
            self.focus_started_at = None;
            self.updated_at = now;
        }
    }
}

/// The next due instant of a repeating task (see `next_after`).
pub fn next_date_after(date: i64, rule: TaskRepeatRule) -> (r: Option<i64>)
    requires
        next_after_ok(date, rule),
    ensures
        crate::parser::opt_int(r) == next_after(date, rule),
        r matches Some(v) ==> in_range(v as int),
{
    match rule {
        TaskRepeatRule::Daily => Some(date + 86_400_000),
        TaskRepeatRule::Weekly => Some(date + 604_800_000),
        TaskRepeatRule::Monthly => {
            let f = fields_of(date);
            if f.1 == 12 {
                instant_of(f.0 + 1, 1, f.2, f.3, f.4, f.5)
            } else {
                instant_of(f.0, f.1 + 1, f.2, f.3, f.4, f.5)
            }
        },
        TaskRepeatRule::Yearly => {
            let f = fields_of(date);
            instant_of(f.0 + 1, f.1, f.2, f.3, f.4, f.5)
        },
    }
}

impl TaskStore {
    /// Builds a new task with the next sort index (`new_task_item`).
    pub fn new_task_item(
        &self,
        id: u128,
        title: String,
        notes: String,
        is_completed: bool,
        is_current: bool,
        created_at: i64,
        clock: i64,
        completed_at: Option<i64>,
        priority: TaskPriority,
        due_at: Option<i64>,
        reminder_at: Option<i64>,
        repeat_rule: Option<TaskRepeatRule>,
        tags: Vec<String>,
        project_name: Option<String>,
        estimated_minutes: Option<i32>,
        today_sort_index: Option<i32>,
        subtasks: Vec<TaskSubtask>,
        today: &str,
    ) -> (r: TaskItem)
        requires
            max_sort(self@.tasks) < i32::MAX,
        ensures
            r@ == fresh_task(
                id,
                title@,
                notes@,
                is_completed,
                is_current,
                created_at,
                clock,
                completed_at,
                max_sort(self@.tasks) + 1,
                priority,
                due_at,
                reminder_at,
                repeat_rule,
                texts(tags@),
                opt_text(project_name),
                estimated_minutes,
                today_sort_index,
                subtask_views(subtasks@),
                today@,
            ),
    {
        let sort_index = self.next_sort_index();
        let mut item = TaskItem {
            id,
            title,
            notes,
            is_completed,
            is_current,
            created_at,
            updated_at: clock,
            completed_at,
            sort_index,
            priority_raw_value: Some(priority.as_raw()),
            due_at,
            reminder_at,
            repeat_rule_raw_value: match repeat_rule {
                Some(r) => Some(String::from_str(r.as_str())),
                None => None,
            },
            tags_raw_value: None,
            project_name,
            estimated_minutes,
            today_sort_index,
            today_added_date: match today_sort_index {
                Some(_) => Some(String::from_str(today)),
                None => None,
            },
            subtasks: Vec::new(),
            focus_started_at: None,
            focus_accumulated_seconds: Some(0),
            postponed_at: None,
            postpone_count_raw_value: Some(0),
        };
        item.set_tags(tags);
        item.set_subtasks(subtasks);
        item.updated_at = clock;
        item
    }

    /// The next occurrence of the task at `i`, if it repeats and has a due instant.
    fn make_next_recurring_task(
        &self,
        i: usize,
        clock: i64,
        today: &str,
        next_id: u128,
        sub_ids: &Vec<u128>,
    ) -> (r: Option<TaskItem>)
        requires
            i < self@.tasks.len(),
            recur_ok(self@.tasks[i as int], self@.tasks, clock, sub_ids@),
        ensures
            super::queries::opt_view(r) == next_recurring(
                self@.tasks[i as int],
                self@.tasks,
                clock,
                today@,
                next_id,
                sub_ids@,
            ),
    {
        let task = &self.tasks[i];
        let rule = match task.repeat_rule() {
            Some(r) => r,
            None => return None,
        };
        let due = match task.due_at {
            Some(d) => d,
            None => return None,
        };
        let next_due = match next_date_after(due, rule) {
            Some(d) => d,
            None => return None,
        };
        let today_index = if crate::clock::utc_day(next_due) == crate::clock::utc_day(clock) {
            Some(self.next_today_sort_index())
        } else {
            None
        };
        let src_subs = task.subtasks();
        let mut subs: Vec<TaskSubtask> = Vec::new();
        let mut k: usize = 0;
        while k < src_subs.len()
            invariant
                k <= src_subs@.len(),
                src_subs@.len() <= sub_ids@.len(),
                subtask_views(subs@) == Seq::new(
                    k as nat,
                    |j: int|
                        SubtaskView {
                            id: sub_ids@[j],
                            title: src_subs@[j].title@,
                            is_completed: false,
                            created_at: clock,
                        },
                ),
            decreases src_subs.len() - k,
        {
            let s = TaskSubtask {
                id: sub_ids[k],
                title: String::from_str(src_subs[k].title.as_str()),
                is_completed: false,
                created_at: clock,
            };
            let ghost before = subs@;
            subs.push(s);
            proof {
                assert(subtask_views(subs@) =~= subtask_views(before).push(s@));
                assert(subtask_views(subs@) =~= Seq::new(
                    (k + 1) as nat,
                    |j: int|
                        SubtaskView {
                            id: sub_ids@[j],
                            title: src_subs@[j].title@,
                            is_completed: false,
                            created_at: clock,
                        },
                ));
            }
            k = k + 1;
        }
        proof {
            assert(subtask_views(subs@) =~= Seq::new(
                task@.subtasks.len(),
                |j: int|
                    SubtaskView {
                        id: sub_ids@[j],
                        title: task@.subtasks[j].title,
                        is_completed: false,
                        created_at: clock,
                    },
            ));
        }
        let item = self.new_task_item(
            next_id,
            task.title.clone(),
            task.notes.clone(),
            false,
            false,
            clock,
            clock,
            None,
            task.priority(),
            Some(next_due),
            if task.reminder_at.is_some() {
                Some(next_due)
            } else {
                None
            },
            Some(rule),
            task.tags(),
            crate::models::clone_opt_string(&task.project_name),
            task.estimated_minutes,
            today_index,
            subs,
            today,
        );
        Some(item)
    }

    /// Marks the task `id` completed at `now` (stopping its focus clock), drops the
    /// focus attention on it, stores the next occurrence of a repeating task, then
    /// normalizes the current marks. A completed task is left as it is.
    pub fn complete_at(
        &mut self,
        id: u128,
        now: i64,
        clock: i64,
        today: &str,
        next_id: u128,
        sub_ids: &Vec<u128>,
    ) -> (r: Result<(), String>)
        requires
            old(self).wf(),
            has_id(old(self)@.tasks, id) && !at_id(old(self)@.tasks, id).is_completed ==> recur_ok(
                at_id(old(self)@.tasks, id),
                old(self)@.tasks,
                clock,
                sub_ids@,
            ),
        ensures
            final(self).wf(),
            complete_spec(old(self)@, final(self)@, r, id, now, clock, today@, next_id, sub_ids@),
    {
        let i = match self.index_of(id) {
            Some(i) => i,
            None => return not_found_err(),
        };
        if self.tasks[i].is_completed {
            return Ok(());
        }
        let next = self.make_next_recurring_task(i, clock, today, next_id, sub_ids);
        let clear_attention = self.focus_attention_task_id == Some(id);
        let ghost before = self@;
        self.tasks[i].stop_focus_clock(now);
        self.tasks[i].is_completed = true;
        self.tasks[i].is_current = false;
        self.tasks[i].completed_at = Some(now);
        self.tasks[i].updated_at = now;
        self.tasks[i].focus_started_at = None;
        proof {
            assert(self@.tasks =~= before.tasks.update(i as int, self.tasks@[i as int]@));
        }
        self.finish_edit(i, today, Ghost(before));
        if clear_attention {
            self.focus_attention_task_id = None;
        }
        if let Some(x) = next {
            self.upsert_task(x);
            self.reload_tasks_on(today);
            proof {
                super::current::lemma_expire_idem(upsert(before.tasks.update(i as int, completed_task(before.tasks[i as int], now)), x@), today@);
            }
        }
        self.normalize_current_task(clock, today);
        Ok(())
    }

    /// Reopens the completed task `id` at `now`, then normalizes the current marks.
    pub fn reopen_at(&mut self, id: u128, now: i64, clock: i64, today: &str) -> (r: Result<(), String>)
        requires
            old(self).wf(),
        ensures
            final(self).wf(),
            reopen_spec(old(self)@, final(self)@, r, id, now, clock, today@),
    {
        let i = match self.index_of(id) {
            Some(i) => i,
            None => return not_found_err(),
        };
        if !self.tasks[i].is_completed {
            return Ok(());
        }
        let ghost before = self@;
        self.tasks[i].is_completed = false;
        self.tasks[i].completed_at = None;
        self.tasks[i].updated_at = now;
        proof {
            assert(self@.tasks =~= before.tasks.update(i as int, self.tasks@[i as int]@));
        }
        self.finish_edit(i, today, Ghost(before));
        self.normalize_current_task(clock, today);
        Ok(())
    }

    /// Stores a new task; a current one first clears the other marks.
    pub(crate) fn insert_task(&mut self, item: TaskItem, clock: i64, today: &str)
        requires
            old(self).wf(),
        ensures
            final(self).wf(),
            final(self)@ == inserted(old(self)@, item@, clock, today@),
    {
        if item.is_current {
            self.clear_current_flags(clock, today);
        }
        self.upsert_task(item);
        self.reload_tasks_on(today);
    }

    /// Adds a task from quick-add text read at `clock` in a zone `offset_secs` east
    /// of UTC; a blank title adds nothing (`Ok(None)`).
    pub fn add_task_at(
        &mut self,
        raw_title: &str,
        notes: &str,
        priority: TaskPriority,
        clock: i64,
        offset_secs: i32,
        today: &str,
        id: u128,
    ) -> (r: Result<Option<TaskItem>, String>)
        requires
            old(self).wf(),
            in_range(clock as int),
            -86_400 < offset_secs < 86_400,
            parse_ok(raw_title@, clock as int, offset_secs as int * 1000),
            max_sort(old(self)@.tasks) < i32::MAX,
            parse_spec(raw_title@, priority, clock as int, offset_secs as int * 1000).is_today ==> max_today(old(self)@.tasks) < i32::MAX,
        ensures
            final(self).wf(),
            ({
                let p = parse_spec(raw_title@, priority, clock as int, offset_secs as int * 1000);
                if trim(p.title).len() == 0 {
                    (r matches Ok(None) && final(self)@ == old(self)@)
                } else {
                    let x = quick_task(p, id, notes@, clock, old(self)@.tasks, today@);
                    &&& (r matches Ok(Some(item)) && item@ == x)
                    &&& final(self)@ == inserted(old(self)@, x, clock, today@)
                }
            }),
    {
        let parsed = crate::parser::parse_with_offset(raw_title, priority, clock, offset_secs);
        let title = crate::text::trimmed(parsed.title.as_str());
        if crate::text::chars_of(title.as_str()).len() == 0 {
            return Ok(None);
        }
        let today_index = if parsed.is_today {
            Some(self.next_today_sort_index())
        } else {
            None
        };
        let item = self.new_task_item(
            id,
            title,
            String::from_str(notes),
            false,
            false,
            clock,
            clock,
            None,
            parsed.priority,
            parsed.due_at,
            parsed.reminder_at,
            parsed.repeat_rule,
            parsed.tags,
            parsed.project_name,
            parsed.estimated_minutes,
            today_index,
            Vec::new(),
            today,
        );
        proof {
            assert(subtask_views(Seq::<TaskSubtask>::empty()) =~= Seq::<SubtaskView>::empty());
        }
        let copy = item.clone();
        self.insert_task(item, clock, today);
        Ok(Some(copy))
    }

    /// Adds a task from full metadata; a blank title adds nothing (`Ok(None)`). A
    /// completed task is never current. The current marks are normalized after.
    pub fn add_task_from_metadata_at(
        &mut self,
        title: &str,
        notes: &str,
        is_completed: bool,
        is_current: bool,
        created_at: i64,
        completed_at: Option<i64>,
        priority: TaskPriority,
        due_at: Option<i64>,
        reminder_at: Option<i64>,
        repeat_rule: Option<TaskRepeatRule>,
        tags: Vec<String>,
        project_name: Option<String>,
        estimated_minutes: Option<i32>,
        today_sort_index: Option<i32>,
        subtasks: Vec<TaskSubtask>,
        clock: i64,
        today: &str,
        id: u128,
    ) -> (r: Result<Option<TaskItem>, String>)
        requires
            old(self).wf(),
            max_sort(old(self)@.tasks) < i32::MAX,
        ensures
            final(self).wf(),
            trim(title@).len() == 0 ==> (r matches Ok(None) && final(self)@ == old(self)@),
            trim(title@).len() > 0 ==> ({
                let x = metadata_task(
                    id,
                    title@,
                    notes@,
                    is_completed,
                    is_current,
                    created_at,
                    clock,
                    completed_at,
                    old(self)@.tasks,
                    priority,
                    due_at,
                    reminder_at,
                    repeat_rule,
                    texts(tags@),
                    opt_text(project_name),
                    estimated_minutes,
                    today_sort_index,
                    subtask_views(subtasks@),
                    today@,
                );
                &&& (r matches Ok(Some(item)) && item@ == x)
                &&& final(self)@ == normalized(inserted(old(self)@, x, clock, today@), clock, today@)
            }),
    {
        let cleaned = crate::text::trimmed(title);
        if crate::text::chars_of(cleaned.as_str()).len() == 0 {
            return Ok(None);
        }
        let item = self.new_task_item(
            id,
            cleaned,
            String::from_str(notes),
            is_completed,
            is_current && !is_completed,
            created_at,
            clock,
            completed_at,
            priority,
            due_at,
            reminder_at,
            repeat_rule,
            tags,
            project_name,
            estimated_minutes,
            today_sort_index,
            subtasks,
            today,
        );
        let copy = item.clone();
        self.insert_task(item, clock, today);
        self.normalize_current_task(clock, today);
        Ok(Some(copy))
    }
}

} // verus!
