//! Focus sessions, postponing and the daily review.

use super::current::after_clear;
use super::edits::{at_id, max_today, not_found, not_found_err, put};
use super::lifecycle::{elapsed_secs, sat_i64, stopped};
use super::order::{select, select_tasks, FilterCtx, TaskFilter};
use super::queries::{completed, incomplete};
use super::current::lemma_update_all_keys;
use super::{expire_all, has_id, id_index, task_with, StoreView, TaskStore};
use crate::clock::{day_index, fields_of, in_range, instant_of, utc_fields, utc_instant, DAY_MS};
use crate::models::{task_views, TaskItem, TaskPostponeOption, TaskView};
use vstd::prelude::*;

verus! {

pub open spec fn running_other(t: TaskView, id: u128) -> bool {
    !t.is_completed && t.focus_started_at is Some && t.id != id
}

pub open spec fn any_running_other(s: Seq<TaskView>, id: u128) -> bool {
    exists|i: int| 0 <= i < s.len() && running_other(#[trigger] s[i], id)
}

pub open spec fn stop_others(s: Seq<TaskView>, id: u128, now: i64) -> Seq<TaskView> {
    Seq::new(
        s.len(),
        |i: int|
            if running_other(s[i], id) {
                stopped(s[i], now)
            } else {
                s[i]
            },
    )
}

/// The task once focus starts on it at `now`: it becomes current and its clock runs
/// (a running clock keeps its start). A completed task is left as it is.
pub open spec fn focused(t: TaskView, now: i64) -> TaskView {
    if t.is_completed {
        t
    } else {
        TaskView {
            is_current: true,
            focus_started_at: if t.focus_started_at is Some {
                t.focus_started_at
            } else {
                Some(now)
            },
            updated_at: now,
            ..t
        }
    }
}

/// The outcome of `start_focus`: other running clocks stop, the current marks are
/// cleared, the attention goes to `id`, then the task is focused.
pub open spec fn start_focus_spec(
    old: StoreView,
    new: StoreView,
    r: Result<(), String>,
    id: u128,
    now: i64,
    clock: i64,
    today: Seq<char>,
) -> bool {
    let v1 = if any_running_other(old.tasks, id) {
        StoreView { tasks: expire_all(stop_others(old.tasks, id, now), today), last_error: None, ..old }
    } else {
        old
    };
    let v2 = after_clear(v1, clock, today);
    let v3 = StoreView { focus_attention_task_id: Some(id), ..v2 };
    if has_id(v3.tasks, id) {
        r is Ok && new == put(v3, id, focused(at_id(v3.tasks, id), now), today)
    } else {
        not_found(r) && new == v3
    }
}

pub open spec fn paused(t: TaskView, now: i64) -> TaskView {
    if !t.is_completed {
        stopped(t, now)
    } else {
        t
    }
}

/// The focus session ends: the clock stops and resets to zero.
pub open spec fn focus_reset(t: TaskView, now: i64) -> TaskView {
    TaskView { focus_started_at: None, focus_accumulated_seconds: Some(0), updated_at: now, ..t }
}

pub open spec fn closed_focus(t: TaskView, now: i64) -> TaskView {
    TaskView { is_current: false, ..focus_reset(t, now) }
}

pub open spec fn drop_attention(v: StoreView, id: u128) -> StoreView {
    StoreView {
        focus_attention_task_id: if v.focus_attention_task_id == Some(id) {
            None
        } else {
            v.focus_attention_task_id
        },
        ..v
    }
}

/// Focus seconds of a task at `now`: the accumulated ones plus those of a running clock.
pub open spec fn focus_total(t: TaskView, now: i64) -> i64 {
    match t.focus_started_at {
        Some(s) => sat_i64(t.focus_seconds() + elapsed_secs(s, now)),
        None => t.focus_seconds() as i64,
    }
}

pub open spec fn focus_of(s: Seq<TaskView>, id: u128, now: i64) -> i64 {
    match task_with(s, id) {
        Some(t) => focus_total(t, now),
        None => 0,
    }
}

/// The focus target in minutes: the task's estimate, else `default`, at least 1.
pub open spec fn target_of(s: Seq<TaskView>, id: u128, default: i32) -> int {
    let m = match task_with(s, id) {
        Some(t) => match t.estimated_minutes {
            Some(v) => v as int,
            None => default as int,
        },
        None => default as int,
    };
    if m < 1 {
        1
    } else {
        m
    }
}

pub open spec fn remaining_of(s: Seq<TaskView>, id: u128, now: i64, default: i32) -> i64 {
    let v = target_of(s, id, default) * 60 - focus_of(s, id, now);
    if v < 0 {
        0
    } else {
        sat_i64(v)
    }
}

pub open spec fn sum_focus(s: Seq<TaskView>, now: i64) -> int
    decreases s.len(),
{
    if s.len() == 0 {
        0
    } else {
        sum_focus(s.drop_last(), now) + focus_total(s.last(), now)
    }
}

/// How far `option` pushes from `now` before it is rounded to a time of day.
pub open spec fn postpone_step(option: TaskPostponeOption) -> int {
    match option {
        TaskPostponeOption::FifteenMinutes => 900_000,
        TaskPostponeOption::LaterToday => 7_200_000,
        TaskPostponeOption::Tomorrow => DAY_MS as int,
        TaskPostponeOption::ThisWeek => 3 * DAY_MS,
    }
}

/// The instant of `h`:00:00 on the UTC date of `t`, as `chrono` builds it.
pub open spec fn at_hour(t: int, h: u32) -> Option<int> {
    let f = utc_fields(t);
    utc_instant(f.0, f.1, f.2, h, 0, 0)
}

/// The new due instant: fifteen minutes later; later today (two hours later, or
/// 18:00 UTC if that is later); 09:00 UTC tomorrow; 09:00 UTC in three days.
pub open spec fn postpone_due(option: TaskPostponeOption, now: int) -> int {
    let later = now + postpone_step(option);
    match option {
        TaskPostponeOption::FifteenMinutes => later,
        TaskPostponeOption::LaterToday => {
            let evening = match at_hour(now, 18) {
                Some(v) => v,
                None => later,
            };
            if later > evening {
                later
            } else {
                evening
            }
        },
        _ => match at_hour(later, 9) {
            Some(v) => v,
            None => later,
        },
    }
}

/// The task once postponed at `now`.
pub open spec fn postponed(
    t: TaskView,
    option: TaskPostponeOption,
    now: i64,
    next_today: int,
    today: Seq<char>,
) -> TaskView {
    let due = postpone_due(option, now as int) as i64;
    let c = t.postpone_count() + 1;
    let base = TaskView {
        due_at: Some(due),
        reminder_at: Some(due),
        postponed_at: Some(now),
        postpone_count_raw_value: Some(
            if c < 0 {
                0
            } else {
                c as i32
            },
        ),
        updated_at: now,
        ..t
    };
    if day_index(due as int, 0) == day_index(now as int, 0) {
        TaskView {
            today_sort_index: Some(
                match t.today_sort_index {
                    Some(v) => v,
                    None => next_today as i32,
                },
            ),
            today_added_date: Some(today),
            ..base
        }
    } else if option is Tomorrow || option is ThisWeek {
        TaskView { today_sort_index: None, today_added_date: None, ..base }
    } else {
        base
    }
}

/// What a day's review shows.
pub struct TaskDailyReview {
    pub completed_today: Vec<TaskItem>,
    pub postponed_today: Vec<TaskItem>,
    pub tomorrow_tasks: Vec<TaskItem>,
    /// Focus seconds of every task at the review instant.
    pub focus_seconds: i128,
}

fn postpone_due_exec(option: TaskPostponeOption, now: i64) -> (r: i64)
    requires
        in_range(now as int),
        in_range(now + postpone_step(option)),
    ensures
        r == postpone_due(option, now as int),
        in_range(r as int),
{
    match option {
        TaskPostponeOption::FifteenMinutes => now + 900_000,
        TaskPostponeOption::LaterToday => {
            let later = now + 7_200_000;
            let f = fields_of(now);
            let evening = match instant_of(f.0, f.1, f.2, 18, 0, 0) {
                Some(v) => v,
                None => later,
            };
            if later > evening {
                later
            } else {
                evening
            }
        },
        TaskPostponeOption::Tomorrow => {
            let later = now + 86_400_000;
            let f = fields_of(later);
            match instant_of(f.0, f.1, f.2, 9, 0, 0) {
                Some(v) => v,
                None => later,
            }
        },
        TaskPostponeOption::ThisWeek => {
            let later = now + 259_200_000;
            let f = fields_of(later);
            match instant_of(f.0, f.1, f.2, 9, 0, 0) {
                Some(v) => v,
                None => later,
            }
        },
    }
}

impl TaskStore {
    /// Starts focus on the task `id` at `now`: other running clocks stop, the current
    /// marks are cleared, the attention goes to `id`, and the task becomes current
    /// with its clock running.
    pub fn start_focus_at(&mut self, id: u128, now: i64, clock: i64, today: &str) -> (r: Result<
        (),
        String,
    >)
        requires
            old(self).wf(),
        ensures
            final(self).wf(),
            start_focus_spec(old(self)@, final(self)@, r, id, now, clock, today@),
    {
        let n = self.tasks.len();
        let mut any = false;
        let mut i: usize = 0;
        while i < n
            invariant
                n == self.tasks@.len(),
                n == old(self)@.tasks.len(),
                i <= n,
                any == exists|j: int| 0 <= j < i && running_other(#[trigger] old(self)@.tasks[j], id),
                forall|k: int| 0 <= k < i ==> self@.tasks[k] == stop_others(old(self)@.tasks, id, now)[k],
                forall|k: int| i <= k < n ==> self.tasks@[k] == old(self).tasks@[k],
                self.focus_attention_task_id == old(self).focus_attention_task_id,
                self.last_error == old(self).last_error,
            decreases n - i,
        {
            let ghost prev = self.tasks@;
            let ghost pv = self@.tasks;
            assert(self@.tasks[i as int] == old(self)@.tasks[i as int]);
            if !self.tasks[i].is_completed && self.tasks[i].focus_started_at.is_some() && self.tasks[i].id != id {
                self.tasks[i].stop_focus_clock(now);
                any = true;
                proof {
                    assert(running_other(old(self)@.tasks[i as int], id));
                }
            }
            proof {
                assert forall|k: int| 0 <= k < n && k != i implies self.tasks@[k] == prev[k] by {}
                assert forall|k: int| 0 <= k < i + 1 implies self@.tasks[k] == stop_others(
                    old(self)@.tasks,
                    id,
                    now,
                )[k] by {
                    if k < i {
                        assert(self.tasks@[k] == prev[k]);
                        assert(pv[k] == prev[k]@);
                    }
                }
                assert(any == exists|j: int| 0 <= j < i + 1 && running_other(#[trigger] old(self)@.tasks[j], id));
            }
            i = i + 1;
        }
        proof {
            let m = stop_others(old(self)@.tasks, id, now);
            assert(self@.tasks =~= m);
            lemma_update_all_keys(old(self)@.tasks, m);
        }
        if any {
            self.reload_tasks_on(today);
        } else {
            proof {
                assert(self@.tasks =~= old(self)@.tasks);
            }
        }
        self.clear_current_flags(clock, today);
        self.focus_attention_task_id = Some(id);
        let ghost v3 = self@;
        let k = match self.index_of(id) {
            Some(k) => k,
            None => return not_found_err(),
        };
        if !self.tasks[k].is_completed {
            self.tasks[k].is_current = true;
            if self.tasks[k].focus_started_at.is_none() {
                self.tasks[k].focus_started_at = Some(now);
            }
            self.tasks[k].updated_at = now;
        }
        proof {
            assert(self@.tasks =~= v3.tasks.update(k as int, self.tasks@[k as int]@));
        }
        self.finish_edit(k, today, Ghost(v3));
        Ok(())
    }

    /// Pauses the task's focus clock at `now` (its seconds are kept) and points the
    /// attention at it.
    pub fn pause_focus_at(&mut self, id: u128, now: i64, today: &str) -> (r: Result<(), String>)
        requires
            old(self).wf(),
        ensures
            final(self).wf(),
            has_id(old(self)@.tasks, id) ==> r is Ok && final(self)@ == (StoreView {
                focus_attention_task_id: Some(id),
                ..put(old(self)@, id, paused(at_id(old(self)@.tasks, id), now), today@)
            }),
            !has_id(old(self)@.tasks, id) ==> not_found(r) && final(self)@ == old(self)@,
    {
        let i = match self.index_of(id) {
            Some(i) => i,
            None => return not_found_err(),
        };
        let ghost before = self@;
        if !self.tasks[i].is_completed {
            self.tasks[i].stop_focus_clock(now);
        }
        proof {
            assert(self@.tasks =~= before.tasks.update(i as int, self.tasks@[i as int]@));
        }
        self.finish_edit(i, today, Ghost(before));
        self.focus_attention_task_id = Some(id);
        Ok(())
    }

    /// Ends the focus session of the task at `now`: its clock stops and resets to
    /// zero; the attention on it is dropped.
    pub fn stop_focus_at(&mut self, id: u128, now: i64, today: &str) -> (r: Result<(), String>)
        requires
            old(self).wf(),
        ensures
            final(self).wf(),
            has_id(old(self)@.tasks, id) ==> r is Ok && final(self)@ == drop_attention(
                put(old(self)@, id, focus_reset(at_id(old(self)@.tasks, id), now), today@),
                id,
            ),
            !has_id(old(self)@.tasks, id) ==> not_found(r) && final(self)@ == old(self)@,
    {
        let i = match self.index_of(id) {
            Some(i) => i,
            None => return not_found_err(),
        };
        let ghost before = self@;
        self.tasks[i].focus_started_at = None;
        self.tasks[i].focus_accumulated_seconds = Some(0);
        self.tasks[i].updated_at = now;
        proof {
            assert(self@.tasks =~= before.tasks.update(i as int, self.tasks@[i as int]@));
        }
        self.finish_edit(i, today, Ghost(before));
        if self.focus_attention_task_id == Some(id) {
            self.focus_attention_task_id = None;
        }
        Ok(())
    }

    /// Closes the focus task: as `stop_focus`, and it is no longer current.
    pub fn close_focus_at(&mut self, id: u128, now: i64, today: &str) -> (r: Result<(), String>)
        requires
            old(self).wf(),
        ensures
            final(self).wf(),
            has_id(old(self)@.tasks, id) ==> r is Ok && final(self)@ == drop_attention(
                put(
                    old(self)@,
                    id,
                    closed_focus(at_id(old(self)@.tasks, id), now),
                    today@,
                ),
                id,
            ),
            !has_id(old(self)@.tasks, id) ==> not_found(r) && final(self)@ == old(self)@,
    {
        let i = match self.index_of(id) {
            Some(i) => i,
            None => return not_found_err(),
        };
        let ghost before = self@;
        self.tasks[i].focus_started_at = None;
        self.tasks[i].focus_accumulated_seconds = Some(0);
        self.tasks[i].is_current = false;
        self.tasks[i].updated_at = now;
        proof {
            assert(self@.tasks =~= before.tasks.update(i as int, self.tasks@[i as int]@));
        }
        self.finish_edit(i, today, Ghost(before));
        if self.focus_attention_task_id == Some(id) {
            self.focus_attention_task_id = None;
        }
        Ok(())
    }

    /// Focus seconds of the task `id` at `now`; 0 for an unknown task.
    pub fn focus_seconds(&self, id: u128, now: i64) -> (r: i64)
        requires
            self.wf(),
        ensures
            r == focus_of(self@.tasks, id, now),
    {
        match self.index_of(id) {
            Some(i) => {
                proof {
                    super::lemma_id_index(self@.tasks, id, i as int);
                }
                focus_total_exec(&self.tasks[i], now)
            },
            None => 0,
        }
    }

    /// The focus target in minutes: the task's estimate, else `default_minutes`, at least 1.
    pub fn focus_target_minutes(&self, id: u128, default_minutes: i32) -> (r: i32)
        requires
            self.wf(),
        ensures
            r == target_of(self@.tasks, id, default_minutes),
    {
        let m = match self.index_of(id) {
            Some(i) => {
                proof {
                    super::lemma_id_index(self@.tasks, id, i as int);
                }
                match self.tasks[i].estimated_minutes {
                    Some(v) => v,
                    None => default_minutes,
                }
            },
            None => default_minutes,
        };
        if m < 1 {
            1
        } else {
            m
        }
    }

    /// Seconds left of the focus target at `now`, never below zero.
    pub fn focus_remaining_seconds(&self, id: u128, now: i64, default_minutes: i32) -> (r: i64)
        requires
            self.wf(),
        ensures
            r == remaining_of(self@.tasks, id, now, default_minutes),
    {
        let target = self.focus_target_minutes(id, default_minutes) as i128 * 60;
        let v: i128 = target - self.focus_seconds(id, now) as i128;
        if v < 0 {
            0
        } else if v > 0x7fff_ffff_ffff_ffff {
            0x7fff_ffff_ffff_ffff
        } else {
            v as i64
        }
    }

    /// Postpones the task `id` at `now` (see `postponed`).
    pub fn postpone_at(
        &mut self,
        id: u128,
        option: TaskPostponeOption,
        now: i64,
        today: &str,
    ) -> (r: Result<(), String>)
        requires
            old(self).wf(),
            in_range(now as int),
            in_range(now + postpone_step(option)),
            max_today(old(self)@.tasks) < i32::MAX,
            has_id(old(self)@.tasks, id) ==> at_id(old(self)@.tasks, id).postpone_count() < i32::MAX,
        ensures
            final(self).wf(),
            super::edits::edited(
                old(self)@,
                final(self)@,
                r,
                id,
                postponed(
                    at_id(old(self)@.tasks, id),
                    option,
                    now,
                    max_today(old(self)@.tasks) + 1,
                    today@,
                ),
                today@,
            ),
    {
        let due = postpone_due_exec(option, now);
        let next_today = self.next_today_sort_index();
        let clear_today = match option {
            TaskPostponeOption::Tomorrow => true,
            TaskPostponeOption::ThisWeek => true,
            _ => false,
        };
        let i = match self.index_of(id) {
            Some(i) => i,
            None => return not_found_err(),
        };
        let ghost before = self@;
        let count = self.tasks[i].postpone_count() + 1;
        self.tasks[i].due_at = Some(due);
        self.tasks[i].reminder_at = Some(due);
        self.tasks[i].postponed_at = Some(now);
        self.tasks[i].postpone_count_raw_value = Some(
            if count < 0 {
                0
            } else {
                count
            },
        );
        if crate::clock::utc_day(due) == crate::clock::utc_day(now) {
            let idx = match self.tasks[i].today_sort_index {
                Some(v) => v,
                None => next_today,
            };
            self.tasks[i].today_sort_index = Some(idx);
            self.tasks[i].today_added_date = Some(String::from_str(today));
        } else if clear_today {
            self.tasks[i].today_sort_index = None;
            self.tasks[i].today_added_date = None;
        }
        self.tasks[i].updated_at = now;
        proof {
            assert(self@.tasks =~= before.tasks.update(i as int, self.tasks@[i as int]@));
        }
        self.finish_edit(i, today, Ghost(before));
        Ok(())
    }

    /// The review at `now`: tasks completed on its UTC date, open tasks postponed on
    /// it, open tasks due on the next UTC date, and the focus seconds of all tasks.
    pub fn daily_review(&self, now: i64) -> (r: TaskDailyReview)
        requires
            self.wf(),
            in_range(now as int),
            in_range(now + DAY_MS),
        ensures
            task_views(r.completed_today@) == select(
                TaskFilter::CompletedOn,
                seq![],
                seq![],
                now as int,
                0,
                completed(self@.tasks),
            ),
            task_views(r.postponed_today@) == select(
                TaskFilter::PostponedOn,
                seq![],
                seq![],
                now as int,
                0,
                incomplete(self@.tasks),
            ),
            task_views(r.tomorrow_tasks@) == select(
                TaskFilter::DueOn,
                seq![],
                seq![],
                now + DAY_MS,
                0,
                incomplete(self@.tasks),
            ),
            r.focus_seconds == sum_focus(self@.tasks, now),
    {
        let tomorrow = now + 86_400_000;
        let c1 = FilterCtx { today: String::new(), text: String::new(), at: now, id: 0 };
        let c2 = FilterCtx { today: String::new(), text: String::new(), at: tomorrow, id: 0 };
        let completed_today = select_tasks(&self.completed_tasks(), TaskFilter::CompletedOn, &c1);
        let open = self.incomplete_tasks();
        let postponed_today = select_tasks(&open, TaskFilter::PostponedOn, &c1);
        let tomorrow_tasks = select_tasks(&open, TaskFilter::DueOn, &c2);
        let mut total: i128 = 0;
        let mut i: usize = 0;
        while i < self.tasks.len()
            invariant
                self.wf(),
                i <= self.tasks@.len(),
                total == sum_focus(self@.tasks.take(i as int), now),
                -(i as int) * 0x8000_0000_0000_0000 <= total <= (i as int) * 0x8000_0000_0000_0000,
            decreases self.tasks.len() - i,
        {
            proof {
                let s = self@.tasks.take(i + 1);
                assert(s.drop_last() =~= self@.tasks.take(i as int));
                super::lemma_id_index(self@.tasks, self@.tasks[i as int].id, i as int);
            }
            let f = self.focus_seconds(self.tasks[i].id, now);
            total = total + f as i128;
            i = i + 1;
        }
        proof {
            assert(self@.tasks.take(self@.tasks.len() as int) =~= self@.tasks);
        }
        TaskDailyReview { completed_today, postponed_today, tomorrow_tasks, focus_seconds: total }
    }
}

fn focus_total_exec(t: &TaskItem, now: i64) -> (r: i64)
    ensures
        r == focus_total(t@, now),
{
    let acc = t.focus_seconds();
    match t.focus_started_at {
        Some(started) => {
            let diff: i128 = now as i128 - started as i128;
            let secs: i128 = if diff > 0 {
                diff / 1000
            } else {
                0
            };
            let total: i128 = acc as i128 + secs;
            if total > 0x7fff_ffff_ffff_ffff {
                0x7fff_ffff_ffff_ffff
            } else {
                total as i64
            }
        },
        None => acc,
    }
}

} // verus!
