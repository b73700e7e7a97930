//! Changing one task in place: title, notes, priority, today's queue, project,
//! tags, estimate, repeat rule, due and reminder instants, subtasks. Each change
//! stamps the task's `updated_at` with the clock and ends with a reload; an unknown
//! identifier leaves the list as it was and answers "task not found".

use super::{expire_all, has_id, id_index, lemma_update_keeps_wf, same_keys, StoreView, TaskStore};
use crate::models::{
    kept_subtasks, rule_raw, tags_raw_of, SubtaskView, TaskPriority, TaskRepeatRule, TaskSubtask,
    TaskView,
};
use crate::text::{texts, trim};
use vstd::prelude::*;

verus! {

pub open spec fn not_found(r: Result<(), String>) -> bool {
    r matches Err(e) && e@ == "task not found"@
}

pub open spec fn at_id(s: Seq<TaskView>, id: u128) -> TaskView {
    s[id_index(s, id)]
}

/// The list once the task `id` is replaced by `t` and reloaded on `today`.
pub open spec fn put(v: StoreView, id: u128, t: TaskView, today: Seq<char>) -> StoreView {
    StoreView {
        tasks: expire_all(v.tasks.update(id_index(v.tasks, id), t), today),
        last_error: None,
        ..v
    }
}

/// Changing the task `id` into `t`: the change and a reload, or "task not found"
/// and nothing changed.
pub open spec fn edited(
    old: StoreView,
    new: StoreView,
    r: Result<(), String>,
    id: u128,
    t: TaskView,
    today: Seq<char>,
) -> bool {
    if has_id(old.tasks, id) {
        r is Ok && new == put(old, id, t, today)
    } else {
        not_found(r) && new == old
    }
}

pub fn not_found_err() -> (r: Result<(), String>)
    ensures
        not_found(r),
{
    Err(String::from_str("task not found"))
}

/// The largest today-queue index (-1 when none).
pub open spec fn max_today(s: Seq<TaskView>) -> int
    decreases s.len(),
{
    if s.len() == 0 {
        -1
    } else {
        let m = max_today(s.drop_last());
        match s.last().today_sort_index {
            Some(v) => if v > m {
                v as int
            } else {
                m
            },
            None => m,
        }
    }
}

/// The largest sort index (-1 when none).
pub open spec fn max_sort(s: Seq<TaskView>) -> int
    decreases s.len(),
{
    if s.len() == 0 {
        -1
    } else {
        let m = max_sort(s.drop_last());
        if s.last().sort_index > m {
            s.last().sort_index as int
        } else {
            m
        }
    }
}

pub proof fn lemma_max_today_range(s: Seq<TaskView>)
    ensures
        -1 <= max_today(s) <= i32::MAX,
    decreases s.len(),
{
    if s.len() > 0 {
        lemma_max_today_range(s.drop_last());
    }
}

pub proof fn lemma_max_sort_range(s: Seq<TaskView>)
    ensures
        -1 <= max_sort(s) || s.len() > 0,
        max_sort(s) <= i32::MAX,
        i32::MIN <= max_sort(s),
    decreases s.len(),
{
    if s.len() > 0 {
        lemma_max_sort_range(s.drop_last());
    }
}

pub open spec fn retitled(t: TaskView, title: Seq<char>, clock: i64) -> TaskView {
    if t.title != title {
        TaskView { title, updated_at: clock, ..t }
    } else {
        t
    }
}

pub open spec fn queued(t: TaskView, flag: bool, next: int, today: Seq<char>, clock: i64) -> TaskView {
    if flag {
        TaskView {
            today_sort_index: Some(
                match t.today_sort_index {
                    Some(v) => v,
                    None => next as i32,
                },
            ),
            today_added_date: Some(today),
            updated_at: clock,
            ..t
        }
    } else {
        TaskView { today_sort_index: None, today_added_date: None, updated_at: clock, ..t }
    }
}

/// A project name trimmed; a blank one is none.
pub open spec fn cleaned_project(p: Option<Seq<char>>) -> Option<Seq<char>> {
    match p {
        Some(s) => if trim(s).len() > 0 {
            Some(trim(s))
        } else {
            None
        },
        None => None,
    }
}

/// The subtask list after appending a new open subtask and dropping blank titles.
pub open spec fn with_subtask(subs: Seq<SubtaskView>, id: u128, title: Seq<char>, clock: i64) -> Seq<
    SubtaskView,
> {
    kept_subtasks(
        subs.push(SubtaskView { id, title, is_completed: false, created_at: clock }),
    )
}

pub open spec fn has_sub(subs: Seq<SubtaskView>, sid: u128) -> bool {
    exists|k: int| 0 <= k < subs.len() && subs[k].id == sid
}

/// The first subtask with identifier `sid`.
pub open spec fn first_sub(subs: Seq<SubtaskView>, sid: u128) -> int {
    choose|k: int|
        0 <= k < subs.len() && subs[k].id == sid && forall|j: int| 0 <= j < k ==> subs[j].id != sid
}

/// The task once the first subtask with identifier `sid` flips its completion.
pub open spec fn toggled(t: TaskView, sid: u128, clock: i64) -> TaskView {
    if has_sub(t.subtasks, sid) {
        let k = first_sub(t.subtasks, sid);
        TaskView {
            subtasks: kept_subtasks(
                t.subtasks.update(
                    k,
                    SubtaskView { is_completed: !t.subtasks[k].is_completed, ..t.subtasks[k] },
                ),
            ),
            updated_at: clock,
            ..t
        }
    } else {
        t
    }
}

pub open spec fn without_sub(subs: Seq<SubtaskView>, sid: u128) -> Seq<SubtaskView> {
    subs.filter(|x: SubtaskView| x.id != sid)
}

/// Where the first subtask with identifier `sid` stands.
fn first_sub_index(subs: &Vec<TaskSubtask>, sid: u128) -> (r: Option<usize>)
    ensures
        r is None <==> !has_sub(crate::models::subtask_views(subs@), sid),
        r matches Some(k) ==> k < subs@.len() && k == first_sub(crate::models::subtask_views(subs@), sid),
{
    let ghost sv = crate::models::subtask_views(subs@);
    let mut k: usize = 0;
    while k < subs.len() && subs[k].id != sid
        invariant
            k <= subs@.len(),
            sv == crate::models::subtask_views(subs@),
            forall|j: int| 0 <= j < k ==> subs@[j].id != sid,
        decreases subs.len() - k,
    {
        k = k + 1;
    }
    if k < subs.len() {
        proof {
            assert(sv[k as int].id == sid);
            assert(has_sub(sv, sid));
            let c = first_sub(sv, sid);
            if c < k {
                assert(subs@[c].id != sid);
            } else if c > k {
                assert(sv[k as int].id == sid);
            }
        }
        Some(k)
    } else {
        proof {
            assert forall|j: int| 0 <= j < sv.len() implies sv[j].id != sid by {
                assert(subs@[j].id != sid);
            }
        }
        None
    }
}


pub open spec fn with_notes(t: TaskView, notes: Seq<char>, clock: i64) -> TaskView {
    TaskView { notes, updated_at: clock, ..t }
}

pub open spec fn with_priority(t: TaskView, priority: TaskPriority, clock: i64) -> TaskView {
    TaskView { priority_raw_value: Some(priority.raw()), updated_at: clock, ..t }
}

pub open spec fn with_project(t: TaskView, project: Option<Seq<char>>, clock: i64) -> TaskView {
    TaskView { project_name: cleaned_project(project), updated_at: clock, ..t }
}

pub open spec fn with_tags(t: TaskView, tags: Seq<Seq<char>>, clock: i64) -> TaskView {
    TaskView { tags_raw_value: tags_raw_of(tags), updated_at: clock, ..t }
}

pub open spec fn with_minutes(t: TaskView, minutes: Option<i32>, clock: i64) -> TaskView {
    TaskView { estimated_minutes: minutes, updated_at: clock, ..t }
}

pub open spec fn with_rule(t: TaskView, rule: Option<TaskRepeatRule>, clock: i64) -> TaskView {
    TaskView { repeat_rule_raw_value: rule_raw(rule), updated_at: clock, ..t }
}

pub open spec fn with_due(t: TaskView, due_at: Option<i64>, reminder_at: Option<i64>, clock: i64) -> TaskView {
    TaskView { due_at, reminder_at, updated_at: clock, ..t }
}

pub open spec fn with_new_subtask(t: TaskView, sid: u128, title: Seq<char>, clock: i64) -> TaskView {
    TaskView { subtasks: with_subtask(t.subtasks, sid, title, clock), updated_at: clock, ..t }
}

pub open spec fn without_subtask(t: TaskView, sid: u128, clock: i64) -> TaskView {
    TaskView { subtasks: kept_subtasks(without_sub(t.subtasks, sid)), updated_at: clock, ..t }
}

impl TaskStore {
    /// Reloads after task `i` was changed in place, keeping its keys.
    pub(crate) fn finish_edit(&mut self, i: usize, today: &str, before: Ghost<StoreView>)
        requires
            before@.wf(),
            i < before@.tasks.len(),
            old(self)@ == (StoreView {
                tasks: before@.tasks.update(i as int, old(self)@.tasks[i as int]),
                ..before@
            }),
            same_keys(old(self)@.tasks[i as int], before@.tasks[i as int]),
        ensures
            final(self)@ == (StoreView {
                tasks: expire_all(old(self)@.tasks, today@),
                last_error: None,
                ..old(self)@
            }),
            final(self).wf(),
    {
        proof {
            lemma_update_keeps_wf(before@.tasks, i as int, old(self)@.tasks[i as int]);
        }
        self.reload_tasks_on(today);
    }

    /// One more than the largest today-queue index, or 0.
    pub fn next_today_sort_index(&self) -> (r: i32)
        requires
            max_today(self@.tasks) < i32::MAX,
        ensures
            r == max_today(self@.tasks) + 1,
    {
        let mut m: i32 = -1;
        let mut i: usize = 0;
        while i < self.tasks.len()
            invariant
                i <= self.tasks@.len(),
                m == max_today(self@.tasks.take(i as int)),
            decreases self.tasks.len() - i,
        {
            proof {
                let s = self@.tasks.take(i + 1);
                assert(s.drop_last() =~= self@.tasks.take(i as int));
            }
            if let Some(v) = self.tasks[i].today_sort_index {
                if v > m {
                    m = v;
                }
            }
            i = i + 1;
        }
        proof {
            assert(self@.tasks.take(self@.tasks.len() as int) =~= self@.tasks);
        }
        m + 1
    }

    /// One more than the largest sort index, or 0.
    pub fn next_sort_index(&self) -> (r: i32)
        requires
            max_sort(self@.tasks) < i32::MAX,
        ensures
            r == max_sort(self@.tasks) + 1,
    {
        let mut m: i32 = -1;
        let mut i: usize = 0;
        while i < self.tasks.len()
            invariant
                i <= self.tasks@.len(),
                m == max_sort(self@.tasks.take(i as int)),
            decreases self.tasks.len() - i,
        {
            proof {
                let s = self@.tasks.take(i + 1);
                assert(s.drop_last() =~= self@.tasks.take(i as int));
            }
            if self.tasks[i].sort_index > m {
                m = self.tasks[i].sort_index;
            }
            i = i + 1;
        }
        proof {
            assert(self@.tasks.take(self@.tasks.len() as int) =~= self@.tasks);
        }
        m + 1
    }

    /// Sets the trimmed title; a blank title changes nothing.
    pub fn update_title_at(&mut self, id: u128, raw_title: &str, clock: i64, today: &str) -> (r: Result<
        (),
        String,
    >)
        requires
            old(self).wf(),
        ensures
            final(self).wf(),
            trim(raw_title@).len() == 0 ==> r is Ok && final(self)@ == old(self)@,
            trim(raw_title@).len() > 0 ==> edited(
                old(self)@,
                final(self)@,
                r,
                id,
                retitled(at_id(old(self)@.tasks, id), trim(raw_title@), clock),
                today@,
            ),
    {
        let tc = crate::text::trim_vec(crate::text::chars_of(raw_title).as_slice());
        if tc.len() == 0 {
            return Ok(());
        }
        let title = crate::text::string_of(tc.as_slice());
        let i = match self.index_of(id) {
            Some(i) => i,
            None => return not_found_err(),
        };
        let ghost before = self@;
        if self.tasks[i].title != title {
            self.tasks[i].title = title;
            self.tasks[i].updated_at = clock;
        }
        proof {
            assert(self@.tasks =~= before.tasks.update(i as int, self.tasks@[i as int]@));
        }
        self.finish_edit(i, today, Ghost(before));
        Ok(())
    }

    pub fn update_notes_at(&mut self, id: u128, notes: &str, clock: i64, today: &str) -> (r: Result<
        (),
        String,
    >)
        requires
            old(self).wf(),
        ensures
            final(self).wf(),
            edited(
                old(self)@,
                final(self)@,
                r,
                id,
                with_notes(at_id(old(self)@.tasks, id), notes@, clock),
                today@,
            ),
    {
        let i = match self.index_of(id) {
            Some(i) => i,
            None => return not_found_err(),
        };
        let ghost before = self@;
        self.tasks[i].notes = String::from_str(notes);
        self.tasks[i].updated_at = clock;
        proof {
            assert(self@.tasks =~= before.tasks.update(i as int, self.tasks@[i as int]@));
        }
        self.finish_edit(i, today, Ghost(before));
        Ok(())
    }

    pub fn set_priority_at(&mut self, id: u128, priority: TaskPriority, clock: i64, today: &str) -> (r:
        Result<(), String>)
        requires
            old(self).wf(),
        ensures
            final(self).wf(),
            edited(
                old(self)@,
                final(self)@,
                r,
                id,
                with_priority(at_id(old(self)@.tasks, id), priority, clock),
                today@,
            ),
    {
        let i = match self.index_of(id) {
            Some(i) => i,
            None => return not_found_err(),
        };
        let ghost before = self@;
        self.tasks[i].priority_raw_value = Some(priority.as_raw());
        self.tasks[i].updated_at = clock;
        proof {
            assert(self@.tasks =~= before.tasks.update(i as int, self.tasks@[i as int]@));
        }
        self.finish_edit(i, today, Ghost(before));
        Ok(())
    }

    /// Puts the task in today's queue (keeping a queue index it has, else the next
    /// one) or takes it out.
    pub fn set_today_queue_at(&mut self, id: u128, is_in_today_queue: bool, clock: i64, today: &str) -> (r:
        Result<(), String>)
        requires
            old(self).wf(),
            max_today(old(self)@.tasks) < i32::MAX,
        ensures
            final(self).wf(),
            edited(
                old(self)@,
                final(self)@,
                r,
                id,
                queued(
                    at_id(old(self)@.tasks, id),
                    is_in_today_queue,
                    max_today(old(self)@.tasks) + 1,
                    today@,
                    clock,
                ),
                today@,
            ),
    {
        let next_today = self.next_today_sort_index();
        let i = match self.index_of(id) {
            Some(i) => i,
            None => return not_found_err(),
        };
        let ghost before = self@;
        if is_in_today_queue {
            let idx = match self.tasks[i].today_sort_index {
                Some(v) => v,
                None => next_today,
            };
            self.tasks[i].today_sort_index = Some(idx);
            self.tasks[i].today_added_date = Some(String::from_str(today));
        } else {
            self.tasks[i].today_sort_index = None;
            self.tasks[i].today_added_date = None;
        }
        self.tasks[i].updated_at = clock;
        proof {
            assert(self@.tasks =~= before.tasks.update(i as int, self.tasks@[i as int]@));
        }
        self.finish_edit(i, today, Ghost(before));
        Ok(())
    }

    /// Sets the trimmed project name; a blank one clears it.
    pub fn set_project_name_at(
        &mut self,
        id: u128,
        project_name: Option<String>,
        clock: i64,
        today: &str,
    ) -> (r: Result<(), String>)
        requires
            old(self).wf(),
        ensures
            final(self).wf(),
            edited(
                old(self)@,
                final(self)@,
                r,
                id,
                with_project(at_id(old(self)@.tasks, id), crate::models::opt_text(project_name), clock),
                today@,
            ),
    {
        let i = match self.index_of(id) {
            Some(i) => i,
            None => return not_found_err(),
        };
        let ghost before = self@;
        let cleaned = match &project_name {
            Some(p) => {
                let t = crate::text::trimmed(p.as_str());
                let n = crate::text::chars_of(t.as_str());
                if n.len() > 0 {
                    Some(t)
                } else {
                    None
                }
            },
            None => None,
        };
        self.tasks[i].project_name = cleaned;
        self.tasks[i].updated_at = clock;
        proof {
            assert(self@.tasks =~= before.tasks.update(i as int, self.tasks@[i as int]@));
        }
        self.finish_edit(i, today, Ghost(before));
        Ok(())
    }

    /// Stores the trimmed, non-blank tags joined by commas.
    pub fn set_tags_at(&mut self, id: u128, tags: Vec<String>, clock: i64, today: &str) -> (r: Result<
        (),
        String,
    >)
        requires
            old(self).wf(),
        ensures
            final(self).wf(),
            edited(
                old(self)@,
                final(self)@,
                r,
                id,
                with_tags(at_id(old(self)@.tasks, id), texts(tags@), clock),
                today@,
            ),
    {
        let i = match self.index_of(id) {
            Some(i) => i,
            None => return not_found_err(),
        };
        let ghost before = self@;
        self.tasks[i].set_tags(tags);
        self.tasks[i].updated_at = clock;
        proof {
            assert(self@.tasks =~= before.tasks.update(i as int, self.tasks@[i as int]@));
        }
        self.finish_edit(i, today, Ghost(before));
        Ok(())
    }

    pub fn set_estimated_minutes_at(
        &mut self,
        id: u128,
        minutes: Option<i32>,
        clock: i64,
        today: &str,
    ) -> (r: Result<(), String>)
        requires
            old(self).wf(),
        ensures
            final(self).wf(),
            edited(
                old(self)@,
                final(self)@,
                r,
                id,
                with_minutes(at_id(old(self)@.tasks, id), minutes, clock),
                today@,
            ),
    {
        let i = match self.index_of(id) {
            Some(i) => i,
            None => return not_found_err(),
        };
        let ghost before = self@;
        self.tasks[i].estimated_minutes = minutes;
        self.tasks[i].updated_at = clock;
        proof {
            assert(self@.tasks =~= before.tasks.update(i as int, self.tasks@[i as int]@));
        }
        self.finish_edit(i, today, Ghost(before));
        Ok(())
    }

    pub fn set_repeat_rule_at(
        &mut self,
        id: u128,
        rule: Option<TaskRepeatRule>,
        clock: i64,
        today: &str,
    ) -> (r: Result<(), String>)
        requires
            old(self).wf(),
        ensures
            final(self).wf(),
            edited(
                old(self)@,
                final(self)@,
                r,
                id,
                with_rule(at_id(old(self)@.tasks, id), rule, clock),
                today@,
            ),
    {
        let i = match self.index_of(id) {
            Some(i) => i,
            None => return not_found_err(),
        };
        let ghost before = self@;
        self.tasks[i].set_repeat_rule(rule);
        self.tasks[i].updated_at = clock;
        proof {
            assert(self@.tasks =~= before.tasks.update(i as int, self.tasks@[i as int]@));
        }
        self.finish_edit(i, today, Ghost(before));
        Ok(())
    }

    pub fn set_due_reminder_at(
        &mut self,
        id: u128,
        due_at: Option<i64>,
        reminder_at: Option<i64>,
        clock: i64,
        today: &str,
    ) -> (r: Result<(), String>)
        requires
            old(self).wf(),
        ensures
            final(self).wf(),
            edited(
                old(self)@,
                final(self)@,
                r,
                id,
                with_due(at_id(old(self)@.tasks, id), due_at, reminder_at, clock),
                today@,
            ),
    {
        let i = match self.index_of(id) {
            Some(i) => i,
            None => return not_found_err(),
        };
        let ghost before = self@;
        self.tasks[i].due_at = due_at;
        self.tasks[i].reminder_at = reminder_at;
        self.tasks[i].updated_at = clock;
        proof {
            assert(self@.tasks =~= before.tasks.update(i as int, self.tasks@[i as int]@));
        }
        self.finish_edit(i, today, Ghost(before));
        Ok(())
    }

    /// Appends an open subtask with the trimmed title; a blank title changes nothing.
    pub fn add_subtask_at(
        &mut self,
        id: u128,
        title: &str,
        subtask_id: u128,
        clock: i64,
        today: &str,
    ) -> (r: Result<(), String>)
        requires
            old(self).wf(),
        ensures
            final(self).wf(),
            trim(title@).len() == 0 ==> r is Ok && final(self)@ == old(self)@,
            trim(title@).len() > 0 ==> edited(
                old(self)@,
                final(self)@,
                r,
                id,
                with_new_subtask(at_id(old(self)@.tasks, id), subtask_id, trim(title@), clock),
                today@,
            ),
    {
        let tc = crate::text::trim_vec(crate::text::chars_of(title).as_slice());
        if tc.len() == 0 {
            return Ok(());
        }
        let i = match self.index_of(id) {
            Some(i) => i,
            None => return not_found_err(),
        };
        let ghost before = self@;
        let mut subs = self.tasks[i].subtasks();
        let ghost prev = crate::models::subtask_views(subs@);
        let sub = TaskSubtask {
            id: subtask_id,
            title: crate::text::string_of(tc.as_slice()),
            is_completed: false,
            created_at: clock,
        };
        subs.push(sub);
        proof {
            assert(crate::models::subtask_views(subs@) =~= prev.push(
                SubtaskView { id: subtask_id, title: trim(title@), is_completed: false, created_at: clock },
            ));
        }
        self.tasks[i].set_subtasks(subs);
        self.tasks[i].updated_at = clock;
        proof {
            assert(self@.tasks =~= before.tasks.update(i as int, self.tasks@[i as int]@));
        }
        self.finish_edit(i, today, Ghost(before));
        Ok(())
    }

    /// Flips the completion of the first subtask with identifier `subtask_id`.
    pub fn toggle_subtask_at(
        &mut self,
        task_id: u128,
        subtask_id: u128,
        clock: i64,
        today: &str,
    ) -> (r: Result<(), String>)
        requires
            old(self).wf(),
        ensures
            final(self).wf(),
            edited(
                old(self)@,
                final(self)@,
                r,
                task_id,
                toggled(at_id(old(self)@.tasks, task_id), subtask_id, clock),
                today@,
            ),
    {
        let i = match self.index_of(task_id) {
            Some(i) => i,
            None => return not_found_err(),
        };
        let ghost before = self@;
        let mut subs = self.tasks[i].subtasks();
        let ghost sv = crate::models::subtask_views(subs@);
        match first_sub_index(&subs, subtask_id) {
            Some(k) => {
                let flipped = !subs[k].is_completed;
                subs[k].is_completed = flipped;
                proof {
                    assert(crate::models::subtask_views(subs@) =~= sv.update(
                        k as int,
                        SubtaskView { is_completed: !sv[k as int].is_completed, ..sv[k as int] },
                    ));
                }
                self.tasks[i].set_subtasks(subs);
                self.tasks[i].updated_at = clock;
            },
            None => {},
        }
        proof {
            assert(self@.tasks =~= before.tasks.update(i as int, self.tasks@[i as int]@));
        }
        self.finish_edit(i, today, Ghost(before));
        Ok(())
    }

    /// Removes every subtask with identifier `subtask_id`.
    pub fn delete_subtask_at(
        &mut self,
        task_id: u128,
        subtask_id: u128,
        clock: i64,
        today: &str,
    ) -> (r: Result<(), String>)
        requires
            old(self).wf(),
        ensures
            final(self).wf(),
            edited(
                old(self)@,
                final(self)@,
                r,
                task_id,
                without_subtask(at_id(old(self)@.tasks, task_id), subtask_id, clock),
                today@,
            ),
    {
        let i = match self.index_of(task_id) {
            Some(i) => i,
            None => return not_found_err(),
        };
        let ghost before = self@;
        let subs = self.tasks[i].subtasks();
        let ghost sv = crate::models::subtask_views(subs@);
        let ghost q = |x: SubtaskView| x.id != subtask_id;
        let mut kept: Vec<TaskSubtask> = Vec::new();
        let mut k: usize = 0;
        while k < subs.len()
            invariant
                k <= subs@.len(),
                sv == crate::models::subtask_views(subs@),
                q == (|x: SubtaskView| x.id != subtask_id),
                crate::models::subtask_views(kept@) == sv.take(k as int).filter(q),
            decreases subs.len() - k,
        {
            proof {
                assert(sv.take(k + 1) =~= sv.take(k as int).push(sv[k as int]));
                sv.take(k as int).lemma_filter_push(sv[k as int], q);
            }
            if subs[k].id != subtask_id {
                let s = subs[k].clone();
                let ghost pre = kept@;
                kept.push(s);
                proof {
                    assert(crate::models::subtask_views(kept@) =~= crate::models::subtask_views(pre).push(s@));
                }
            }
            k = k + 1;
        }
        proof {
            assert(sv.take(subs@.len() as int) =~= sv);
        }
        self.tasks[i].set_subtasks(kept);
        self.tasks[i].updated_at = clock;
        proof {
            assert(self@.tasks =~= before.tasks.update(i as int, self.tasks@[i as int]@));
        }
        self.finish_edit(i, today, Ghost(before));
        Ok(())
    }
}

} // verus!
