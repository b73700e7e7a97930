//! The list's operations as the application calls them: each reads the clock,
//! the local date and fresh identifiers from the machine and hands them to the
//! `_at` form, whose contract is exact; here the contract holds for whatever
//! values were read.

use super::current::{advance_target, deleted, normalized, set_current_spec};
use super::edits::{
    at_id, edited, max_sort, max_today, queued, retitled, toggled, with_due, with_minutes,
    with_new_subtask, with_notes, with_priority, with_project, with_rule, with_tags,
    without_subtask,
};
use super::focus::{
    closed_focus, drop_attention, focus_reset, paused, postpone_step, postponed, start_focus_spec,
};
use super::lifecycle::{
    complete_spec, inserted, metadata_task, next_after, next_after_ok, quick_task, reopen_spec,
};
use super::queries::incomplete;
use super::{expire_all, has_id, without_id, StoreView, TaskStore};
use crate::clock::{in_range, local_offset_secs, local_today, now_ms};
use crate::ids::new_id;
use crate::models::{
    kept_subtasks, opt_text, rule_raw, subtask_views, tags_raw_of, TaskItem, TaskPostponeOption,
    TaskPriority, TaskRepeatRule, TaskSubtask, TaskView,
};
use crate::parser::{parse_ok, parse_spec};
use crate::text::{texts, trim};
use vstd::prelude::*;

verus! {

/// The clock-free part of what completing `src` needs (see `recur_ok`).
pub open spec fn recur_room(src: TaskView, s: Seq<TaskView>) -> bool {
    match (src.repeat_rule(), src.due_at) {
        (Some(rule), Some(due)) => {
            &&& next_after_ok(due, rule)
            &&& next_after(due, rule) is Some ==> max_sort(s) < i32::MAX && max_today(s) < i32::MAX
        },
        _ => true,
    }
}

impl TaskStore {
    /// Sets the notes. The clock and the local date are read from the machine.
    pub fn update_notes(&mut self, id: u128, notes: &str) -> (r: Result<(), String>)
        requires
            old(self).wf(),
        ensures
            final(self).wf(),
            exists|c: i64, d: Seq<char>|
                #![trigger edited(old(self)@, final(self)@, r, id, with_notes(at_id(old(self)@.tasks, id), notes@, c), d)]
                edited(old(self)@, final(self)@, r, id, with_notes(at_id(old(self)@.tasks, id), notes@, c), d),
    {
        let clock = now_ms();
        let today = local_today();
        self.update_notes_at(id, notes, clock, today.as_str())
    }

    /// Sets the priority. The clock and the local date are read from the machine.
    pub fn set_priority(&mut self, id: u128, priority: TaskPriority) -> (r: Result<(), String>)
        requires
            old(self).wf(),
        ensures
            final(self).wf(),
            exists|c: i64, d: Seq<char>|
                #![trigger edited(old(self)@, final(self)@, r, id, with_priority(at_id(old(self)@.tasks, id), priority, c), d)]
                edited(old(self)@, final(self)@, r, id, with_priority(at_id(old(self)@.tasks, id), priority, c), d),
    {
        let clock = now_ms();
        let today = local_today();
        self.set_priority_at(id, priority, clock, today.as_str())
    }

    /// Sets the trimmed project name; a blank one clears it. The clock and the local date are read from the machine.
    pub fn set_project_name(&mut self, id: u128, project_name: Option<String>) -> (r: Result<(), String>)
        requires
            old(self).wf(),
        ensures
            final(self).wf(),
            exists|c: i64, d: Seq<char>|
                #![trigger edited(old(self)@, final(self)@, r, id, with_project(at_id(old(self)@.tasks, id), opt_text(project_name), c), d)]
                edited(old(self)@, final(self)@, r, id, with_project(at_id(old(self)@.tasks, id), opt_text(project_name), c), d),
    {
        let clock = now_ms();
        let today = local_today();
        self.set_project_name_at(id, project_name, clock, today.as_str())
    }

    /// Stores the trimmed, non-blank tags. The clock and the local date are read from the machine.
    pub fn set_tags(&mut self, id: u128, tags: Vec<String>) -> (r: Result<(), String>)
        requires
            old(self).wf(),
        ensures
            final(self).wf(),
            exists|c: i64, d: Seq<char>|
                #![trigger edited(old(self)@, final(self)@, r, id, with_tags(at_id(old(self)@.tasks, id), texts(tags@), c), d)]
                edited(old(self)@, final(self)@, r, id, with_tags(at_id(old(self)@.tasks, id), texts(tags@), c), d),
    {
        let clock = now_ms();
        let today = local_today();
        self.set_tags_at(id, tags, clock, today.as_str())
    }

    /// Sets the estimate in minutes. The clock and the local date are read from the machine.
    pub fn set_estimated_minutes(&mut self, id: u128, minutes: Option<i32>) -> (r: Result<(), String>)
        requires
            old(self).wf(),
        ensures
            final(self).wf(),
            exists|c: i64, d: Seq<char>|
                #![trigger edited(old(self)@, final(self)@, r, id, with_minutes(at_id(old(self)@.tasks, id), minutes, c), d)]
                edited(old(self)@, final(self)@, r, id, with_minutes(at_id(old(self)@.tasks, id), minutes, c), d),
    {
        let clock = now_ms();
        let today = local_today();
        self.set_estimated_minutes_at(id, minutes, clock, today.as_str())
    }

    /// Sets the repeat rule. The clock and the local date are read from the machine.
    pub fn set_repeat_rule(&mut self, id: u128, rule: Option<TaskRepeatRule>) -> (r: Result<(), String>)
        requires
            old(self).wf(),
        ensures
            final(self).wf(),
            exists|c: i64, d: Seq<char>|
                #![trigger edited(old(self)@, final(self)@, r, id, with_rule(at_id(old(self)@.tasks, id), rule, c), d)]
                edited(old(self)@, final(self)@, r, id, with_rule(at_id(old(self)@.tasks, id), rule, c), d),
    {
        let clock = now_ms();
        let today = local_today();
        self.set_repeat_rule_at(id, rule, clock, today.as_str())
    }

    /// Sets the due and reminder instants. The clock and the local date are read from the machine.
    pub fn set_due_reminder(&mut self, id: u128, due_at: Option<i64>, reminder_at: Option<i64>) -> (r: Result<(), String>)
        requires
            old(self).wf(),
        ensures
            final(self).wf(),
            exists|c: i64, d: Seq<char>|
                #![trigger edited(old(self)@, final(self)@, r, id, with_due(at_id(old(self)@.tasks, id), due_at, reminder_at, c), d)]
                edited(old(self)@, final(self)@, r, id, with_due(at_id(old(self)@.tasks, id), due_at, reminder_at, c), d),
    {
        let clock = now_ms();
        let today = local_today();
        self.set_due_reminder_at(id, due_at, reminder_at, clock, today.as_str())
    }

    /// Flips the first subtask with identifier `subtask_id`. The clock and the local date are read from the machine.
    pub fn toggle_subtask(&mut self, task_id: u128, subtask_id: u128) -> (r: Result<(), String>)
        requires
            old(self).wf(),
        ensures
            final(self).wf(),
            exists|c: i64, d: Seq<char>|
                #![trigger edited(old(self)@, final(self)@, r, task_id, toggled(at_id(old(self)@.tasks, task_id), subtask_id, c), d)]
                edited(old(self)@, final(self)@, r, task_id, toggled(at_id(old(self)@.tasks, task_id), subtask_id, c), d),
    {
        let clock = now_ms();
        let today = local_today();
        self.toggle_subtask_at(task_id, subtask_id, clock, today.as_str())
    }

    /// Removes every subtask with identifier `subtask_id`. The clock and the local date are read from the machine.
    pub fn delete_subtask(&mut self, task_id: u128, subtask_id: u128) -> (r: Result<(), String>)
        requires
            old(self).wf(),
        ensures
            final(self).wf(),
            exists|c: i64, d: Seq<char>|
                #![trigger edited(old(self)@, final(self)@, r, task_id, without_subtask(at_id(old(self)@.tasks, task_id), subtask_id, c), d)]
                edited(old(self)@, final(self)@, r, task_id, without_subtask(at_id(old(self)@.tasks, task_id), subtask_id, c), d),
    {
        let clock = now_ms();
        let today = local_today();
        self.delete_subtask_at(task_id, subtask_id, clock, today.as_str())
    }

    /// Sets the trimmed title; a blank title changes nothing.
    pub fn update_title(&mut self, id: u128, raw_title: &str) -> (r: Result<(), String>)
        requires
            old(self).wf(),
        ensures
            final(self).wf(),
            trim(raw_title@).len() == 0 ==> r is Ok && final(self)@ == old(self)@,
            trim(raw_title@).len() > 0 ==> exists|c: i64, d: Seq<char>|
                #![trigger edited(old(self)@, final(self)@, r, id, retitled(at_id(old(self)@.tasks, id), trim(raw_title@), c), d)]
                edited(old(self)@, final(self)@, r, id, retitled(at_id(old(self)@.tasks, id), trim(raw_title@), c), d),
    {
        let clock = now_ms();
        let today = local_today();
        self.update_title_at(id, raw_title, clock, today.as_str())
    }

    /// Puts the task in today's queue or takes it out.
    pub fn set_today_queue(&mut self, id: u128, is_in_today_queue: bool) -> (r: Result<(), String>)
        requires
            old(self).wf(),
            max_today(old(self)@.tasks) < i32::MAX,
        ensures
            final(self).wf(),
            exists|c: i64, d: Seq<char>|
                #![trigger edited(old(self)@, final(self)@, r, id, queued(at_id(old(self)@.tasks, id), is_in_today_queue, max_today(old(self)@.tasks) + 1, d, c), d)]
                edited(old(self)@, final(self)@, r, id, queued(at_id(old(self)@.tasks, id), is_in_today_queue, max_today(old(self)@.tasks) + 1, d, c), d),
    {
        let clock = now_ms();
        let today = local_today();
        self.set_today_queue_at(id, is_in_today_queue, clock, today.as_str())
    }

    /// Appends an open subtask with a fresh identifier; a blank title changes nothing.
    pub fn add_subtask(&mut self, id: u128, title: &str) -> (r: Result<(), String>)
        requires
            old(self).wf(),
        ensures
            final(self).wf(),
            trim(title@).len() == 0 ==> r is Ok && final(self)@ == old(self)@,
            trim(title@).len() > 0 ==> exists|s: u128, c: i64, d: Seq<char>|
                #![trigger edited(old(self)@, final(self)@, r, id, with_new_subtask(at_id(old(self)@.tasks, id), s, trim(title@), c), d)]
                edited(old(self)@, final(self)@, r, id, with_new_subtask(at_id(old(self)@.tasks, id), s, trim(title@), c), d),
    {
        let sub = new_id();
        let clock = now_ms();
        let today = local_today();
        self.add_subtask_at(id, title, sub, clock, today.as_str())
    }

    /// Makes the task `id` current after every open task lost its mark.
    pub fn set_current(&mut self, id: u128) -> (r: Result<(), String>)
        requires
            old(self).wf(),
        ensures
            final(self).wf(),
            exists|c: i64, d: Seq<char>|
                #![trigger set_current_spec(old(self)@, final(self)@, r, id, c, d)]
                set_current_spec(old(self)@, final(self)@, r, id, c, d),
    {
        let clock = now_ms();
        let today = local_today();
        self.set_current_at(id, clock, today.as_str())
    }

    /// Makes the next open task current, wrapping around.
    pub fn advance_current(&mut self) -> (r: Result<(), String>)
        requires
            old(self).wf(),
        ensures
            final(self).wf(),
            incomplete(old(self)@.tasks).len() == 0 ==> r is Ok && final(self)@ == old(self)@,
            incomplete(old(self)@.tasks).len() > 0 ==> exists|c: i64, d: Seq<char>|
                #![trigger set_current_spec(old(self)@, final(self)@, r, advance_target(old(self)@.tasks), c, d)]
                set_current_spec(old(self)@, final(self)@, r, advance_target(old(self)@.tasks), c, d),
    {
        let clock = now_ms();
        let today = local_today();
        self.advance_current_at(clock, today.as_str())
    }

    /// Removes the task `id` (if any) and normalizes the current marks.
    pub fn delete(&mut self, id: u128) -> (r: Result<(), String>)
        requires
            old(self).wf(),
        ensures
            final(self).wf(),
            r is Ok,
            exists|c: i64, d: Seq<char>|
                #![trigger deleted(old(self)@, id, c, d)]
                final(self)@ == deleted(old(self)@, id, c, d),
    {
        let clock = now_ms();
        let today = local_today();
        self.delete_at(id, clock, today.as_str())
    }

    /// Completes the task `id` at `now` (see `complete_at`); the next occurrence of a
    /// repeating task gets fresh identifiers.
    pub fn complete(&mut self, id: u128, now: i64) -> (r: Result<(), String>)
        requires
            old(self).wf(),
            has_id(old(self)@.tasks, id) && !at_id(old(self)@.tasks, id).is_completed ==> recur_room(
                at_id(old(self)@.tasks, id),
                old(self)@.tasks,
            ),
        ensures
            final(self).wf(),
            exists|c: i64, d: Seq<char>, n: u128, s: Seq<u128>|
                #![trigger complete_spec(old(self)@, final(self)@, r, id, now, c, d, n, s)]
                complete_spec(old(self)@, final(self)@, r, id, now, c, d, n, s),
    {
        let count = match self.index_of(id) {
            Some(i) => self.tasks[i].subtasks.len(),
            None => 0,
        };
        let mut sub_ids: Vec<u128> = Vec::new();
        let mut k: usize = 0;
        while k < count
            invariant
                k <= count,
                sub_ids@.len() == k,
            decreases count - k,
        {
            sub_ids.push(new_id());
            k = k + 1;
        }
        let next_id = new_id();
        let clock = now_ms();
        let today = local_today();
        self.complete_at(id, now, clock, today.as_str(), next_id, &sub_ids)
    }

    /// Reopens the completed task `id` at `now`.
    pub fn reopen(&mut self, id: u128, now: i64) -> (r: Result<(), String>)
        requires
            old(self).wf(),
        ensures
            final(self).wf(),
            exists|c: i64, d: Seq<char>|
                #![trigger reopen_spec(old(self)@, final(self)@, r, id, now, c, d)]
                reopen_spec(old(self)@, final(self)@, r, id, now, c, d),
    {
        let clock = now_ms();
        let today = local_today();
        self.reopen_at(id, now, clock, today.as_str())
    }

    /// Starts focus on the task `id` at `now`.
    pub fn start_focus(&mut self, id: u128, now: i64) -> (r: Result<(), String>)
        requires
            old(self).wf(),
        ensures
            final(self).wf(),
            exists|c: i64, d: Seq<char>|
                #![trigger start_focus_spec(old(self)@, final(self)@, r, id, now, c, d)]
                start_focus_spec(old(self)@, final(self)@, r, id, now, c, d),
    {
        let clock = now_ms();
        let today = local_today();
        self.start_focus_at(id, now, clock, today.as_str())
    }

    /// Pauses the task's focus clock at `now` and points the attention at it.
    pub fn pause_focus(&mut self, id: u128, now: i64) -> (r: Result<(), String>)
        requires
            old(self).wf(),
        ensures
            final(self).wf(),
            !has_id(old(self)@.tasks, id) ==> super::edits::not_found(r) && final(self)@ == old(self)@,
            has_id(old(self)@.tasks, id) ==> r is Ok && exists|d: Seq<char>|
                #![trigger expire_all(old(self)@.tasks.update(super::id_index(old(self)@.tasks, id), paused(at_id(old(self)@.tasks, id), now)), d)]
                final(self)@ == (StoreView {
                    focus_attention_task_id: Some(id),
                    ..super::edits::put(old(self)@, id, paused(at_id(old(self)@.tasks, id), now), d)
                }),
    {
        let today = local_today();
        self.pause_focus_at(id, now, today.as_str())
    }

    /// Ends the focus session of the task at `now`.
    pub fn stop_focus(&mut self, id: u128, now: i64) -> (r: Result<(), String>)
        requires
            old(self).wf(),
        ensures
            final(self).wf(),
            !has_id(old(self)@.tasks, id) ==> super::edits::not_found(r) && final(self)@ == old(self)@,
            has_id(old(self)@.tasks, id) ==> r is Ok && exists|d: Seq<char>|
                #![trigger expire_all(old(self)@.tasks.update(super::id_index(old(self)@.tasks, id), focus_reset(at_id(old(self)@.tasks, id), now)), d)]
                final(self)@ == drop_attention(
                    super::edits::put(old(self)@, id, focus_reset(at_id(old(self)@.tasks, id), now), d),
                    id,
                ),
    {
        let today = local_today();
        self.stop_focus_at(id, now, today.as_str())
    }

    /// Closes the focus task at `now`: the session ends and it is no longer current.
    pub fn close_focus(&mut self, id: u128, now: i64) -> (r: Result<(), String>)
        requires
            old(self).wf(),
        ensures
            final(self).wf(),
            !has_id(old(self)@.tasks, id) ==> super::edits::not_found(r) && final(self)@ == old(self)@,
            has_id(old(self)@.tasks, id) ==> r is Ok && exists|d: Seq<char>|
                #![trigger expire_all(old(self)@.tasks.update(super::id_index(old(self)@.tasks, id), closed_focus(at_id(old(self)@.tasks, id), now)), d)]
                final(self)@ == drop_attention(
                    super::edits::put(
                        old(self)@,
                        id,
                        closed_focus(at_id(old(self)@.tasks, id), now),
                        d,
                    ),
                    id,
                ),
    {
        let today = local_today();
        self.close_focus_at(id, now, today.as_str())
    }

    /// Postpones the task `id` at `now`.
    pub fn postpone(&mut self, id: u128, option: TaskPostponeOption, now: i64) -> (r: Result<(), String>)
        requires
            old(self).wf(),
            in_range(now as int),
            in_range(now + postpone_step(option)),
            max_today(old(self)@.tasks) < i32::MAX,
            has_id(old(self)@.tasks, id) ==> at_id(old(self)@.tasks, id).postpone_count() < i32::MAX,
        ensures
            final(self).wf(),
            exists|d: Seq<char>|
                #![trigger edited(old(self)@, final(self)@, r, id, postponed(at_id(old(self)@.tasks, id), option, now, max_today(old(self)@.tasks) + 1, d), d)]
                edited(old(self)@, final(self)@, r, id, postponed(at_id(old(self)@.tasks, id), option, now, max_today(old(self)@.tasks) + 1, d), d),
    {
        let today = local_today();
        self.postpone_at(id, option, now, today.as_str())
    }

    /// Adds a task from quick-add text read now in the machine's time zone; a blank
    /// title adds nothing. Where the date the text names falls outside chrono's
    /// range at the clock and offset read, nothing is added and the error says so;
    /// a text that reads at every clock and offset is always added.
    pub fn add_task(&mut self, raw_title: &str, notes: &str, priority: TaskPriority) -> (r: Result<
        Option<TaskItem>,
        String,
    >)
        requires
            old(self).wf(),
            max_sort(old(self)@.tasks) < i32::MAX,
            max_today(old(self)@.tasks) < i32::MAX,
        ensures
            final(self).wf(),
            exists|c: i64, o: i32, d: Seq<char>, n: u128|
                #![trigger parse_spec(raw_title@, priority, c as int, o as int * 1000), quick_task(parse_spec(raw_title@, priority, c as int, o as int * 1000), n, notes@, c, old(self)@.tasks, d)]
                {
                    let p = parse_spec(raw_title@, priority, c as int, o as int * 1000);
                    &&& in_range(c as int)
                    &&& -86_400 < o < 86_400
                    &&& if !parse_ok(raw_title@, c as int, o as int * 1000) {
                        (r matches Err(e) && e@ == "the date in the text is out of range"@)
                            && final(self)@ == old(self)@
                    } else if trim(p.title).len() == 0 {
                        (r matches Ok(None) && final(self)@ == old(self)@)
                    } else {
                        let x = quick_task(p, n, notes@, c, old(self)@.tasks, d);
                        &&& (r matches Ok(Some(item)) && item@ == x)
                        &&& final(self)@ == inserted(old(self)@, x, c, d)
                    }
                },
            (forall|c: int, o: int| #![trigger parse_ok(raw_title@, c, o)] parse_ok(raw_title@, c, o)) ==> r is Ok,
    {
        let clock = now_ms();
        let offset = local_offset_secs(clock);
        let today = local_today();
        let id = new_id();
        proof {
            let p = parse_spec(raw_title@, priority, clock as int, offset as int * 1000);
            let _ = quick_task(p, id, notes@, clock, old(self)@.tasks, today@);
        }
        if crate::parser::try_parse_with_offset(raw_title, priority, clock, offset).is_none() {
            let e = String::from_str("the date in the text is out of range");
            proof {
                reveal_strlit("the date in the text is out of range");
            }
            return Err(e);
        }
        self.add_task_at(raw_title, notes, priority, clock, offset, today.as_str(), id)
    }

    /// Adds a task from full metadata (see `add_task_from_metadata_at`); the update
    /// stamp is the clock, as storing the tags and subtasks sets it.
    pub fn add_task_from_metadata(
        &mut self,
        title: &str,
        notes: &str,
        is_completed: bool,
        is_current: bool,
        created_at: i64,
        updated_at: i64,
        completed_at: Option<i64>,
        priority: TaskPriority,
        due_at: Option<i64>,
        reminder_at: Option<i64>,
        repeat_rule: Option<TaskRepeatRule>,
        tags: Vec<String>,
        project_name: Option<String>,
        estimated_minutes: Option<i32>,
        today_sort_index: Option<i32>,
        subtasks: Vec<TaskSubtask>,
    ) -> (r: Result<Option<TaskItem>, String>)
        requires
            old(self).wf(),
            max_sort(old(self)@.tasks) < i32::MAX,
        ensures
            final(self).wf(),
            trim(title@).len() == 0 ==> (r matches Ok(None) && final(self)@ == old(self)@),
            trim(title@).len() > 0 ==> exists|c: i64, d: Seq<char>, n: u128|
                #![trigger metadata_task(n, title@, notes@, is_completed, is_current, created_at, c, completed_at, old(self)@.tasks, priority, due_at, reminder_at, repeat_rule, texts(tags@), opt_text(project_name), estimated_minutes, today_sort_index, subtask_views(subtasks@), d)]
                {
                    let x = metadata_task(
                        n,
                        title@,
                        notes@,
                        is_completed,
                        is_current,
                        created_at,
                        c,
                        completed_at,
                        old(self)@.tasks,
                        priority,
                        due_at,
                        reminder_at,
                        repeat_rule,
                        texts(tags@),
                        opt_text(project_name),
                        estimated_minutes,
                        today_sort_index,
                        subtask_views(subtasks@),
                        d,
                    );
                    &&& (r matches Ok(Some(item)) && item@ == x)
                    &&& final(self)@ == normalized(inserted(old(self)@, x, c, d), c, d)
                },
    {
        let clock = now_ms();
        let today = local_today();
        let id = new_id();
        self.add_task_from_metadata_at(
            title,
            notes,
            is_completed,
            is_current,
            created_at,
            completed_at,
            priority,
            due_at,
            reminder_at,
            repeat_rule,
            tags,
            project_name,
            estimated_minutes,
            today_sort_index,
            subtasks,
            clock,
            today.as_str(),
            id,
        )
    }
}

} // verus!
