//! Tasks, subtasks, priorities, repeat rules and the archive form of a task.

use crate::clock::{in_range, now_ms};
use crate::clock::local_today;
use crate::text::{
    chars_of, chars_of_all, clean_parts, clean_parts_vec, join, join_with, lower_text, split_fields,
    split_on, string_of, strings_of, texts, to_lower, trim, trim_vec,
};
use vstd::prelude::*;

verus! {

#[derive(Clone, Copy, Debug, PartialEq, Eq, Structural, Hash)]
pub enum TaskPriority {
    High,
    Medium,
    Low,
}

impl TaskPriority {
    /// The stored number of a priority: High 0, Medium 1, Low 2.
    pub open spec fn raw(self) -> i32 {
        match self {
            TaskPriority::High => 0,
            TaskPriority::Medium => 1,
            TaskPriority::Low => 2,
        }
    }

    pub open spec fn spec_from_raw(value: Option<i32>) -> TaskPriority {
        match value {
            Some(0) => TaskPriority::High,
            Some(2) => TaskPriority::Low,
            _ => TaskPriority::Medium,
        }
    }

    /// The stored number of this priority.
    pub fn as_raw(&self) -> (r: i32)
        ensures
            r == self.raw(),
    {
        match self {
            TaskPriority::High => 0,
            TaskPriority::Medium => 1,
            TaskPriority::Low => 2,
        }
    }

    /// Reads a stored number; anything but 0 (High) and 2 (Low), or no number, is Medium.
    pub fn from_raw(value: Option<i32>) -> (r: Self)
        ensures
            r == Self::spec_from_raw(value),
    {
        match value {
            Some(0) => TaskPriority::High,
            Some(2) => TaskPriority::Low,
            _ => TaskPriority::Medium,
        }
    }

    pub fn short_title(&self) -> (r: &'static str)
        ensures
            r@ == (match self {
                TaskPriority::High => "高"@,
                TaskPriority::Medium => "中"@,
                TaskPriority::Low => "低"@,
            }),
    {
        match self {
            TaskPriority::High => "高",
            TaskPriority::Medium => "中",
            TaskPriority::Low => "低",
        }
    }

    pub fn title(&self) -> (r: &'static str)
        ensures
            r@ == (match self {
                TaskPriority::High => "高优先级"@,
                TaskPriority::Medium => "中优先级"@,
                TaskPriority::Low => "低优先级"@,
            }),
    {
        match self {
            TaskPriority::High => "高优先级",
            TaskPriority::Medium => "中优先级",
            TaskPriority::Low => "低优先级",
        }
    }
}

#[derive(Clone, Copy, Debug, PartialEq, Eq, Structural)]
pub enum TaskRepeatRule {
    Daily,
    Weekly,
    Monthly,
    Yearly,
}

/// The rule that a trimmed, lower-cased text names.
pub open spec fn rule_of_lowered(s: Seq<char>) -> Option<TaskRepeatRule> {
    if s == "daily"@ || s == "每天"@ || s == "每日"@ {
        Some(TaskRepeatRule::Daily)
    } else if s == "weekly"@ || s == "每周"@ || s == "每星期"@ {
        Some(TaskRepeatRule::Weekly)
    } else if s == "monthly"@ || s == "每月"@ {
        Some(TaskRepeatRule::Monthly)
    } else if s == "yearly"@ || s == "每年"@ {
        Some(TaskRepeatRule::Yearly)
    } else {
        None
    }
}

/// `TaskRepeatRule::from_str`: trim, lower-case, then look the word up.
pub open spec fn rule_of_text(s: Seq<char>) -> Option<TaskRepeatRule> {
    rule_of_lowered(lower_text(trim(s)))
}

fn text_is(a: &String, b: &str) -> (r: bool)
    ensures
        r == (a@ == b@),
{
    let b2 = String::from_str(b);
    *a == b2
}

impl TaskRepeatRule {
    pub open spec fn spec_as_str(self) -> Seq<char> {
        match self {
            TaskRepeatRule::Daily => "daily"@,
            TaskRepeatRule::Weekly => "weekly"@,
            TaskRepeatRule::Monthly => "monthly"@,
            TaskRepeatRule::Yearly => "yearly"@,
        }
    }

    pub fn as_str(&self) -> (r: &'static str)
        ensures
            r@ == self.spec_as_str(),
    {
        match self {
            TaskRepeatRule::Daily => "daily",
            TaskRepeatRule::Weekly => "weekly",
            TaskRepeatRule::Monthly => "monthly",
            TaskRepeatRule::Yearly => "yearly",
        }
    }

    /// Looks up a text that is already trimmed and lower-cased.
    pub fn from_lowered(value: &String) -> (r: Option<Self>)
        ensures
            r == rule_of_lowered(value@),
    {
        if text_is(value, "daily") || text_is(value, "每天") || text_is(value, "每日") {
            Some(TaskRepeatRule::Daily)
        } else if text_is(value, "weekly") || text_is(value, "每周") || text_is(value, "每星期") {
            Some(TaskRepeatRule::Weekly)
        } else if text_is(value, "monthly") || text_is(value, "每月") {
            Some(TaskRepeatRule::Monthly)
        } else if text_is(value, "yearly") || text_is(value, "每年") {
            Some(TaskRepeatRule::Yearly)
        } else {
            None
        }
    }

    pub fn from_str(value: &str) -> (r: Option<Self>)
        ensures
            r == rule_of_text(value@),
    {
        let chars = chars_of(value);
        let trimmed = string_of(trim_vec(chars.as_slice()).as_slice());
        let lowered = to_lower(trimmed.as_str());
        Self::from_lowered(&lowered)
    }

    pub fn title(&self) -> (r: &'static str)
        ensures
            r@ == (match self {
                TaskRepeatRule::Daily => "每天"@,
                TaskRepeatRule::Weekly => "每周"@,
                TaskRepeatRule::Monthly => "每月"@,
                TaskRepeatRule::Yearly => "每年"@,
            }),
    {
        match self {
            TaskRepeatRule::Daily => "每天",
            TaskRepeatRule::Weekly => "每周",
            TaskRepeatRule::Monthly => "每月",
            TaskRepeatRule::Yearly => "每年",
        }
    }
}

/// How many open tasks there are of each priority.
#[derive(Clone, Copy, Debug, PartialEq, Eq, Structural)]
pub struct TaskCounts {
    pub high: u32,
    pub medium: u32,
    pub low: u32,
    pub total: u32,
}

#[derive(Clone, Copy, Debug, PartialEq, Eq, Structural)]
pub enum TaskPostponeOption {
    FifteenMinutes,
    LaterToday,
    Tomorrow,
    ThisWeek,
}

pub open spec fn opt_text(o: Option<String>) -> Option<Seq<char>> {
    match o {
        Some(s) => Some(s@),
        None => None,
    }
}

pub fn clone_opt_string(o: &Option<String>) -> (r: Option<String>)
    ensures
        opt_text(r) == opt_text(*o),
{
    match o {
        Some(s) => Some(s.clone()),
        None => None,
    }
}

pub struct TaskSubtask {
    pub id: u128,
    pub title: String,
    pub is_completed: bool,
    pub created_at: i64,
}

pub struct SubtaskView {
    pub id: u128,
    pub title: Seq<char>,
    pub is_completed: bool,
    pub created_at: i64,
}

impl View for TaskSubtask {
    type V = SubtaskView;

    open spec fn view(&self) -> SubtaskView {
        SubtaskView {
            id: self.id,
            title: self.title@,
            is_completed: self.is_completed,
            created_at: self.created_at,
        }
    }
}

pub open spec fn subtask_views(v: Seq<TaskSubtask>) -> Seq<SubtaskView> {
    v.map_values(|s: TaskSubtask| s@)
}

impl Clone for TaskSubtask {
    fn clone(&self) -> (r: Self)
        ensures
            r@ == self@,
    {
        TaskSubtask {
            id: self.id,
            title: self.title.clone(),
            is_completed: self.is_completed,
            created_at: self.created_at,
        }
    }
}

impl TaskSubtask {
    /// A new open subtask with a fresh identifier, created now.
    pub fn new(title: String) -> (r: Self)
        ensures
            r.title@ == title@,
            !r.is_completed,
            in_range(r.created_at as int),
    {
        TaskSubtask {
            id: crate::ids::new_id(),
            title,
            is_completed: false,
            created_at: now_ms(),
        }
    }
}

pub fn clone_subtasks(v: &Vec<TaskSubtask>) -> (r: Vec<TaskSubtask>)
    ensures
        subtask_views(r@) == subtask_views(v@),
{
    let mut r: Vec<TaskSubtask> = Vec::new();
    let mut i: usize = 0;
    while i < v.len()
        invariant
            i <= v@.len(),
            subtask_views(r@) == subtask_views(v@).take(i as int),
        decreases v.len() - i,
    {
        let s = v[i].clone();
        let ghost before = r@;
        r.push(s);
        i = i + 1;
        proof {
            assert(subtask_views(r@) =~= subtask_views(before).push(s@));
            assert(subtask_views(v@).take(i as int) =~= subtask_views(v@).take(i - 1).push(
                v@[i - 1]@,
            ));
        }
    }
    proof {
        assert(subtask_views(v@).take(v@.len() as int) =~= subtask_views(v@));
    }
    r
}

} // verus!

verus! {

pub struct TaskItem {
    pub id: u128,
    pub title: String,
    pub notes: String,
    pub is_completed: bool,
    pub is_current: bool,
    pub created_at: i64,
    pub updated_at: i64,
    pub completed_at: Option<i64>,
    pub sort_index: i32,
    pub priority_raw_value: Option<i32>,
    pub due_at: Option<i64>,
    pub reminder_at: Option<i64>,
    pub repeat_rule_raw_value: Option<String>,
    pub tags_raw_value: Option<String>,
    pub project_name: Option<String>,
    pub estimated_minutes: Option<i32>,
    pub today_sort_index: Option<i32>,
    pub today_added_date: Option<String>,
    pub subtasks: Vec<TaskSubtask>,
    pub focus_started_at: Option<i64>,
    pub focus_accumulated_seconds: Option<i64>,
    pub postponed_at: Option<i64>,
    pub postpone_count_raw_value: Option<i32>,
}

/// A task as plain values: texts as character sequences.
#[verifier::ext_equal]
pub struct TaskView {
    pub id: u128,
    pub title: Seq<char>,
    pub notes: Seq<char>,
    pub is_completed: bool,
    pub is_current: bool,
    pub created_at: i64,
    pub updated_at: i64,
    pub completed_at: Option<i64>,
    pub sort_index: i32,
    pub priority_raw_value: Option<i32>,
    pub due_at: Option<i64>,
    pub reminder_at: Option<i64>,
    pub repeat_rule_raw_value: Option<Seq<char>>,
    pub tags_raw_value: Option<Seq<char>>,
    pub project_name: Option<Seq<char>>,
    pub estimated_minutes: Option<i32>,
    pub today_sort_index: Option<i32>,
    pub today_added_date: Option<Seq<char>>,
    pub subtasks: Seq<SubtaskView>,
    pub focus_started_at: Option<i64>,
    pub focus_accumulated_seconds: Option<i64>,
    pub postponed_at: Option<i64>,
    pub postpone_count_raw_value: Option<i32>,
}

impl View for TaskItem {
    type V = TaskView;

    open spec fn view(&self) -> TaskView {
        TaskView {
            id: self.id,
            title: self.title@,
            notes: self.notes@,
            is_completed: self.is_completed,
            is_current: self.is_current,
            created_at: self.created_at,
            updated_at: self.updated_at,
            completed_at: self.completed_at,
            sort_index: self.sort_index,
            priority_raw_value: self.priority_raw_value,
            due_at: self.due_at,
            reminder_at: self.reminder_at,
            repeat_rule_raw_value: opt_text(self.repeat_rule_raw_value),
            tags_raw_value: opt_text(self.tags_raw_value),
            project_name: opt_text(self.project_name),
            estimated_minutes: self.estimated_minutes,
            today_sort_index: self.today_sort_index,
            today_added_date: opt_text(self.today_added_date),
            subtasks: subtask_views(self.subtasks@),
            focus_started_at: self.focus_started_at,
            focus_accumulated_seconds: self.focus_accumulated_seconds,
            postponed_at: self.postponed_at,
            postpone_count_raw_value: self.postpone_count_raw_value,
        }
    }
}

pub open spec fn task_views(v: Seq<TaskItem>) -> Seq<TaskView> {
    v.map_values(|t: TaskItem| t@)
}

pub open spec fn text_or_empty(o: Option<Seq<char>>) -> Seq<char> {
    match o {
        Some(s) => s,
        None => seq![],
    }
}

/// `TaskItem::tags`: comma separated, each trimmed, empty ones dropped.
pub open spec fn tags_of(raw: Option<Seq<char>>) -> Seq<Seq<char>> {
    clean_parts(split_fields(text_or_empty(raw), ','))
}

/// The stored form of a tag list: trimmed non-empty tags joined by commas, none if empty.
pub open spec fn tags_raw_of(tags: Seq<Seq<char>>) -> Option<Seq<char>> {
    let joined = join(clean_parts(tags), seq![',']);
    if joined.len() == 0 {
        None
    } else {
        Some(joined)
    }
}

/// The subtasks that `set_subtasks` keeps: those whose trimmed title is not empty.
pub open spec fn kept_subtasks(v: Seq<SubtaskView>) -> Seq<SubtaskView> {
    v.filter(|s: SubtaskView| trim(s.title).len() > 0)
}

pub open spec fn repeat_rule_of(raw: Option<Seq<char>>) -> Option<TaskRepeatRule> {
    match raw {
        Some(t) => rule_of_text(t),
        None => None,
    }
}

pub open spec fn rule_raw(rule: Option<TaskRepeatRule>) -> Option<Seq<char>> {
    match rule {
        Some(r) => Some(r.spec_as_str()),
        None => None,
    }
}

impl TaskView {
    pub open spec fn priority(self) -> TaskPriority {
        TaskPriority::spec_from_raw(self.priority_raw_value)
    }

    pub open spec fn tags(self) -> Seq<Seq<char>> {
        tags_of(self.tags_raw_value)
    }

    pub open spec fn repeat_rule(self) -> Option<TaskRepeatRule> {
        repeat_rule_of(self.repeat_rule_raw_value)
    }

    /// In today's queue on the local date `today`.
    pub open spec fn in_today_queue(self, today: Seq<char>) -> bool {
        self.today_sort_index is Some && self.today_added_date == Some(today)
    }

    pub open spec fn focus_seconds(self) -> int {
        match self.focus_accumulated_seconds {
            Some(v) => v as int,
            None => 0,
        }
    }

    pub open spec fn postpone_count(self) -> int {
        match self.postpone_count_raw_value {
            Some(v) => v as int,
            None => 0,
        }
    }

    pub open spec fn completed_subtasks(self) -> nat {
        self.subtasks.filter(|s: SubtaskView| s.is_completed).len()
    }
}

pub fn clone_vec_strings(v: &Vec<String>) -> (r: Vec<String>)
    ensures
        texts(r@) == texts(v@),
{
    let mut r: Vec<String> = Vec::new();
    let mut i: usize = 0;
    while i < v.len()
        invariant
            i <= v@.len(),
            texts(r@) == texts(v@).take(i as int),
        decreases v.len() - i,
    {
        let s = v[i].clone();
        let ghost before = r@;
        r.push(s);
        i = i + 1;
        proof {
            assert(texts(r@) =~= texts(before).push(s@));
            assert(texts(v@).take(i as int) =~= texts(v@).take(i - 1).push(v@[i - 1]@));
        }
    }
    proof {
        assert(texts(v@).take(v@.len() as int) =~= texts(v@));
    }
    r
}

impl Clone for TaskItem {
    fn clone(&self) -> (r: Self)
        ensures
            r@ == self@,
    {
        TaskItem {
            id: self.id,
            title: self.title.clone(),
            notes: self.notes.clone(),
            is_completed: self.is_completed,
            is_current: self.is_current,
            created_at: self.created_at,
            updated_at: self.updated_at,
            completed_at: self.completed_at,
            sort_index: self.sort_index,
            priority_raw_value: self.priority_raw_value,
            due_at: self.due_at,
            reminder_at: self.reminder_at,
            repeat_rule_raw_value: clone_opt_string(&self.repeat_rule_raw_value),
            tags_raw_value: clone_opt_string(&self.tags_raw_value),
            project_name: clone_opt_string(&self.project_name),
            estimated_minutes: self.estimated_minutes,
            today_sort_index: self.today_sort_index,
            today_added_date: clone_opt_string(&self.today_added_date),
            subtasks: clone_subtasks(&self.subtasks),
            focus_started_at: self.focus_started_at,
            focus_accumulated_seconds: self.focus_accumulated_seconds,
            postponed_at: self.postponed_at,
            postpone_count_raw_value: self.postpone_count_raw_value,
        }
    }
}

impl TaskItem {
    pub fn priority(&self) -> (r: TaskPriority)
        ensures
            r == self@.priority(),
    {
        TaskPriority::from_raw(self.priority_raw_value)
    }

    pub fn set_priority(&mut self, priority: TaskPriority)
        ensures
            final(self)@ == (TaskView {
                priority_raw_value: Some(priority.raw()),
                updated_at: final(self).updated_at,
                ..old(self)@
            }),
            in_range(final(self).updated_at as int),
    {
        self.priority_raw_value = Some(priority.as_raw());
        self.updated_at = now_ms();
    }

    pub fn repeat_rule(&self) -> (r: Option<TaskRepeatRule>)
        ensures
            r == self@.repeat_rule(),
    {
        match &self.repeat_rule_raw_value {
            Some(raw) => TaskRepeatRule::from_str(raw.as_str()),
            None => None,
        }
    }

    pub fn set_repeat_rule(&mut self, rule: Option<TaskRepeatRule>)
        ensures
            final(self)@ == (TaskView {
                repeat_rule_raw_value: rule_raw(rule),
                updated_at: final(self).updated_at,
                ..old(self)@
            }),
            in_range(final(self).updated_at as int),
    {
        self.repeat_rule_raw_value = match rule {
            Some(r) => Some(String::from_str(r.as_str())),
            None => None,
        };
        self.updated_at = now_ms();
    }

    pub fn tags(&self) -> (r: Vec<String>)
        ensures
            texts(r@) == self@.tags(),
    {
        let raw: Vec<char> = match &self.tags_raw_value {
            Some(s) => chars_of(s.as_str()),
            None => Vec::new(),
        };
        proof {
            assert(raw@ == text_or_empty(self@.tags_raw_value));
        }
        let parts = split_on(raw.as_slice(), ',');
        let cleaned = clean_parts_vec(&parts);
        strings_of(&cleaned)
    }

    pub fn set_tags(&mut self, tags: Vec<String>)
        ensures
            final(self)@ == (TaskView {
                tags_raw_value: tags_raw_of(texts(tags@)),
                updated_at: final(self).updated_at,
                ..old(self)@
            }),
            in_range(final(self).updated_at as int),
    {
        let parts = chars_of_all(&tags);
        let cleaned = clean_parts_vec(&parts);
        let joined = join_with(&cleaned, ',');
        self.tags_raw_value = if joined.len() == 0 {
            None
        } else {
            Some(string_of(joined.as_slice()))
        };
        self.updated_at = now_ms();
    }

    pub fn subtasks(&self) -> (r: Vec<TaskSubtask>)
        ensures
            subtask_views(r@) == self@.subtasks,
    {
        clone_subtasks(&self.subtasks)
    }

    pub fn set_subtasks(&mut self, subtasks: Vec<TaskSubtask>)
        ensures
            final(self)@ == (TaskView {
                subtasks: kept_subtasks(subtask_views(subtasks@)),
                updated_at: final(self).updated_at,
                ..old(self)@
            }),
            in_range(final(self).updated_at as int),
    {
        let ghost src = subtask_views(subtasks@);
        let ghost q = |s: SubtaskView| trim(s.title).len() > 0;
        let mut kept: Vec<TaskSubtask> = Vec::new();
        let mut rest = subtasks;
        let mut i: usize = 0;
        let n = rest.len();
        while i < n
            invariant
                n == rest@.len(),
                i <= n,
                src == subtask_views(rest@),
                q == (|s: SubtaskView| trim(s.title).len() > 0),
                subtask_views(kept@) == src.take(i as int).filter(q),
            decreases n - i,
        {
            let s = rest[i].clone();
            let title = chars_of(s.title.as_str());
            let t = trim_vec(title.as_slice());
            proof {
                assert(src.take(i + 1) =~= src.take(i as int).push(s@));
                src.take(i as int).lemma_filter_push(s@, q);
            }
            if t.len() > 0 {
                let ghost before = kept@;
                kept.push(s);
                proof {
                    assert(subtask_views(kept@) =~= subtask_views(before).push(s@));
                }
            }
            i = i + 1;
        }
        proof {
            assert(src.take(n as int) =~= src);
        }
        self.subtasks = kept;
        self.updated_at = now_ms();
    }

    /// In today's queue on the local date `today`.
    pub fn is_in_today_queue_on(&self, today: &str) -> (r: bool)
        ensures
            r == self@.in_today_queue(today@),
    {
        if self.today_sort_index.is_none() {
            return false;
        }
        match &self.today_added_date {
            Some(date) => {
                let t = String::from_str(today);
                *date == t
            },
            None => false,
        }
    }

    /// In today's queue on the machine's current local date.
    pub fn is_in_today_queue(&self) -> (r: bool)
        ensures
            exists|today: Seq<char>| r == self@.in_today_queue(today),
    {
        let today = local_today();
        self.is_in_today_queue_on(today.as_str())
    }

    pub fn focus_seconds(&self) -> (r: i64)
        ensures
            r == self@.focus_seconds(),
    {
        match self.focus_accumulated_seconds {
            Some(v) => v,
            None => 0,
        }
    }

    /// Stores the focus time, never below zero.
    pub fn set_focus_seconds(&mut self, value: i64)
        ensures
            final(self)@ == (TaskView {
                focus_accumulated_seconds: Some(if value < 0 { 0 } else { value }),
                updated_at: final(self).updated_at,
                ..old(self)@
            }),
            in_range(final(self).updated_at as int),
    {
        self.focus_accumulated_seconds = Some(if value < 0 { 0 } else { value });
        self.updated_at = now_ms();
    }

    pub fn postpone_count(&self) -> (r: i32)
        ensures
            r == self@.postpone_count(),
    {
        match self.postpone_count_raw_value {
            Some(v) => v,
            None => 0,
        }
    }

    /// Stores the postpone count, never below zero.
    pub fn set_postpone_count(&mut self, value: i32)
        ensures
            final(self)@ == (TaskView {
                postpone_count_raw_value: Some(if value < 0 { 0 } else { value }),
                updated_at: final(self).updated_at,
                ..old(self)@
            }),
            in_range(final(self).updated_at as int),
    {
        self.postpone_count_raw_value = Some(if value < 0 { 0 } else { value });
        self.updated_at = now_ms();
    }

    pub fn completed_subtask_count(&self) -> (r: usize)
        ensures
            r == self@.completed_subtasks(),
    {
        let ghost src = self@.subtasks;
        let ghost q = |s: SubtaskView| s.is_completed;
        let mut count: usize = 0;
        let mut i: usize = 0;
        while i < self.subtasks.len()
            invariant
                i <= self.subtasks@.len(),
                src == self@.subtasks,
                q == (|s: SubtaskView| s.is_completed),
                count == src.take(i as int).filter(q).len(),
                count <= i,
            decreases self.subtasks.len() - i,
        {
            proof {
                assert(src.take(i + 1) =~= src.take(i as int).push(self.subtasks@[i as int]@));
                src.take(i as int).lemma_filter_push(self.subtasks@[i as int]@, q);
            }
            if self.subtasks[i].is_completed {
                count = count + 1;
            }
            i = i + 1;
        }
        proof {
            assert(src.take(self.subtasks@.len() as int) =~= src);
        }
        count
    }
}

} // verus!

verus! {

/// A task as an archive file holds it: tags and subtasks as lists, counters as numbers.
pub struct TaskArchiveItem {
    pub id: u128,
    pub title: String,
    pub notes: String,
    pub is_completed: bool,
    pub is_current: bool,
    pub created_at: i64,
    pub updated_at: i64,
    pub completed_at: Option<i64>,
    pub sort_index: i32,
    pub priority_raw_value: Option<i32>,
    pub due_at: Option<i64>,
    pub reminder_at: Option<i64>,
    pub repeat_rule_raw_value: Option<String>,
    pub tags: Vec<String>,
    pub project_name: Option<String>,
    pub estimated_minutes: Option<i32>,
    pub today_sort_index: Option<i32>,
    pub subtasks: Vec<TaskSubtask>,
    pub focus_started_at: Option<i64>,
    pub focus_accumulated_seconds: i64,
    pub postponed_at: Option<i64>,
    pub postpone_count: i32,
}

#[verifier::ext_equal]
pub struct ArchiveView {
    pub id: u128,
    pub title: Seq<char>,
    pub notes: Seq<char>,
    pub is_completed: bool,
    pub is_current: bool,
    pub created_at: i64,
    pub updated_at: i64,
    pub completed_at: Option<i64>,
    pub sort_index: i32,
    pub priority_raw_value: Option<i32>,
    pub due_at: Option<i64>,
    pub reminder_at: Option<i64>,
    pub repeat_rule_raw_value: Option<Seq<char>>,
    pub tags: Seq<Seq<char>>,
    pub project_name: Option<Seq<char>>,
    pub estimated_minutes: Option<i32>,
    pub today_sort_index: Option<i32>,
    pub subtasks: Seq<SubtaskView>,
    pub focus_started_at: Option<i64>,
    pub focus_accumulated_seconds: i64,
    pub postponed_at: Option<i64>,
    pub postpone_count: i32,
}

impl View for TaskArchiveItem {
    type V = ArchiveView;

    open spec fn view(&self) -> ArchiveView {
        ArchiveView {
            id: self.id,
            title: self.title@,
            notes: self.notes@,
            is_completed: self.is_completed,
            is_current: self.is_current,
            created_at: self.created_at,
            updated_at: self.updated_at,
            completed_at: self.completed_at,
            sort_index: self.sort_index,
            priority_raw_value: self.priority_raw_value,
            due_at: self.due_at,
            reminder_at: self.reminder_at,
            repeat_rule_raw_value: opt_text(self.repeat_rule_raw_value),
            tags: texts(self.tags@),
            project_name: opt_text(self.project_name),
            estimated_minutes: self.estimated_minutes,
            today_sort_index: self.today_sort_index,
            subtasks: subtask_views(self.subtasks@),
            focus_started_at: self.focus_started_at,
            focus_accumulated_seconds: self.focus_accumulated_seconds,
            postponed_at: self.postponed_at,
            postpone_count: self.postpone_count,
        }
    }
}

pub open spec fn archive_views(v: Seq<TaskArchiveItem>) -> Seq<ArchiveView> {
    v.map_values(|x: TaskArchiveItem| x@)
}

/// The archive form of a task.
pub open spec fn archive_of(t: TaskView) -> ArchiveView {
    ArchiveView {
        id: t.id,
        title: t.title,
        notes: t.notes,
        is_completed: t.is_completed,
        is_current: t.is_current,
        created_at: t.created_at,
        updated_at: t.updated_at,
        completed_at: t.completed_at,
        sort_index: t.sort_index,
        priority_raw_value: t.priority_raw_value,
        due_at: t.due_at,
        reminder_at: t.reminder_at,
        repeat_rule_raw_value: t.repeat_rule_raw_value,
        tags: t.tags(),
        project_name: t.project_name,
        estimated_minutes: t.estimated_minutes,
        today_sort_index: t.today_sort_index,
        subtasks: t.subtasks,
        focus_started_at: t.focus_started_at,
        focus_accumulated_seconds: t.focus_seconds() as i64,
        postponed_at: t.postponed_at,
        postpone_count: t.postpone_count() as i32,
    }
}

impl TaskArchiveItem {
    /// The archive form of a task.
    pub fn from_task(task: &TaskItem) -> (r: Self)
        ensures
            r@ == archive_of(task@),
    {
        TaskArchiveItem {
            id: task.id,
            title: task.title.clone(),
            notes: task.notes.clone(),
            is_completed: task.is_completed,
            is_current: task.is_current,
            created_at: task.created_at,
            updated_at: task.updated_at,
            completed_at: task.completed_at,
            sort_index: task.sort_index,
            priority_raw_value: task.priority_raw_value,
            due_at: task.due_at,
            reminder_at: task.reminder_at,
            repeat_rule_raw_value: clone_opt_string(&task.repeat_rule_raw_value),
            tags: task.tags(),
            project_name: clone_opt_string(&task.project_name),
            estimated_minutes: task.estimated_minutes,
            today_sort_index: task.today_sort_index,
            subtasks: task.subtasks(),
            focus_started_at: task.focus_started_at,
            focus_accumulated_seconds: task.focus_seconds(),
            postponed_at: task.postponed_at,
            postpone_count: task.postpone_count(),
        }
    }
}

/// A whole export: format version, export instant, every task.
pub struct TaskArchive {
    pub version: i32,
    pub exported_at: i64,
    pub tasks: Vec<TaskArchiveItem>,
}

} // verus!
