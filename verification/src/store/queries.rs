//! Reading the task list: selections, orders, counts and titles.

use super::order::{
    isort, lemma_isort_len, lemma_select_ctx_free, select, select_tasks, sort_tasks, FilterCtx,
    OrderCtx, TaskFilter, TaskOrder,
};
use super::{StoreView, TaskStore};
use crate::clock::{fields_of, in_range, instant_of, utc_fields, utc_instant};
use crate::models::{task_views, TaskCounts, TaskItem, TaskPriority, TaskView};
use crate::text::{lower_text, trim};
use vstd::prelude::*;

verus! {

/// Open tasks, in list order.
pub open spec fn incomplete(s: Seq<TaskView>) -> Seq<TaskView> {
    select(TaskFilter::Incomplete, seq![], seq![], 0, 0, s)
}

/// Completed tasks, in list order.
pub open spec fn completed(s: Seq<TaskView>) -> Seq<TaskView> {
    select(TaskFilter::Completed, seq![], seq![], 0, 0, s)
}

pub open spec fn first(s: Seq<TaskView>) -> Option<TaskView> {
    if s.len() > 0 {
        Some(s[0])
    } else {
        None
    }
}

pub open spec fn opt_view(o: Option<TaskItem>) -> Option<TaskView> {
    match o {
        Some(t) => Some(t@),
        None => None,
    }
}

/// The first open task marked current.
pub open spec fn current_of(s: Seq<TaskView>) -> Option<TaskView> {
    first(select(TaskFilter::Current, seq![], seq![], 0, 0, incomplete(s)))
}

/// The first open task whose focus clock runs.
pub open spec fn active_focus_of(s: Seq<TaskView>) -> Option<TaskView> {
    first(select(TaskFilter::Focusing, seq![], seq![], 0, 0, incomplete(s)))
}

/// The open task with identifier `id`.
pub open spec fn open_with_id(s: Seq<TaskView>, id: u128) -> Option<TaskView> {
    first(select(TaskFilter::WithId, seq![], seq![], 0, id, incomplete(s)))
}

pub open spec fn count_priority(s: Seq<TaskView>, p: TaskPriority) -> nat
    decreases s.len(),
{
    if s.len() == 0 {
        0
    } else {
        count_priority(s.drop_last(), p) + (if s.last().priority() == p {
            1nat
        } else {
            0
        })
    }
}

pub open spec fn counts_of(s: Seq<TaskView>) -> (nat, nat, nat) {
    (
        count_priority(s, TaskPriority::High),
        count_priority(s, TaskPriority::Medium),
        count_priority(s, TaskPriority::Low),
    )
}

/// The priorities that occur, High, Medium, Low in that order, with their counts.
pub open spec fn priority_entries(s: Seq<TaskView>) -> Seq<(TaskPriority, usize)> {
    let (h, m, l) = counts_of(s);
    let a: Seq<(TaskPriority, usize)> = if h > 0 {
        seq![(TaskPriority::High, h as usize)]
    } else {
        seq![]
    };
    let b = if m > 0 {
        a.push((TaskPriority::Medium, m as usize))
    } else {
        a
    };
    if l > 0 {
        b.push((TaskPriority::Low, l as usize))
    } else {
        b
    }
}

/// The first `n` items, or all of them.
pub open spec fn take_at_most(s: Seq<TaskView>, n: int) -> Seq<TaskView> {
    if n < s.len() {
        s.take(n)
    } else {
        s
    }
}

/// The end of the UTC day that holds `now`: one second after 23:59:59 of its date,
/// as `chrono` builds that time (or one second after `now` where it cannot).
pub open spec fn end_of_utc_day(now: int) -> int {
    let f = utc_fields(now);
    (match utc_instant(f.0, f.1, f.2, 23, 59, 59) {
        Some(v) => v,
        None => now,
    }) + 1000
}

/// Tasks in today's queue on `today`, in today's order.
pub open spec fn today_list(s: Seq<TaskView>, today: Seq<char>) -> Seq<TaskView> {
    isort(TaskOrder::Today, today, 0, 0, select(TaskFilter::TodayQueue, today, seq![], 0, 0, s))
}

/// The source of the focus counts: today's queue, or every open task when it is empty.
pub open spec fn focus_source(s: Seq<TaskView>, today: Seq<char>) -> Seq<TaskView> {
    if today_list(s, today).len() == 0 {
        incomplete(s)
    } else {
        today_list(s, today)
    }
}

pub open spec fn counts_match(r: TaskCounts, s: Seq<TaskView>) -> bool {
    &&& r.high == count_priority(s, TaskPriority::High)
    &&& r.medium == count_priority(s, TaskPriority::Medium)
    &&& r.low == count_priority(s, TaskPriority::Low)
    &&& r.total == r.high + r.medium + r.low
    &&& r.total == s.len()
}

pub open spec fn by_priority(s: Seq<TaskView>, today: Seq<char>) -> Seq<TaskView> {
    isort(TaskOrder::Priority, today, 0, 0, s)
}

/// What `tasks_matching` gives for `query` on the local date `today`.
pub open spec fn matching_spec(s: Seq<TaskView>, query: Seq<char>, today: Seq<char>) -> Seq<TaskView> {
    if trim(query).len() == 0 {
        incomplete(s)
    } else {
        by_priority(
            select(TaskFilter::Matching, seq![], lower_text(trim(query)), 0, 0, incomplete(s)),
            today,
        )
    }
}

/// The island's height for `n` open tasks: one to three rows, never below 92.
pub open spec fn island_height(n: int) -> int {
    let rows = if n < 1 {
        1
    } else if n > 3 {
        3
    } else {
        n
    };
    if rows * 35 + 17 > 92 {
        rows * 35 + 17
    } else {
        92
    }
}

fn blank_ctx() -> (c: FilterCtx)
    ensures
        c.today@ == Seq::<char>::empty(),
        c.text@ == Seq::<char>::empty(),
        c.at == 0,
        c.id == 0,
{
    FilterCtx { today: String::new(), text: String::new(), at: 0, id: 0 }
}

fn order_ctx(today: &str, now: i64, end_of_today: i64) -> (c: OrderCtx)
    ensures
        c.today@ == today@,
        c.now == now,
        c.end_of_today == end_of_today,
{
    OrderCtx { today: String::from_str(today), now, end_of_today }
}

fn first_task(v: &Vec<TaskItem>) -> (r: Option<TaskItem>)
    ensures
        opt_view(r) == first(task_views(v@)),
{
    if v.len() > 0 {
        Some(v[0].clone())
    } else {
        None
    }
}

/// The first `n` tasks of `v`, or all of them.
pub fn take_tasks(v: Vec<TaskItem>, n: usize) -> (r: Vec<TaskItem>)
    ensures
        task_views(r@) == take_at_most(task_views(v@), n as int),
{
    let mut r = v;
    let ghost before = r@;
    r.truncate(n);
    proof {
        if (n as int) < before.len() {
            assert(task_views(r@) =~= task_views(before).take(n as int));
        }
    }
    r
}

/// The end of the UTC day that holds `now` (see `end_of_utc_day`).
pub fn end_of_today(now: i64) -> (r: i64)
    requires
        in_range(now as int),
    ensures
        r == end_of_utc_day(now as int),
{
    let f = fields_of(now);
    let base = match instant_of(f.0, f.1, f.2, 23, 59, 59) {
        Some(v) => v,
        None => now,
    };
    base + 1000
}

/// Counts the tasks of each priority: (high, medium, low).
pub fn tally(tasks: &Vec<TaskItem>) -> (r: (usize, usize, usize))
    ensures
        r.0 == count_priority(task_views(tasks@), TaskPriority::High),
        r.1 == count_priority(task_views(tasks@), TaskPriority::Medium),
        r.2 == count_priority(task_views(tasks@), TaskPriority::Low),
        r.0 + r.1 + r.2 == tasks@.len(),
{
    let mut h: usize = 0;
    let mut m: usize = 0;
    let mut l: usize = 0;
    let mut i: usize = 0;
    while i < tasks.len()
        invariant
            i <= tasks@.len(),
            h + m + l == i,
            h == count_priority(task_views(tasks@).take(i as int), TaskPriority::High),
            m == count_priority(task_views(tasks@).take(i as int), TaskPriority::Medium),
            l == count_priority(task_views(tasks@).take(i as int), TaskPriority::Low),
        decreases tasks.len() - i,
    {
        proof {
            let s = task_views(tasks@).take(i + 1);
            assert(s.drop_last() =~= task_views(tasks@).take(i as int));
            assert(s.last() == tasks@[i as int]@);
        }
        match tasks[i].priority() {
            TaskPriority::High => h = h + 1,
            TaskPriority::Medium => m = m + 1,
            TaskPriority::Low => l = l + 1,
        }
        i = i + 1;
    }
    proof {
        assert(task_views(tasks@).take(tasks@.len() as int) =~= task_views(tasks@));
    }
    (h, m, l)
}

/// Counts by priority; the total is the number of tasks.
pub fn counts_from_tasks(tasks: &Vec<TaskItem>) -> (r: TaskCounts)
    requires
        tasks@.len() <= u32::MAX,
    ensures
        counts_match(r, task_views(tasks@)),
{
    let (h, m, l) = tally(tasks);
    TaskCounts { high: h as u32, medium: m as u32, low: l as u32, total: (h + m + l) as u32 }
}

impl TaskStore {
    /// Open tasks, in list order.
    pub fn incomplete_tasks(&self) -> (r: Vec<TaskItem>)
        ensures
            task_views(r@) == incomplete(self@.tasks),
    {
        let c = blank_ctx();
        select_tasks(&self.tasks, TaskFilter::Incomplete, &c)
    }

    /// Completed tasks, in list order.
    pub fn completed_tasks(&self) -> (r: Vec<TaskItem>)
        ensures
            task_views(r@) == completed(self@.tasks),
    {
        let c = blank_ctx();
        select_tasks(&self.tasks, TaskFilter::Completed, &c)
    }

    /// Open tasks in priority order on the local date `today`.
    pub fn prioritized_incomplete_tasks_on(&self, today: &str) -> (r: Vec<TaskItem>)
        ensures
            task_views(r@) == by_priority(incomplete(self@.tasks), today@),
    {
        let c = order_ctx(today, 0, 0);
        sort_tasks(self.incomplete_tasks(), TaskOrder::Priority, &c)
    }

    /// Open tasks in priority order on the machine's local date.
    pub fn prioritized_incomplete_tasks(&self) -> (r: Vec<TaskItem>)
        ensures
            exists|today: Seq<char>|
                #![trigger by_priority(incomplete(self@.tasks), today)]
                task_views(r@) == by_priority(incomplete(self@.tasks), today),
    {
        let today = crate::clock::local_today();
        self.prioritized_incomplete_tasks_on(today.as_str())
    }

    /// Today's queue on the local date `today`, in today's order.
    pub fn today_tasks_on(&self, today: &str) -> (r: Vec<TaskItem>)
        ensures
            task_views(r@) == today_list(self@.tasks, today@),
    {
        let f = FilterCtx { today: String::from_str(today), text: String::new(), at: 0, id: 0 };
        let picked = select_tasks(&self.tasks, TaskFilter::TodayQueue, &f);
        let c = order_ctx(today, 0, 0);
        sort_tasks(picked, TaskOrder::Today, &c)
    }

    /// Today's queue on the machine's local date.
    pub fn today_tasks(&self) -> (r: Vec<TaskItem>)
        ensures
            exists|today: Seq<char>|
                #![trigger today_list(self@.tasks, today)]
                task_views(r@) == today_list(self@.tasks, today),
    {
        let today = crate::clock::local_today();
        self.today_tasks_on(today.as_str())
    }

    /// The first open task marked current.
    pub fn current_task(&self) -> (r: Option<TaskItem>)
        ensures
            opt_view(r) == current_of(self@.tasks),
    {
        let open = self.incomplete_tasks();
        let c = blank_ctx();
        let cur = select_tasks(&open, TaskFilter::Current, &c);
        first_task(&cur)
    }

    pub fn incomplete_count(&self) -> (r: usize)
        ensures
            r == incomplete(self@.tasks).len(),
    {
        self.incomplete_tasks().len()
    }

    /// The priorities of the open tasks with their counts; a priority that no open
    /// task has is left out.
    pub fn priority_counts(&self) -> (r: Vec<(TaskPriority, usize)>)
        ensures
            r@ == priority_entries(incomplete(self@.tasks)),
    {
        let (h, m, l) = tally(&self.incomplete_tasks());
        let mut r: Vec<(TaskPriority, usize)> = Vec::new();
        if h > 0 {
            r.push((TaskPriority::High, h));
        }
        if m > 0 {
            r.push((TaskPriority::Medium, m));
        }
        if l > 0 {
            r.push((TaskPriority::Low, l));
        }
        proof {
            let s = incomplete(self@.tasks);
            let a: Seq<(TaskPriority, usize)> = if h > 0 {
                seq![(TaskPriority::High, h)]
            } else {
                seq![]
            };
            assert(r@ =~= priority_entries(s));
        }
        r
    }

    /// Counts of the open tasks by priority.
    pub fn task_counts(&self) -> (r: TaskCounts)
        requires
            self@.tasks.len() <= u32::MAX,
        ensures
            counts_match(r, incomplete(self@.tasks)),
    {
        let open = self.incomplete_tasks();
        proof {
            super::order::lemma_select_len(TaskFilter::Incomplete, seq![], seq![], 0, 0, self@.tasks);
        }
        counts_from_tasks(&open)
    }

    /// Counts by priority of today's queue on `today`, or of all open tasks when that
    /// queue is empty.
    pub fn focus_priority_counts_on(&self, today: &str) -> (r: TaskCounts)
        requires
            self@.tasks.len() <= u32::MAX,
        ensures
            counts_match(r, focus_source(self@.tasks, today@)),
    {
        let list = self.today_tasks_on(today);
        proof {
            super::order::lemma_select_len(TaskFilter::Incomplete, seq![], seq![], 0, 0, self@.tasks);
            super::order::lemma_select_len(TaskFilter::TodayQueue, today@, seq![], 0, 0, self@.tasks);
            lemma_isort_len(
                TaskOrder::Today,
                today@,
                0,
                0,
                select(TaskFilter::TodayQueue, today@, seq![], 0, 0, self@.tasks),
            );
        }
        if list.len() == 0 {
            self.task_counts()
        } else {
            counts_from_tasks(&list)
        }
    }

    /// `focus_priority_counts_on` the machine's local date.
    pub fn focus_priority_counts(&self) -> (r: TaskCounts)
        requires
            self@.tasks.len() <= u32::MAX,
        ensures
            exists|today: Seq<char>|
                #![trigger focus_source(self@.tasks, today)]
                counts_match(r, focus_source(self@.tasks, today)),
    {
        let today = crate::clock::local_today();
        self.focus_priority_counts_on(today.as_str())
    }

    /// The first open task whose focus clock runs.
    pub fn active_focus_task(&self) -> (r: Option<TaskItem>)
        ensures
            opt_view(r) == active_focus_of(self@.tasks),
    {
        let open = self.incomplete_tasks();
        let c = blank_ctx();
        let running = select_tasks(&open, TaskFilter::Focusing, &c);
        first_task(&running)
    }

    /// The running focus task, or else the current task.
    pub fn attention_task(&self) -> (r: Option<TaskItem>)
        ensures
            opt_view(r) == (match active_focus_of(self@.tasks) {
                Some(t) => Some(t),
                None => current_of(self@.tasks),
            }),
    {
        match self.active_focus_task() {
            Some(t) => Some(t),
            None => self.current_task(),
        }
    }

    /// The running focus task, or else the open task that focus last touched.
    pub fn focus_attention_task(&self) -> (r: Option<TaskItem>)
        ensures
            opt_view(r) == (match active_focus_of(self@.tasks) {
                Some(t) => Some(t),
                None => match self@.focus_attention_task_id {
                    Some(id) => open_with_id(self@.tasks, id),
                    None => None,
                },
            }),
    {
        if let Some(active) = self.active_focus_task() {
            return Some(active);
        }
        match self.focus_attention_task_id {
            Some(id) => {
                let open = self.incomplete_tasks();
                let c = FilterCtx { today: String::new(), text: String::new(), at: 0, id };
                let found = select_tasks(&open, TaskFilter::WithId, &c);
                first_task(&found)
            },
            None => None,
        }
    }

    /// The island's expanded height for the number of open tasks.
    pub fn expanded_island_height(&self) -> (r: u32)
        ensures
            r == island_height(incomplete(self@.tasks).len() as int),
    {
        let n = self.incomplete_count();
        let rows: u32 = if n < 1 {
            1
        } else if n > 3 {
            3
        } else {
            n as u32
        };
        if rows * 35 + 17 > 92 {
            rows * 35 + 17
        } else {
            92
        }
    }

    /// The current task's title; otherwise "已完成" when nothing is open, else
    /// "暂无当前任务".
    pub fn menu_bar_title(&self) -> (r: String)
        ensures
            r@ == (match current_of(self@.tasks) {
                Some(t) => t.title,
                None => if incomplete(self@.tasks).len() == 0 {
                    "已完成"@
                } else {
                    "暂无当前任务"@
                },
            }),
    {
        if let Some(current) = self.current_task() {
            return current.title;
        }
        if self.incomplete_count() == 0 {
            String::from_str("已完成")
        } else {
            String::from_str("暂无当前任务")
        }
    }

    /// The first `limit` open tasks by priority, most recently updated first.
    pub fn preview_tasks(&self, limit: usize) -> (r: Vec<TaskItem>)
        ensures
            task_views(r@) == take_at_most(
                isort(TaskOrder::Preview, seq![], 0, 0, incomplete(self@.tasks)),
                limit as int,
            ),
    {
        let c = OrderCtx { today: String::new(), now: 0, end_of_today: 0 };
        let sorted = sort_tasks(self.incomplete_tasks(), TaskOrder::Preview, &c);
        take_tasks(sorted, limit)
    }

    /// The first `limit` open tasks by suggestion score at `now` on the local date `today`.
    pub fn suggested_today_tasks_on(&self, limit: usize, now: i64, today: &str) -> (r: Vec<TaskItem>)
        requires
            in_range(now as int),
        ensures
            task_views(r@) == take_at_most(
                isort(
                    TaskOrder::Suggestion,
                    today@,
                    now as int,
                    end_of_utc_day(now as int),
                    incomplete(self@.tasks),
                ),
                limit as int,
            ),
    {
        let end = end_of_today(now);
        let c = order_ctx(today, now, end);
        let sorted = sort_tasks(self.incomplete_tasks(), TaskOrder::Suggestion, &c);
        take_tasks(sorted, limit)
    }

    /// `suggested_today_tasks_on` the machine's local date.
    pub fn suggested_today_tasks(&self, limit: usize, now: i64) -> (r: Vec<TaskItem>)
        requires
            in_range(now as int),
        ensures
            exists|today: Seq<char>|
                #![trigger isort(TaskOrder::Suggestion, today, now as int, end_of_utc_day(now as int), incomplete(self@.tasks))]
                task_views(r@) == take_at_most(
                    isort(
                        TaskOrder::Suggestion,
                        today,
                        now as int,
                        end_of_utc_day(now as int),
                        incomplete(self@.tasks),
                    ),
                    limit as int,
                ),
    {
        let today = crate::clock::local_today();
        self.suggested_today_tasks_on(limit, now, today.as_str())
    }

    /// Open tasks with a due instant, earliest first, then by priority.
    pub fn upcoming_tasks(&self) -> (r: Vec<TaskItem>)
        ensures
            task_views(r@) == isort(
                TaskOrder::Upcoming,
                seq![],
                0,
                0,
                select(TaskFilter::HasDue, seq![], seq![], 0, 0, incomplete(self@.tasks)),
            ),
    {
        let b = blank_ctx();
        let dated = select_tasks(&self.incomplete_tasks(), TaskFilter::HasDue, &b);
        let c = OrderCtx { today: String::new(), now: 0, end_of_today: 0 };
        sort_tasks(dated, TaskOrder::Upcoming, &c)
    }

    /// Open tasks with a tag equal to `tag` (ASCII case ignored), by priority on `today`.
    pub fn incomplete_tasks_tagged_on(&self, tag: &str, today: &str) -> (r: Vec<TaskItem>)
        ensures
            task_views(r@) == by_priority(
                select(TaskFilter::Tagged, seq![], tag@, 0, 0, incomplete(self@.tasks)),
                today@,
            ),
    {
        let f = FilterCtx { today: String::new(), text: String::from_str(tag), at: 0, id: 0 };
        let picked = select_tasks(&self.incomplete_tasks(), TaskFilter::Tagged, &f);
        let c = order_ctx(today, 0, 0);
        sort_tasks(picked, TaskOrder::Priority, &c)
    }

    pub fn incomplete_tasks_tagged(&self, tag: &str) -> (r: Vec<TaskItem>)
        ensures
            exists|today: Seq<char>|
                #![trigger by_priority(select(TaskFilter::Tagged, seq![], tag@, 0, 0, incomplete(self@.tasks)), today)]
                task_views(r@) == by_priority(
                    select(TaskFilter::Tagged, seq![], tag@, 0, 0, incomplete(self@.tasks)),
                    today,
                ),
    {
        let today = crate::clock::local_today();
        self.incomplete_tasks_tagged_on(tag, today.as_str())
    }

    /// Open tasks whose project equals `project` (ASCII case ignored), by priority on `today`.
    pub fn incomplete_tasks_in_project_on(&self, project: &str, today: &str) -> (r: Vec<TaskItem>)
        ensures
            task_views(r@) == by_priority(
                select(TaskFilter::InProject, seq![], project@, 0, 0, incomplete(self@.tasks)),
                today@,
            ),
    {
        let f = FilterCtx { today: String::new(), text: String::from_str(project), at: 0, id: 0 };
        let picked = select_tasks(&self.incomplete_tasks(), TaskFilter::InProject, &f);
        let c = order_ctx(today, 0, 0);
        sort_tasks(picked, TaskOrder::Priority, &c)
    }

    pub fn incomplete_tasks_in_project(&self, project: &str) -> (r: Vec<TaskItem>)
        ensures
            exists|today: Seq<char>|
                #![trigger by_priority(select(TaskFilter::InProject, seq![], project@, 0, 0, incomplete(self@.tasks)), today)]
                task_views(r@) == by_priority(
                    select(TaskFilter::InProject, seq![], project@, 0, 0, incomplete(self@.tasks)),
                    today,
                ),
    {
        let today = crate::clock::local_today();
        self.incomplete_tasks_in_project_on(project, today.as_str())
    }

    /// Open tasks whose title, notes, a tag or project holds the trimmed, lower-cased
    /// query (all lower-cased), by priority on `today`; every open task for a blank query.
    pub fn tasks_matching_on(&self, query: &str, today: &str) -> (r: Vec<TaskItem>)
        ensures
            task_views(r@) == matching_spec(self@.tasks, query@, today@),
    {
        let qc = crate::text::chars_of(query);
        let trimmed = crate::text::trim_vec(qc.as_slice());
        if trimmed.len() == 0 {
            return self.incomplete_tasks();
        }
        let q = crate::text::to_lower(crate::text::string_of(trimmed.as_slice()).as_str());
        let f = FilterCtx { today: String::new(), text: q, at: 0, id: 0 };
        let picked = select_tasks(&self.incomplete_tasks(), TaskFilter::Matching, &f);
        let c = order_ctx(today, 0, 0);
        sort_tasks(picked, TaskOrder::Priority, &c)
    }

    pub fn tasks_matching(&self, query: &str) -> (r: Vec<TaskItem>)
        ensures
            exists|today: Seq<char>|
                #![trigger matching_spec(self@.tasks, query@, today)]
                task_views(r@) == matching_spec(self@.tasks, query@, today),
    {
        let today = crate::clock::local_today();
        self.tasks_matching_on(query, today.as_str())
    }
}

} // verus!
