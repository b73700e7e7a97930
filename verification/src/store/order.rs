//! The orders and selections that the task list is read through. A comparison
//! gives -1, 0 or 1; sorting is a stable insertion sort, so for a total order it
//! gives what a stable `sort_by` gives.

use super::pos_less;
use crate::lexer::{contains_text, fold_ascii};
use crate::models::{task_views, TaskItem, TaskPriority, TaskView};
use crate::text::{lower_text, texts, trim};
use vstd::prelude::*;

verus! {

pub fn pos_less_exec(a: &TaskItem, b: &TaskItem) -> (r: bool)
    ensures
        r == pos_less(a@, b@),
{
    a.sort_index < b.sort_index || (a.sort_index == b.sort_index && a.created_at < b.created_at)
}

pub open spec fn rank_int(a: int, b: int) -> int {
    if a < b {
        -1
    } else if a == b {
        0
    } else {
        1
    }
}

/// `Option` ordering: `None` first.
pub open spec fn rank_opt(a: Option<int>, b: Option<int>) -> int {
    match (a, b) {
        (Some(x), Some(y)) => rank_int(x, y),
        (None, Some(_)) => -1,
        (Some(_), None) => 1,
        (None, None) => 0,
    }
}

/// `bool` ordering: `false` first.
pub open spec fn rank_bool(a: bool, b: bool) -> int {
    if a == b {
        0
    } else if !a {
        -1
    } else {
        1
    }
}

/// The first comparison that is not a tie.
pub open spec fn lex(c1: int, c2: int) -> int {
    if c1 != 0 {
        c1
    } else {
        c2
    }
}

pub open spec fn o64(o: Option<i64>) -> Option<int> {
    match o {
        Some(v) => Some(v as int),
        None => None,
    }
}

pub open spec fn o32(o: Option<i32>) -> Option<int> {
    match o {
        Some(v) => Some(v as int),
        None => None,
    }
}

/// Dated tasks first, earlier first.
pub open spec fn dated_first(a: Option<i64>, b: Option<i64>) -> int {
    match (a, b) {
        (Some(x), Some(y)) => rank_int(x as int, y as int),
        (Some(_), None) => -1,
        (None, Some(_)) => 1,
        (None, None) => 0,
    }
}

/// Ties unless both tasks are dated.
pub open spec fn both_dated(a: Option<i64>, b: Option<i64>) -> int {
    match (a, b) {
        (Some(x), Some(y)) => rank_int(x as int, y as int),
        _ => 0,
    }
}

/// Points of a task in today's suggestion list.
pub open spec fn suggestion_score(t: TaskView, now: int, end_of_today: int, today: Seq<char>) -> int {
    (if t.in_today_queue(today) {
        80int
    } else {
        0
    }) + (if t.is_current {
        30int
    } else {
        0
    }) + (match t.priority() {
        TaskPriority::High => 30int,
        TaskPriority::Medium => 16,
        TaskPriority::Low => 6,
    }) + (match t.due_at {
        Some(d) => if d < now {
            70int
        } else if d < end_of_today {
            55
        } else if d - now < 259_200_000 {
            24
        } else {
            0
        },
        None => 0,
    }) + (match t.estimated_minutes {
        Some(m) => if m <= 30 {
            10int
        } else if m <= 60 {
            6
        } else {
            0
        },
        None => 0,
    })
}

#[derive(Clone, Copy, PartialEq, Eq, Structural)]
pub enum TaskOrder {
    /// Sort index, then creation instant.
    Position,
    /// Today's queue first, then priority, dated before undated, current first,
    /// then position.
    Priority,
    /// Today's queue index, due instant where both are dated, priority, sort index.
    Today,
    /// Priority, most recently updated, most recently created, sort index.
    Preview,
    /// Due instant, then priority.
    Upcoming,
    /// Highest suggestion score first, then due instant where both are dated,
    /// otherwise sort index.
    Suggestion,
    /// Most recently completed first.
    CompletedDesc,
}

/// What an order may depend on: the local date, an instant, and the end of its UTC day.
pub struct OrderCtx {
    pub today: String,
    pub now: i64,
    pub end_of_today: i64,
}

pub open spec fn compare(
    o: TaskOrder,
    today: Seq<char>,
    now: int,
    end: int,
    a: TaskView,
    b: TaskView,
) -> int {
    match o {
        TaskOrder::Position => lex(
            rank_int(a.sort_index as int, b.sort_index as int),
            rank_int(a.created_at as int, b.created_at as int),
        ),
        TaskOrder::Priority => lex(
            -rank_bool(a.in_today_queue(today), b.in_today_queue(today)),
            lex(
                rank_opt(o32(a.priority_raw_value), o32(b.priority_raw_value)),
                lex(
                    dated_first(a.due_at, b.due_at),
                    lex(
                        -rank_bool(a.is_current, b.is_current),
                        lex(
                            rank_int(a.sort_index as int, b.sort_index as int),
                            rank_int(a.created_at as int, b.created_at as int),
                        ),
                    ),
                ),
            ),
        ),
        TaskOrder::Today => lex(
            rank_opt(o32(a.today_sort_index), o32(b.today_sort_index)),
            lex(
                both_dated(a.due_at, b.due_at),
                lex(
                    rank_opt(o32(a.priority_raw_value), o32(b.priority_raw_value)),
                    rank_int(a.sort_index as int, b.sort_index as int),
                ),
            ),
        ),
        TaskOrder::Preview => lex(
            rank_opt(o32(a.priority_raw_value), o32(b.priority_raw_value)),
            lex(
                rank_int(b.updated_at as int, a.updated_at as int),
                lex(
                    rank_int(b.created_at as int, a.created_at as int),
                    rank_int(a.sort_index as int, b.sort_index as int),
                ),
            ),
        ),
        TaskOrder::Upcoming => lex(
            rank_opt(o64(a.due_at), o64(b.due_at)),
            rank_opt(o32(a.priority_raw_value), o32(b.priority_raw_value)),
        ),
        TaskOrder::Suggestion => lex(
            rank_int(suggestion_score(b, now, end, today), suggestion_score(a, now, end, today)),
            match (a.due_at, b.due_at) {
                (Some(x), Some(y)) => rank_int(x as int, y as int),
                _ => rank_int(a.sort_index as int, b.sort_index as int),
            },
        ),
        TaskOrder::CompletedDesc => rank_opt(o64(b.completed_at), o64(a.completed_at)),
    }
}

fn rank_i64(a: i64, b: i64) -> (r: i8)
    ensures
        r == rank_int(a as int, b as int),
{
    if a < b {
        -1
    } else if a == b {
        0
    } else {
        1
    }
}

fn rank_o64(a: Option<i64>, b: Option<i64>) -> (r: i8)
    ensures
        r == rank_opt(o64(a), o64(b)),
{
    match (a, b) {
        (Some(x), Some(y)) => rank_i64(x, y),
        (None, Some(_)) => -1,
        (Some(_), None) => 1,
        (None, None) => 0,
    }
}

fn rank_o32(a: Option<i32>, b: Option<i32>) -> (r: i8)
    ensures
        r == rank_opt(o32(a), o32(b)),
{
    match (a, b) {
        (Some(x), Some(y)) => rank_i64(x as i64, y as i64),
        (None, Some(_)) => -1,
        (Some(_), None) => 1,
        (None, None) => 0,
    }
}

fn rank_b(a: bool, b: bool) -> (r: i8)
    ensures
        r == rank_bool(a, b),
{
    if a == b {
        0
    } else if !a {
        -1
    } else {
        1
    }
}

fn lex_exec(c1: i8, c2: i8) -> (r: i8)
    ensures
        r == lex(c1 as int, c2 as int),
{
    if c1 != 0 {
        c1
    } else {
        c2
    }
}

/// The points of a task in today's suggestion list.
pub fn score_of(t: &TaskItem, now: i64, end_of_today: i64, today: &str) -> (r: i32)
    ensures
        r == suggestion_score(t@, now as int, end_of_today as int, today@),
{
    let mut score: i32 = 0;
    if t.is_in_today_queue_on(today) {
        score = score + 80;
    }
    if t.is_current {
        score = score + 30;
    }
    match t.priority() {
        TaskPriority::High => score = score + 30,
        TaskPriority::Medium => score = score + 16,
        TaskPriority::Low => score = score + 6,
    }
    if let Some(due) = t.due_at {
        if due < now {
            score = score + 70;
        } else if due < end_of_today {
            score = score + 55;
        } else if (due as i128) - (now as i128) < 259_200_000 {
            score = score + 24;
        }
    }
    if let Some(minutes) = t.estimated_minutes {
        if minutes <= 30 {
            score = score + 10;
        } else if minutes <= 60 {
            score = score + 6;
        }
    }
    score
}

pub fn compare_exec(o: TaskOrder, c: &OrderCtx, a: &TaskItem, b: &TaskItem) -> (r: i8)
    ensures
        r == compare(o, c.today@, c.now as int, c.end_of_today as int, a@, b@),
{
    match o {
        TaskOrder::Position => lex_exec(
            rank_i64(a.sort_index as i64, b.sort_index as i64),
            rank_i64(a.created_at, b.created_at),
        ),
        TaskOrder::Priority => {
            let t = rank_b(a.is_in_today_queue_on(c.today.as_str()), b.is_in_today_queue_on(c.today.as_str()));
            let d = match (a.due_at, b.due_at) {
                (Some(x), Some(y)) => rank_i64(x, y),
                (Some(_), None) => -1,
                (None, Some(_)) => 1,
                (None, None) => 0,
            };
            lex_exec(
                -t,
                lex_exec(
                    rank_o32(a.priority_raw_value, b.priority_raw_value),
                    lex_exec(
                        d,
                        lex_exec(
                            -rank_b(a.is_current, b.is_current),
                            lex_exec(
                                rank_i64(a.sort_index as i64, b.sort_index as i64),
                                rank_i64(a.created_at, b.created_at),
                            ),
                        ),
                    ),
                ),
            )
        },
        TaskOrder::Today => {
            let d = match (a.due_at, b.due_at) {
                (Some(x), Some(y)) => rank_i64(x, y),
                _ => 0,
            };
            lex_exec(
                rank_o32(a.today_sort_index, b.today_sort_index),
                lex_exec(
                    d,
                    lex_exec(
                        rank_o32(a.priority_raw_value, b.priority_raw_value),
                        rank_i64(a.sort_index as i64, b.sort_index as i64),
                    ),
                ),
            )
        },
        TaskOrder::Preview => lex_exec(
            rank_o32(a.priority_raw_value, b.priority_raw_value),
            lex_exec(
                rank_i64(b.updated_at, a.updated_at),
                lex_exec(
                    rank_i64(b.created_at, a.created_at),
                    rank_i64(a.sort_index as i64, b.sort_index as i64),
                ),
            ),
        ),
        TaskOrder::Upcoming => lex_exec(
            rank_o64(a.due_at, b.due_at),
            rank_o32(a.priority_raw_value, b.priority_raw_value),
        ),
        TaskOrder::Suggestion => {
            let sa = score_of(a, c.now, c.end_of_today, c.today.as_str());
            let sb = score_of(b, c.now, c.end_of_today, c.today.as_str());
            let d = match (a.due_at, b.due_at) {
                (Some(x), Some(y)) => rank_i64(x, y),
                _ => rank_i64(a.sort_index as i64, b.sort_index as i64),
            };
            lex_exec(rank_i64(sb as i64, sa as i64), d)
        },
        TaskOrder::CompletedDesc => rank_o64(b.completed_at, a.completed_at),
    }
}

/// Where `x` goes among the first `n` items of the sorted `s`: after every item
/// that it does not come before.
pub open spec fn ins_at(
    o: TaskOrder,
    today: Seq<char>,
    now: int,
    end: int,
    s: Seq<TaskView>,
    x: TaskView,
    n: int,
) -> int
    decreases n,
{
    if n <= 0 {
        0
    } else if compare(o, today, now, end, x, s[n - 1]) < 0 {
        ins_at(o, today, now, end, s, x, n - 1)
    } else {
        n
    }
}

/// Stable insertion sort of `s` under order `o`.
pub open spec fn isort(o: TaskOrder, today: Seq<char>, now: int, end: int, s: Seq<TaskView>) -> Seq<
    TaskView,
>
    decreases s.len(),
{
    if s.len() == 0 {
        seq![]
    } else {
        let r = isort(o, today, now, end, s.drop_last());
        r.insert(ins_at(o, today, now, end, r, s.last(), r.len() as int), s.last())
    }
}

pub proof fn lemma_ins_at_bound(
    o: TaskOrder,
    today: Seq<char>,
    now: int,
    end: int,
    s: Seq<TaskView>,
    x: TaskView,
    n: int,
)
    requires
        0 <= n,
    ensures
        0 <= ins_at(o, today, now, end, s, x, n) <= n,
    decreases n,
{
    if n > 0 && compare(o, today, now, end, x, s[n - 1]) < 0 {
        lemma_ins_at_bound(o, today, now, end, s, x, n - 1);
    }
}

pub proof fn lemma_isort_len(o: TaskOrder, today: Seq<char>, now: int, end: int, s: Seq<TaskView>)
    ensures
        isort(o, today, now, end, s).len() == s.len(),
    decreases s.len(),
{
    if s.len() > 0 {
        lemma_isort_len(o, today, now, end, s.drop_last());
        let r = isort(o, today, now, end, s.drop_last());
        lemma_ins_at_bound(o, today, now, end, r, s.last(), r.len() as int);
    }
}

/// Sorts `v` under order `o` in context `c`.
pub fn sort_tasks(v: Vec<TaskItem>, o: TaskOrder, c: &OrderCtx) -> (r: Vec<TaskItem>)
    ensures
        task_views(r@) == isort(o, c.today@, c.now as int, c.end_of_today as int, task_views(v@)),
{
    let ghost today = c.today@;
    let ghost now = c.now as int;
    let ghost end = c.end_of_today as int;
    let mut r: Vec<TaskItem> = Vec::new();
    let mut i: usize = 0;
    while i < v.len()
        invariant
            i <= v@.len(),
            today == c.today@,
            now == c.now as int,
            end == c.end_of_today as int,
            task_views(r@) == isort(o, today, now, end, task_views(v@).take(i as int)),
        decreases v.len() - i,
    {
        let x = v[i].clone();
        proof {
            lemma_isort_len(o, today, now, end, task_views(v@).take(i as int));
        }
        let n = r.len();
        let mut j = n;
        while j > 0 && compare_exec(o, c, &x, &r[j - 1]) < 0
            invariant
                j <= n,
                n == r@.len(),
                today == c.today@,
                now == c.now as int,
                end == c.end_of_today as int,
                ins_at(o, today, now, end, task_views(r@), x@, j as int) == ins_at(
                    o,
                    today,
                    now,
                    end,
                    task_views(r@),
                    x@,
                    n as int,
                ),
            decreases j,
        {
            j = j - 1;
        }
        let ghost before = r@;
        r.insert(j, x);
        proof {
            let s = task_views(v@).take(i + 1);
            assert(s.drop_last() =~= task_views(v@).take(i as int));
            assert(s.last() == v@[i as int]@);
            assert(task_views(r@) =~= task_views(before).insert(j as int, x@));
        }
        i = i + 1;
    }
    proof {
        assert(task_views(v@).take(v@.len() as int) =~= task_views(v@));
    }
    r
}

#[derive(Clone, Copy, PartialEq, Eq, Structural)]
pub enum TaskFilter {
    Incomplete,
    Completed,
    /// Open and in today's queue.
    TodayQueue,
    /// A focus clock is running.
    Focusing,
    HasDue,
    /// Has a tag equal to the text, ASCII case ignored.
    Tagged,
    /// Its project equals the text, ASCII case ignored.
    InProject,
    /// The lower-cased text stands in its lower-cased title, notes, a tag or project.
    Matching,
    /// Completed on the UTC date of the instant.
    CompletedOn,
    /// Postponed on the UTC date of the instant.
    PostponedOn,
    /// Due on the UTC date of the instant.
    DueOn,
    /// Marked as the current task.
    Current,
    /// Has the identifier.
    WithId,
    /// Its reminder (or else due) instant passed at most two minutes before the instant.
    ReminderDue,
}

/// What a selection may depend on: the local date, a text and an instant.
pub struct FilterCtx {
    pub today: String,
    pub text: String,
    pub at: i64,
    pub id: u128,
}

/// Equal once ASCII letters are lower-cased (`str::eq_ignore_ascii_case`).
pub open spec fn eq_ignore_ascii_case(a: Seq<char>, b: Seq<char>) -> bool {
    a.len() == b.len() && forall|k: int| 0 <= k < a.len() ==> fold_ascii(#[trigger] a[k]) == fold_ascii(b[k])
}

pub open spec fn any_tag_eq(tags: Seq<Seq<char>>, t: Seq<char>) -> bool {
    exists|k: int| 0 <= k < tags.len() && eq_ignore_ascii_case(#[trigger] tags[k], t)
}

pub open spec fn any_tag_contains(tags: Seq<Seq<char>>, q: Seq<char>) -> bool {
    exists|k: int| 0 <= k < tags.len() && contains_text(lower_text(#[trigger] tags[k]), q)
}

pub open spec fn same_utc_day(a: Option<i64>, at: int) -> bool {
    match a {
        Some(v) => crate::clock::day_index(v as int, 0) == crate::clock::day_index(at, 0),
        None => false,
    }
}

/// A reminder is due at `now` when its instant (the reminder, else the due instant)
/// is not later than `now` and at most 120 whole seconds earlier.
pub open spec fn reminder_due(t: TaskView, now: int) -> bool {
    let at = match t.reminder_at {
        Some(r) => Some(r),
        None => t.due_at,
    };
    match at {
        Some(r) => r <= now && (now - r) / 1000 <= 120,
        None => false,
    }
}

/// Whether the task's reminder is due at `now` (see `reminder_due`).
pub fn is_reminder_due(task: &TaskItem, now: i64) -> (r: bool)
    ensures
        r == reminder_due(task@, now as int),
{
    let at = match task.reminder_at {
        Some(r) => Some(r),
        None => task.due_at,
    };
    match at {
        Some(r) => {
            if r > now {
                return false;
            }
            let age: i128 = now as i128 - r as i128;
            age / 1000 <= 120
        },
        None => false,
    }
}

/// The task matches the lower-cased query `q` (`panel::task_matches_query`).
pub open spec fn matches_query(t: TaskView, q: Seq<char>) -> bool {
    contains_text(lower_text(t.title), q) || contains_text(lower_text(t.notes), q)
        || any_tag_contains(t.tags(), q) || (match t.project_name {
        Some(p) => contains_text(lower_text(p), q),
        None => false,
    })
}

pub open spec fn keep(f: TaskFilter, today: Seq<char>, text: Seq<char>, at: int, id: u128, t: TaskView) -> bool {
    match f {
        TaskFilter::Incomplete => !t.is_completed,
        TaskFilter::Completed => t.is_completed,
        TaskFilter::TodayQueue => !t.is_completed && t.in_today_queue(today),
        TaskFilter::Focusing => t.focus_started_at is Some,
        TaskFilter::HasDue => t.due_at is Some,
        TaskFilter::Tagged => any_tag_eq(t.tags(), text),
        TaskFilter::InProject => match t.project_name {
            Some(p) => eq_ignore_ascii_case(p, text),
            None => false,
        },
        TaskFilter::Matching => matches_query(t, text),
        TaskFilter::CompletedOn => same_utc_day(t.completed_at, at),
        TaskFilter::PostponedOn => same_utc_day(t.postponed_at, at),
        TaskFilter::DueOn => same_utc_day(t.due_at, at),
        TaskFilter::Current => t.is_current,
        TaskFilter::WithId => t.id == id,
        TaskFilter::ReminderDue => reminder_due(t, at),
    }
}

/// The tasks of `s` that `f` keeps, in order.
pub open spec fn select(
    f: TaskFilter,
    today: Seq<char>,
    text: Seq<char>,
    at: int,
    id: u128,
    s: Seq<TaskView>,
) -> Seq<
    TaskView,
>
    decreases s.len(),
{
    if s.len() == 0 {
        seq![]
    } else {
        let r = select(f, today, text, at, id, s.drop_last());
        if keep(f, today, text, at, id, s.last()) {
            r.push(s.last())
        } else {
            r
        }
    }
}

fn fold_code(c: char) -> (r: u32)
    ensures
        r == fold_ascii(c) as u32,
{
    if 'A' <= c && c <= 'Z' {
        (c as u32) + 32
    } else {
        c as u32
    }
}

pub fn ignore_ascii_case_eq(a: &[char], b: &[char]) -> (r: bool)
    ensures
        r == eq_ignore_ascii_case(a@, b@),
{
    if a.len() != b.len() {
        return false;
    }
    let mut k: usize = 0;
    while k < a.len()
        invariant
            a@.len() == b@.len(),
            k <= a@.len(),
            forall|m: int| 0 <= m < k ==> fold_ascii(#[trigger] a@[m]) == fold_ascii(b@[m]),
        decreases a.len() - k,
    {
        if fold_code(a[k]) != fold_code(b[k]) {
            return false;
        }
        k = k + 1;
    }
    true
}

fn same_utc_day_exec(a: Option<i64>, at: i64) -> (r: bool)
    ensures
        r == same_utc_day(a, at as int),
{
    match a {
        Some(v) => crate::clock::utc_day(v) == crate::clock::utc_day(at),
        None => false,
    }
}

/// `panel::task_matches_query`: `q` is already lower-cased.
pub fn task_matches_query(t: &TaskItem, q: &str) -> (r: bool)
    ensures
        r == matches_query(t@, q@),
{
    let qc = crate::text::chars_of(q);
    let title = crate::text::chars_of(crate::text::to_lower(t.title.as_str()).as_str());
    if crate::lexer::contains_exec(title.as_slice(), qc.as_slice()) {
        return true;
    }
    let notes = crate::text::chars_of(crate::text::to_lower(t.notes.as_str()).as_str());
    if crate::lexer::contains_exec(notes.as_slice(), qc.as_slice()) {
        return true;
    }
    let tags = t.tags();
    let mut k: usize = 0;
    while k < tags.len()
        invariant
            k <= tags@.len(),
            texts(tags@) == t@.tags(),
            qc@ == q@,
            forall|m: int| 0 <= m < k ==> !contains_text(lower_text(#[trigger] texts(tags@)[m]), q@),
        decreases tags.len() - k,
    {
        let lowered = crate::text::chars_of(crate::text::to_lower(tags[k].as_str()).as_str());
        if crate::lexer::contains_exec(lowered.as_slice(), qc.as_slice()) {
            proof {
                assert(texts(tags@)[k as int] == tags@[k as int]@);
                assert(contains_text(lower_text(t@.tags()[k as int]), q@));
                assert(any_tag_contains(t@.tags(), q@));
            }
            return true;
        }
        k = k + 1;
    }
    match &t.project_name {
        Some(p) => {
            let lowered = crate::text::chars_of(crate::text::to_lower(p.as_str()).as_str());
            crate::lexer::contains_exec(lowered.as_slice(), qc.as_slice())
        },
        None => false,
    }
}

fn keep_exec(f: TaskFilter, c: &FilterCtx, t: &TaskItem) -> (r: bool)
    ensures
        r == keep(f, c.today@, c.text@, c.at as int, c.id, t@),
{
    match f {
        TaskFilter::Incomplete => !t.is_completed,
        TaskFilter::Completed => t.is_completed,
        TaskFilter::TodayQueue => !t.is_completed && t.is_in_today_queue_on(c.today.as_str()),
        TaskFilter::Focusing => t.focus_started_at.is_some(),
        TaskFilter::HasDue => t.due_at.is_some(),
        TaskFilter::Tagged => {
            let tags = t.tags();
            let want = crate::text::chars_of(c.text.as_str());
            let mut k: usize = 0;
            while k < tags.len()
                invariant
                    f == TaskFilter::Tagged,
                    k <= tags@.len(),
                    texts(tags@) == t@.tags(),
                    want@ == c.text@,
                    forall|m: int| 0 <= m < k ==> !eq_ignore_ascii_case(#[trigger] texts(tags@)[m], c.text@),
                decreases tags.len() - k,
            {
                let tag = crate::text::chars_of(tags[k].as_str());
                if ignore_ascii_case_eq(tag.as_slice(), want.as_slice()) {
                    proof {
                        assert(texts(tags@)[k as int] == tags@[k as int]@);
                        assert(eq_ignore_ascii_case(t@.tags()[k as int], c.text@));
                        assert(any_tag_eq(t@.tags(), c.text@));
                    }
                    return true;
                }
                k = k + 1;
            }
            false
        },
        TaskFilter::InProject => match &t.project_name {
            Some(p) => {
                let a = crate::text::chars_of(p.as_str());
                let b = crate::text::chars_of(c.text.as_str());
                ignore_ascii_case_eq(a.as_slice(), b.as_slice())
            },
            None => false,
        },
        TaskFilter::Matching => task_matches_query(t, c.text.as_str()),
        TaskFilter::CompletedOn => same_utc_day_exec(t.completed_at, c.at),
        TaskFilter::PostponedOn => same_utc_day_exec(t.postponed_at, c.at),
        TaskFilter::DueOn => same_utc_day_exec(t.due_at, c.at),
        TaskFilter::Current => t.is_current,
        TaskFilter::WithId => t.id == c.id,
        TaskFilter::ReminderDue => is_reminder_due(t, c.at),
    }
}

/// Copies of the tasks of `v` that `f` keeps, in order.
pub fn select_tasks(v: &Vec<TaskItem>, f: TaskFilter, c: &FilterCtx) -> (r: Vec<TaskItem>)
    ensures
        task_views(r@) == select(f, c.today@, c.text@, c.at as int, c.id, task_views(v@)),
{
    let mut r: Vec<TaskItem> = Vec::new();
    let mut i: usize = 0;
    while i < v.len()
        invariant
            i <= v@.len(),
            task_views(r@) == select(f, c.today@, c.text@, c.at as int, c.id, task_views(v@).take(i as int)),
        decreases v.len() - i,
    {
        proof {
            let s = task_views(v@).take(i + 1);
            assert(s.drop_last() =~= task_views(v@).take(i as int));
            assert(s.last() == v@[i as int]@);
        }
        if keep_exec(f, c, &v[i]) {
            let x = v[i].clone();
            let ghost before = r@;
            r.push(x);
            proof {
                assert(task_views(r@) =~= task_views(before).push(x@));
            }
        }
        i = i + 1;
    }
    proof {
        assert(task_views(v@).take(v@.len() as int) =~= task_views(v@));
    }
    r
}

/// Selections that read nothing from the context.
pub open spec fn ctx_free(f: TaskFilter) -> bool {
    f is Incomplete || f is Completed || f is Focusing || f is HasDue || f is Current
}

pub proof fn lemma_select_ctx_free(
    f: TaskFilter,
    t1: Seq<char>,
    x1: Seq<char>,
    a1: int,
    i1: u128,
    t2: Seq<char>,
    x2: Seq<char>,
    a2: int,
    i2: u128,
    s: Seq<TaskView>,
)
    requires
        ctx_free(f),
    ensures
        select(f, t1, x1, a1, i1, s) == select(f, t2, x2, a2, i2, s),
    decreases s.len(),
{
    if s.len() > 0 {
        lemma_select_ctx_free(f, t1, x1, a1, i1, t2, x2, a2, i2, s.drop_last());
    }
}

pub proof fn lemma_select_len(
    f: TaskFilter,
    t: Seq<char>,
    x: Seq<char>,
    a: int,
    i: u128,
    s: Seq<TaskView>,
)
    ensures
        select(f, t, x, a, i, s).len() <= s.len(),
    decreases s.len(),
{
    if s.len() > 0 {
        lemma_select_len(f, t, x, a, i, s.drop_last());
    }
}

} // verus!
