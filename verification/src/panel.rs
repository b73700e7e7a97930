//! What the main panel, the tray and the global shortcut read: search results, the
//! history of completed tasks, the tray tooltip, and the shortcut text.

use crate::config::AppConfig;
use crate::models::{task_views, TaskItem, TaskPriority, TaskView};
use crate::store::order::{isort, matches_query, select, select_tasks, sort_tasks, FilterCtx, OrderCtx, TaskFilter, TaskOrder};
use crate::store::queries::{completed, counts_match, current_of, incomplete, matching_spec};
use crate::store::TaskStore;
use crate::text::{lower_text, trim};
use vstd::prelude::*;

verus! {

/// The priority a stored number names (0 high, 2 low, anything else medium).
pub fn priority_from_raw(value: i32) -> (r: TaskPriority)
    ensures
        r == TaskPriority::spec_from_raw(Some(value)),
{
    TaskPriority::from_raw(Some(value))
}

/// A completed task shown in the history for the lower-cased query `q` and the
/// optional completion range.
pub open spec fn in_history(t: TaskView, q: Seq<char>, start: Option<i64>, end: Option<i64>) -> bool {
    &&& (q.len() == 0 || matches_query(t, q))
    &&& (start is Some || end is Some) ==> match t.completed_at {
        Some(c) => (start matches Some(s) ==> c >= s) && (end matches Some(e) ==> c <= e),
        None => false,
    }
}

pub open spec fn history_select(s: Seq<TaskView>, q: Seq<char>, start: Option<i64>, end: Option<i64>) -> Seq<
    TaskView,
>
    decreases s.len(),
{
    if s.len() == 0 {
        seq![]
    } else {
        let r = history_select(s.drop_last(), q, start, end);
        if in_history(s.last(), q, start, end) {
            r.push(s.last())
        } else {
            r
        }
    }
}

/// The history: completed tasks matching the trimmed, lower-cased query and
/// completed within the range, most recently completed first.
pub open spec fn history_spec(s: Seq<TaskView>, query: Seq<char>, start: Option<i64>, end: Option<i64>) -> Seq<
    TaskView,
> {
    isort(
        TaskOrder::CompletedDesc,
        seq![],
        0,
        0,
        history_select(completed(s), lower_text(trim(query)), start, end),
    )
}

fn in_history_exec(t: &TaskItem, q: &str, start: Option<i64>, end: Option<i64>) -> (r: bool)
    ensures
        r == in_history(t@, q@, start, end),
{
    if crate::text::chars_of(q).len() > 0 && !crate::store::order::task_matches_query(t, q) {
        return false;
    }
    if start.is_some() || end.is_some() {
        match t.completed_at {
            Some(c) => {
                if let Some(s) = start {
                    if c < s {
                        return false;
                    }
                }
                if let Some(e) = end {
                    if c > e {
                        return false;
                    }
                }
            },
            None => return false,
        }
    }
    true
}

/// Completed tasks for the history view (see `history_spec`).
pub fn query_history(store: &TaskStore, query: &str, start_at: Option<i64>, end_at: Option<i64>) -> (r: Vec<
    TaskItem,
>)
    ensures
        task_views(r@) == history_spec(store@.tasks, query@, start_at, end_at),
{
    let q = crate::text::to_lower(crate::text::trimmed(query).as_str());
    let done = store.completed_tasks();
    let mut picked: Vec<TaskItem> = Vec::new();
    let mut i: usize = 0;
    while i < done.len()
        invariant
            i <= done@.len(),
            q@ == lower_text(trim(query@)),
            task_views(picked@) == history_select(task_views(done@).take(i as int), q@, start_at, end_at),
        decreases done.len() - i,
    {
        proof {
            let s = task_views(done@).take(i + 1);
            assert(s.drop_last() =~= task_views(done@).take(i as int));
            assert(s.last() == done@[i as int]@);
        }
        if in_history_exec(&done[i], q.as_str(), start_at, end_at) {
            let x = done[i].clone();
            let ghost before = picked@;
            picked.push(x);
            proof {
                assert(task_views(picked@) =~= task_views(before).push(x@));
            }
        }
        i = i + 1;
    }
    proof {
        assert(task_views(done@).take(done@.len() as int) =~= task_views(done@));
    }
    let c = OrderCtx { today: String::new(), now: 0, end_of_today: 0 };
    sort_tasks(picked, TaskOrder::CompletedDesc, &c)
}

/// Search results on the local date `today`: for a blank query every open task and
/// no completed one; otherwise the matching open tasks (see `tasks_matching_on`) and
/// the completed tasks that match the lower-cased query, in list order.
pub fn search_task_lists_on(store: &TaskStore, query: &str, today: &str) -> (r: (Vec<TaskItem>, Vec<
    TaskItem,
>))
    ensures
        trim(query@).len() == 0 ==> task_views(r.0@) == incomplete(store@.tasks) && r.1@.len() == 0,
        trim(query@).len() > 0 ==> task_views(r.0@) == matching_spec(store@.tasks, trim(query@), today@)
            && task_views(r.1@) == select(
            TaskFilter::Matching,
            seq![],
            lower_text(trim(query@)),
            0,
            0,
            completed(store@.tasks),
        ),
{
    let cleaned = crate::text::trimmed(query);
    if crate::text::chars_of(cleaned.as_str()).len() == 0 {
        return (store.incomplete_tasks(), Vec::new());
    }
    let q = crate::text::to_lower(cleaned.as_str());
    let open = store.tasks_matching_on(cleaned.as_str(), today);
    let f = FilterCtx { today: String::new(), text: q, at: 0, id: 0 };
    let done = select_tasks(&store.completed_tasks(), TaskFilter::Matching, &f);
    (open, done)
}

/// The tray tooltip: the menu bar title when the settings ask for it; otherwise
/// "TaskCap · 已完成" with nothing open, else "TaskCap · N 项待办".
pub open spec fn tooltip_spec(s: Seq<TaskView>, show_title: bool) -> Seq<char> {
    if show_title {
        match current_of(s) {
            Some(t) => t.title,
            None => if incomplete(s).len() == 0 {
                "已完成"@
            } else {
                "暂无当前任务"@
            },
        }
    } else if incomplete(s).len() == 0 {
        "TaskCap · 已完成"@
    } else {
        "TaskCap · "@ + crate::store::export::int_text(incomplete(s).len() as int) + " 项待办"@
    }
}

pub fn tray_tooltip(store: &TaskStore, config: &AppConfig) -> (r: String)
    requires
        store@.tasks.len() <= u32::MAX,
    ensures
        r@ == tooltip_spec(store@.tasks, config.show_title_in_menu_bar),
{
    if config.show_title_in_menu_bar {
        return store.menu_bar_title();
    }
    let counts = store.task_counts();
    if counts.total == 0 {
        String::from_str("TaskCap · 已完成")
    } else {
        let mut out = crate::text::chars_of("TaskCap · ");
        let n = crate::store::export::int_chars(counts.total as i64);
        let ghost base = out@;
        let mut k: usize = 0;
        while k < n.len()
            invariant
                k <= n@.len(),
                out@ == base + n@.take(k as int),
            decreases n.len() - k,
        {
            out.push(n[k]);
            proof {
                assert(n@.take(k + 1) =~= n@.take(k as int).push(n@[k as int]));
                assert(out@ =~= base + n@.take(k + 1));
            }
            k = k + 1;
        }
        let tail = crate::text::chars_of(" 项待办");
        let ghost mid = out@;
        let mut j: usize = 0;
        while j < tail.len()
            invariant
                j <= tail@.len(),
                out@ == mid + tail@.take(j as int),
            decreases tail.len() - j,
        {
            out.push(tail[j]);
            proof {
                assert(tail@.take(j + 1) =~= tail@.take(j as int).push(tail@[j as int]));
                assert(out@ =~= mid + tail@.take(j + 1));
            }
            j = j + 1;
        }
        proof {
            assert(n@.take(n@.len() as int) =~= n@);
            assert(tail@.take(tail@.len() as int) =~= tail@);
            assert(out@ =~= "TaskCap · "@ + crate::store::export::int_text(incomplete(store@.tasks).len() as int) + " 项待办"@);
        }
        crate::text::string_of(out.as_slice())
    }
}

/// A global shortcut: modifier keys and one letter (lower-case) or digit.
#[derive(Clone, Copy, Debug, PartialEq, Eq, Structural)]
pub struct ShortcutSpec {
    pub ctrl: bool,
    pub alt: bool,
    pub shift: bool,
    pub key: char,
}

/// The key a shortcut part names once lower-cased: one letter a–z or digit 0–9.
pub open spec fn key_of(part: Seq<char>) -> Option<char> {
    let l = lower_text(part);
    if l.len() == 1 && (('a' <= l[0] && l[0] <= 'z') || ('0' <= l[0] && l[0] <= '9')) {
        Some(l[0])
    } else {
        None
    }
}

/// The modifiers and key read from the parts of a shortcut text, in order; a part
/// that is not a modifier sets the key (or clears it when it names none).
pub open spec fn shortcut_state(parts: Seq<Seq<char>>) -> (bool, bool, bool, Option<char>)
    decreases parts.len(),
{
    if parts.len() == 0 {
        (false, false, false, None)
    } else {
        let (c, a, s, k) = shortcut_state(parts.drop_last());
        let p = lower_text(trim(parts.last()));
        if p == "ctrl"@ || p == "control"@ {
            (true, a, s, k)
        } else if p == "alt"@ {
            (c, true, s, k)
        } else if p == "shift"@ {
            (c, a, true, k)
        } else {
            (c, a, s, key_of(p))
        }
    }
}

/// What a shortcut text such as "Ctrl+Alt+N" names, or why not.
pub open spec fn shortcut_spec(s: Seq<char>) -> Result<ShortcutSpec, Seq<char>> {
    let (c, a, sh, k) = shortcut_state(crate::text::split_fields(s, '+'));
    match k {
        Some(key) => Ok(ShortcutSpec { ctrl: c, alt: a, shift: sh, key }),
        None => Err("无法解析快捷键: "@ + s),
    }
}

fn is_text(a: &String, b: &str) -> (r: bool)
    ensures
        r == (a@ == b@),
{
    *a == String::from_str(b)
}

/// The key a shortcut part names (see `key_of`).
pub fn parse_shortcut_code(key: &str) -> (r: Option<char>)
    ensures
        r == key_of(key@),
{
    let l = crate::text::chars_of(crate::text::to_lower(key).as_str());
    if l.len() == 1 && (('a' <= l[0] && l[0] <= 'z') || ('0' <= l[0] && l[0] <= '9')) {
        Some(l[0])
    } else {
        None
    }
}

/// Reads a shortcut text (see `shortcut_spec`).
pub fn parse_shortcut_string(s: &str) -> (r: Result<ShortcutSpec, String>)
    ensures
        match r {
            Ok(v) => shortcut_spec(s@) == Ok::<ShortcutSpec, Seq<char>>(v),
            Err(e) => shortcut_spec(s@) == Err::<ShortcutSpec, Seq<char>>(e@),
        },
{
    let chars = crate::text::chars_of(s);
    let parts = crate::text::split_on(chars.as_slice(), '+');
    let mut ctrl = false;
    let mut alt = false;
    let mut shift = false;
    let mut key: Option<char> = None;
    let mut i: usize = 0;
    while i < parts.len()
        invariant
            i <= parts@.len(),
            (ctrl, alt, shift, key) == shortcut_state(crate::text::vv(parts@).take(i as int)),
        decreases parts.len() - i,
    {
        proof {
            let t = crate::text::vv(parts@).take(i + 1);
            assert(t.drop_last() =~= crate::text::vv(parts@).take(i as int));
            assert(t.last() == parts@[i as int]@);
        }
        let p = crate::text::to_lower(crate::text::string_of(crate::text::trim_vec(parts[i].as_slice()).as_slice()).as_str());
        if is_text(&p, "ctrl") || is_text(&p, "control") {
            ctrl = true;
        } else if is_text(&p, "alt") {
            alt = true;
        } else if is_text(&p, "shift") {
            shift = true;
        } else {
            key = parse_shortcut_code(p.as_str());
        }
        i = i + 1;
    }
    proof {
        assert(crate::text::vv(parts@).take(parts@.len() as int) =~= crate::text::vv(parts@));
    }
    match key {
        Some(k) => Ok(ShortcutSpec { ctrl, alt, shift, key: k }),
        None => {
            let mut msg = crate::text::chars_of("无法解析快捷键: ");
            let ghost base = msg@;
            let mut j: usize = 0;
            while j < chars.len()
                invariant
                    j <= chars@.len(),
                    msg@ == base + chars@.take(j as int),
                decreases chars.len() - j,
            {
                msg.push(chars[j]);
                proof {
                    assert(chars@.take(j + 1) =~= chars@.take(j as int).push(chars@[j as int]));
                    assert(msg@ =~= base + chars@.take(j + 1));
                }
                j = j + 1;
            }
            proof {
                assert(chars@.take(chars@.len() as int) =~= chars@);
            }
            Err(crate::text::string_of(msg.as_slice()))
        },
    }
}

} // verus!
