//! Properties of the library that span its operations.

use crate::config::{normalized_view, patched, AppConfigPatch, ConfigView};
use crate::models::{TaskPriority, TaskView};
use crate::text::{lower_text, trim};
use crate::reminder::{due_list, ids_of, unfired};
use crate::store::current::{
    advance_target, any_stale, deleted, has_open_id, normal_map, normalized, open_current,
    set_current_spec, stale_current,
};
use crate::store::edits::{at_id, put};
use crate::store::focus::{any_running_other, focused, running_other, start_focus_spec, stop_others};
use crate::store::lifecycle::{complete_spec, completed_task, next_after, next_recurring, reopen_spec, stopped};
use crate::clock::in_range;
use crate::csv::{first_value, title_keys};
use crate::store::archive::row_values;
use crate::store::export::export_cells;
use crate::lexer::find_first;
use crate::panel::{history_select, history_spec, in_history};
use crate::parser::{date_from, date_of, day_word, every_weekday_word, weekday_word};
use crate::store::order::{compare, ins_at, isort, keep, select, TaskFilter, TaskOrder};
use crate::store::queries::{completed, current_of, incomplete};
use crate::store::{
    expire, expire_all, has_id, id_index, ids_distinct, law_upsert_reads_back, lemma_expire_keeps_wf,
    lemma_id_index, lemma_without_id, pos_sorted, same_keys, task_with, upsert, without_id, StoreView,
};
use vstd::prelude::*;

verus! {

/// A priority read back from its stored number is the same priority.
pub proof fn law_priority_raw_roundtrip(p: TaskPriority)
    ensures
        TaskPriority::spec_from_raw(Some(p.raw())) == p,
{
}

/// Normalizing settings twice is normalizing them once, and normalized settings
/// are within their bounds.
pub proof fn law_normalize_config_idempotent(c: ConfigView)
    ensures
        normalized_view(normalized_view(c)) == normalized_view(c),
        normalized_view(c).capsule_transparency_percent <= 50,
        15 <= normalized_view(c).panel_refresh_interval_secs <= 300,
{
}

/// Applying a settings change to settings within their bounds keeps them within
/// their bounds, and keeps the island's vertical offset within 0..=120.
pub proof fn law_patch_keeps_bounds(c: ConfigView, p: AppConfigPatch)
    requires
        c.capsule_transparency_percent <= 50,
        15 <= c.panel_refresh_interval_secs <= 300,
        0 <= c.island_offset_y <= 120,
    ensures
        patched(c, p).capsule_transparency_percent <= 50,
        15 <= patched(c, p).panel_refresh_interval_secs <= 300,
        0 <= patched(c, p).island_offset_y <= 120,
{
}

/// After a reload on `today`, every task in today's queue was put there on `today`.
pub proof fn law_reload_leaves_only_todays_queue(s: Seq<TaskView>, today: Seq<char>)
    ensures
        forall|i: int|
            0 <= i < s.len() && (#[trigger] expire_all(s, today)[i]).today_sort_index is Some
                ==> expire_all(s, today)[i].today_added_date == Some(today),
{
}

/// Reloading twice on the same date is reloading once.
pub proof fn law_reload_idempotent(s: Seq<TaskView>, today: Seq<char>)
    ensures
        expire_all(expire_all(s, today), today) == expire_all(s, today),
{
    crate::store::current::lemma_expire_idem(s, today);
}

proof fn lemma_normal_map_keys(s: Seq<TaskView>, clock: i64)
    ensures
        normal_map(s, clock).len() == s.len(),
        forall|i: int|
            0 <= i < s.len() ==> same_keys(#[trigger] normal_map(s, clock)[i], s[i])
                && normal_map(s, clock)[i].is_completed == s[i].is_completed
                && normal_map(s, clock)[i].completed_at == s[i].completed_at,
{
}

/// After the current marks are normalized, no completed task is current, at most
/// one open task is current, and the focus attention, if any, names an open task.
pub proof fn law_normalized_current(v: StoreView, clock: i64, today: Seq<char>)
    requires
        v.wf(),
    ensures
        ({
            let n = normalized(v, clock, today);
            &&& forall|i: int| 0 <= i < n.tasks.len() && (#[trigger] n.tasks[i]).is_current ==> !n.tasks[i].is_completed
            &&& forall|i: int, j: int|
                0 <= i < n.tasks.len() && 0 <= j < n.tasks.len() && open_current(#[trigger] n.tasks[i])
                    && open_current(#[trigger] n.tasks[j]) ==> i == j
            &&& n.focus_attention_task_id matches Some(id) ==> has_open_id(n.tasks, id)
        }),
{
    let n = normalized(v, clock, today);
    let s = v.tasks;
    if any_stale(s) {
        let m = normal_map(s, clock);
        assert forall|i: int| 0 <= i < n.tasks.len() && (#[trigger] n.tasks[i]).is_current implies !n.tasks[i].is_completed by {
            assert(n.tasks[i] == expire(m[i], today));
        }
        assert forall|i: int, j: int|
            0 <= i < n.tasks.len() && 0 <= j < n.tasks.len() && open_current(#[trigger] n.tasks[i])
                && open_current(#[trigger] n.tasks[j]) implies i == j by {
            assert(n.tasks[i] == expire(m[i], today));
            assert(n.tasks[j] == expire(m[j], today));
            if i < j {
                assert(open_current(s[i]));
                assert(stale_current(s, j));
            } else if j < i {
                assert(open_current(s[j]));
                assert(stale_current(s, i));
            }
        }
        if let Some(id) = n.focus_attention_task_id {
            let k = choose|k: int| 0 <= k < s.len() && !s[k].is_completed && #[trigger] s[k].id == id;
            assert(n.tasks[k] == expire(m[k], today));
            assert(!n.tasks[k].is_completed && n.tasks[k].id == id);
        }
    } else {
        assert forall|i: int| 0 <= i < n.tasks.len() && (#[trigger] n.tasks[i]).is_current implies !n.tasks[i].is_completed by {
            assert(!stale_current(s, i));
        }
        assert forall|i: int, j: int|
            0 <= i < n.tasks.len() && 0 <= j < n.tasks.len() && open_current(#[trigger] n.tasks[i])
                && open_current(#[trigger] n.tasks[j]) implies i == j by {
            if i < j {
                assert(!stale_current(s, j));
            } else if j < i {
                assert(!stale_current(s, i));
            }
        }
    }
}

/// A deleted task is gone from the list, and no other task is lost.
pub proof fn law_delete_removes(v: StoreView, id: u128, other: u128, clock: i64, today: Seq<char>)
    requires
        v.wf(),
    ensures
        !has_id(deleted(v, id, clock, today).tasks, id),
        other != id && has_id(v.tasks, other) ==> has_id(deleted(v, id, clock, today).tasks, other),
{
    lemma_without_id(v.tasks, id);
    let w = without_id(v.tasks, id);
    let e = expire_all(w, today);
    lemma_expire_keeps_wf(w, today);
    let u = StoreView {
        tasks: e,
        last_error: None,
        focus_attention_task_id: if v.focus_attention_task_id == Some(id) {
            None
        } else {
            v.focus_attention_task_id
        },
    };
    let n = normalized(u, clock, today);
    lemma_normal_map_keys(e, clock);
    assert forall|k: int| 0 <= k < n.tasks.len() implies #[trigger] n.tasks[k].id == e[k].id by {
        if any_stale(e) {
            assert(n.tasks[k] == expire(normal_map(e, clock)[k], today));
        }
    }
    if has_id(n.tasks, id) {
        let k = choose|k: int| 0 <= k < n.tasks.len() && n.tasks[k].id == id;
        assert(e[k].id == id);
        assert(w[k].id == id);
    }
    if other != id && has_id(v.tasks, other) {
        assert(task_with(w, other) == task_with(v.tasks, other));
        let j = id_index(w, other);
        assert(n.tasks[j].id == other);
    }
}

/// Open tasks and completed tasks together are all tasks.
pub proof fn law_open_and_completed_partition(s: Seq<TaskView>)
    ensures
        incomplete(s).len() + completed(s).len() == s.len(),
    decreases s.len(),
{
    if s.len() > 0 {
        law_open_and_completed_partition(s.drop_last());
    }
}

/// A task of a selection is a task of the list that the selection keeps.
pub proof fn lemma_select_member(
    f: TaskFilter,
    t: Seq<char>,
    x: Seq<char>,
    a: int,
    id: u128,
    s: Seq<TaskView>,
    k: int,
)
    requires
        0 <= k < select(f, t, x, a, id, s).len(),
    ensures
        exists|j: int|
            0 <= j < s.len() && #[trigger] s[j] == select(f, t, x, a, id, s)[k] && keep(f, t, x, a, id, s[j]),
    decreases s.len(),
{
    let r = select(f, t, x, a, id, s.drop_last());
    crate::store::order::lemma_select_len(f, t, x, a, id, s.drop_last());
    if k < r.len() {
        lemma_select_member(f, t, x, a, id, s.drop_last(), k);
        let j = choose|j: int|
            0 <= j < s.drop_last().len() && #[trigger] s.drop_last()[j] == r[k] && keep(f, t, x, a, id, s.drop_last()[j]);
        assert(s[j] == s.drop_last()[j]);
    } else {
        assert(s[s.len() - 1] == s.last());
    }
}

/// The only open task marked current is the current task.
proof fn lemma_single_current(s: Seq<TaskView>, k: int)
    requires
        0 <= k < s.len(),
        open_current(s[k]),
        forall|j: int| 0 <= j < s.len() && j != k ==> !open_current(#[trigger] s[j]),
    ensures
        current_of(s) == Some(s[k]),
    decreases s.len(),
{
    let c = select(TaskFilter::Current, seq![], seq![], 0, 0, incomplete(s));
    assert(c.len() > 0) by {
        lemma_current_in_select(s, k);
    }
    lemma_select_member(TaskFilter::Current, seq![], seq![], 0, 0, incomplete(s), 0);
    let j = choose|j: int|
        0 <= j < incomplete(s).len() && #[trigger] incomplete(s)[j] == c[0] && keep(TaskFilter::Current, seq![], seq![], 0, 0, incomplete(s)[j]);
    lemma_select_member(TaskFilter::Incomplete, seq![], seq![], 0, 0, s, j);
    let i = choose|i: int|
        0 <= i < s.len() && #[trigger] s[i] == incomplete(s)[j] && keep(TaskFilter::Incomplete, seq![], seq![], 0, 0, s[i]);
    assert(open_current(s[i]));
}

proof fn lemma_select_push(f: TaskFilter, s: Seq<TaskView>, x: TaskView)
    ensures
        select(f, seq![], seq![], 0, 0, s.push(x)) == (if keep(f, seq![], seq![], 0, 0, x) {
            select(f, seq![], seq![], 0, 0, s).push(x)
        } else {
            select(f, seq![], seq![], 0, 0, s)
        }),
{
    assert(s.push(x).drop_last() =~= s);
    assert(s.push(x).last() == x);
}

proof fn lemma_current_in_select(s: Seq<TaskView>, k: int)
    requires
        0 <= k < s.len(),
        open_current(s[k]),
    ensures
        select(TaskFilter::Current, seq![], seq![], 0, 0, incomplete(s)).len() > 0,
    decreases s.len(),
{
    let p = s.drop_last();
    let x = s.last();
    assert(s =~= p.push(x));
    lemma_select_push(TaskFilter::Incomplete, p, x);
    if k < s.len() - 1 {
        assert(p[k] == s[k]);
        lemma_current_in_select(p, k);
        if !x.is_completed {
            lemma_select_push(TaskFilter::Current, incomplete(p), x);
        }
    } else {
        lemma_select_push(TaskFilter::Current, incomplete(p), x);
    }
}

/// The first place of an identifier that occurs in a list is a place of the list.
proof fn lemma_pos_of_id_in_range(s: Seq<TaskView>, id: u128)
    requires
        s.len() > 0,
    ensures
        0 <= crate::store::current::pos_of_id(s, id) < s.len(),
{
    if exists|k: int| 0 <= k < s.len() && s[k].id == id {
        let q = choose|k: int| 0 <= k < s.len() && s[k].id == id;
        lemma_first_witness(s, id, q);
    }
}

proof fn lemma_first_witness(s: Seq<TaskView>, id: u128, q: int)
    requires
        0 <= q < s.len(),
        s[q].id == id,
    ensures
        exists|k: int| 0 <= k < s.len() && s[k].id == id && forall|j: int| 0 <= j < k ==> s[j].id != id,
    decreases q,
{
    if exists|j: int| 0 <= j < q && s[j].id == id {
        let j = choose|j: int| 0 <= j < q && s[j].id == id;
        lemma_first_witness(s, id, j);
    } else {
        assert(forall|j: int| 0 <= j < q ==> s[j].id != id);
    }
}

/// The place in the open tasks that `advance_target` names.
proof fn lemma_advance_place(s: Seq<TaskView>) -> (k: int)
    requires
        incomplete(s).len() > 0,
    ensures
        0 <= k < incomplete(s).len(),
        advance_target(s) == incomplete(s)[k].id,
{
    let act = incomplete(s);
    match current_of(s) {
        None => 0,
        Some(c) => {
            let idx = crate::store::current::pos_of_id(act, c.id);
            lemma_pos_of_id_in_range(act, c.id);
            if idx + 1 >= act.len() {
                0
            } else {
                idx + 1
            }
        },
    }
}

/// Making an open task current makes it the current task, and it is the only open
/// task marked current.
pub proof fn law_set_current_makes_current(
    old: StoreView,
    new: StoreView,
    r: Result<(), String>,
    id: u128,
    clock: i64,
    today: Seq<char>,
)
    requires
        old.wf(),
        set_current_spec(old, new, r, id, clock, today),
        has_id(old.tasks, id),
        !at_id(old.tasks, id).is_completed,
    ensures
        r is Ok,
        current_of(new.tasks) matches Some(t) && t.id == id,
{
    let v1 = crate::store::current::after_clear(old, clock, today);
    let s = old.tasks;
    let k = id_index(s, id);
    let m = crate::store::current::clear_map(s, clock);
    assert forall|i: int| 0 <= i < s.len() implies same_keys(#[trigger] v1.tasks[i], s[i]) && v1.tasks[i].is_completed
        == s[i].is_completed && !open_current(v1.tasks[i]) by {
        if crate::store::current::any_open_current(s) {
            assert(v1.tasks[i] == expire(m[i], today));
        }
    }
    assert(v1.tasks.len() == s.len());
    assert(v1.tasks[k].id == id);
    lemma_expire_keeps_wf(m, today);
    crate::store::current::lemma_update_all_keys(s, v1.tasks);
    lemma_id_index(v1.tasks, id, k);
    let t2 = crate::store::current::made_current(at_id(v1.tasks, id), clock);
    let u = v1.tasks.update(k, t2);
    assert(new.tasks == expire_all(u, today));
    assert(open_current(new.tasks[k])) by {
        assert(new.tasks[k] == expire(u[k], today));
    }
    assert forall|j: int| 0 <= j < new.tasks.len() && j != k implies !open_current(#[trigger] new.tasks[j]) by {
        assert(new.tasks[j] == expire(u[j], today));
        assert(u[j] == v1.tasks[j]);
    }
    lemma_single_current(new.tasks, k);
}

/// Advancing makes the next open task (see `advance_target`) the current task.
pub proof fn law_advance_makes_next_current(
    old: StoreView,
    new: StoreView,
    r: Result<(), String>,
    clock: i64,
    today: Seq<char>,
)
    requires
        old.wf(),
        incomplete(old.tasks).len() > 0,
        set_current_spec(old, new, r, advance_target(old.tasks), clock, today),
    ensures
        r is Ok,
        current_of(new.tasks) matches Some(t) && t.id == advance_target(old.tasks),
{
    let s = old.tasks;
    let act = incomplete(s);
    let target = advance_target(s);
    let k = lemma_advance_place(s);
    assert(target == act[k].id);
    lemma_select_member(TaskFilter::Incomplete, seq![], seq![], 0, 0, s, k);
    let j = choose|j: int| 0 <= j < s.len() && #[trigger] s[j] == act[k] && keep(TaskFilter::Incomplete, seq![], seq![], 0, 0, s[j]);
    lemma_id_index(s, target, j);
    law_set_current_makes_current(old, new, r, target, clock, today);
}

/// Reopening a completed task leaves it open with no completion instant.
pub proof fn law_reopen_opens(
    old: StoreView,
    new: StoreView,
    r: Result<(), String>,
    id: u128,
    now: i64,
    clock: i64,
    today: Seq<char>,
)
    requires
        old.wf(),
        reopen_spec(old, new, r, id, now, clock, today),
        has_id(old.tasks, id),
        at_id(old.tasks, id).is_completed,
    ensures
        r is Ok,
        task_with(new.tasks, id) matches Some(t) && !t.is_completed && t.completed_at is None,
{
    let s = old.tasks;
    let k = id_index(s, id);
    let t = at_id(s, id);
    let t2 = TaskView { is_completed: false, completed_at: None, updated_at: now, ..t };
    let u = s.update(k, t2);
    crate::store::lemma_update_keeps_wf(s, k, t2);
    let e = expire_all(u, today);
    lemma_expire_keeps_wf(u, today);
    let v = put(old, id, t2, today);
    lemma_normal_map_keys(e, clock);
    let n = normalized(v, clock, today);
    assert(n.tasks[k].id == id && !n.tasks[k].is_completed && n.tasks[k].completed_at is None) by {
        assert(e[k] == expire(u[k], today));
        if any_stale(e) {
            assert(n.tasks[k] == expire(normal_map(e, clock)[k], today));
        }
    }
    assert forall|q: int| 0 <= q < n.tasks.len() implies #[trigger] n.tasks[q].id == e[q].id by {
        if any_stale(e) {
            assert(n.tasks[q] == expire(normal_map(e, clock)[q], today));
        }
    }
    assert(ids_distinct(n.tasks)) by {
        assert forall|a: int, b: int|
            0 <= a < n.tasks.len() && 0 <= b < n.tasks.len() && a != b implies #[trigger] n.tasks[a].id
            != #[trigger] n.tasks[b].id by {
            assert(e[a].id != e[b].id);
        }
    }
    lemma_id_index(n.tasks, id, k);
}

/// Normalizing the current marks keeps each task's identifier and completion, and
/// never makes a task current.
proof fn lemma_normalized_keeps(v: StoreView, clock: i64, today: Seq<char>, j: int)
    requires
        ids_distinct(v.tasks),
        0 <= j < v.tasks.len(),
    ensures
        normalized(v, clock, today).tasks.len() == v.tasks.len(),
        ids_distinct(normalized(v, clock, today).tasks),
        normalized(v, clock, today).tasks[j].id == v.tasks[j].id,
        normalized(v, clock, today).tasks[j].is_completed == v.tasks[j].is_completed,
        normalized(v, clock, today).tasks[j].completed_at == v.tasks[j].completed_at,
        !v.tasks[j].is_current ==> !normalized(v, clock, today).tasks[j].is_current,
        normalized(v, clock, today).tasks[j] == v.tasks[j] || normalized(v, clock, today).tasks[j] == expire(
            v.tasks[j],
            today,
        ) || normalized(v, clock, today).tasks[j] == expire(
            crate::store::current::uncurrent(v.tasks[j], clock),
            today,
        ),
        !v.tasks[j].is_current ==> (normalized(v, clock, today).tasks[j] == v.tasks[j]
            || normalized(v, clock, today).tasks[j] == expire(v.tasks[j], today)),
{
    let s = v.tasks;
    let n = normalized(v, clock, today);
    lemma_normal_map_keys(s, clock);
    if any_stale(s) {
        assert forall|q: int| 0 <= q < n.tasks.len() implies #[trigger] n.tasks[q].id == s[q].id by {
            assert(n.tasks[q] == expire(normal_map(s, clock)[q], today));
        }
        assert(n.tasks[j] == expire(normal_map(s, clock)[j], today));
        assert(ids_distinct(n.tasks)) by {
            assert forall|a: int, b: int|
                0 <= a < n.tasks.len() && 0 <= b < n.tasks.len() && a != b implies #[trigger] n.tasks[a].id
                != #[trigger] n.tasks[b].id by {
                assert(s[a].id != s[b].id);
            }
        }
    }
}

/// Two tasks agree on title, notes, priority, tags and due instant.
pub open spec fn same_text_fields(a: TaskView, b: TaskView) -> bool {
    &&& a.title == b.title
    &&& a.notes == b.notes
    &&& a.priority_raw_value == b.priority_raw_value
    &&& a.tags_raw_value == b.tags_raw_value
    &&& a.due_at == b.due_at
}

/// Completing an open task leaves it completed at the given instant and not
/// current; a fresh identifier for the next occurrence of a repeating task takes
/// nothing from it.
pub proof fn law_complete_completes(
    old: StoreView,
    new: StoreView,
    r: Result<(), String>,
    id: u128,
    now: i64,
    clock: i64,
    today: Seq<char>,
    next_id: u128,
    sub_ids: Seq<u128>,
)
    requires
        old.wf(),
        complete_spec(old, new, r, id, now, clock, today, next_id, sub_ids),
        has_id(old.tasks, id),
        !at_id(old.tasks, id).is_completed,
        !has_id(old.tasks, next_id),
    ensures
        r is Ok,
        task_with(new.tasks, id) matches Some(t) && t.is_completed && t.completed_at == Some(now)
            && !t.is_current,
        ids_distinct(new.tasks),
        task_with(new.tasks, id) matches Some(t) && same_text_fields(t, at_id(old.tasks, id)),
{
    let s = old.tasks;
    let k = id_index(s, id);
    let src = at_id(s, id);
    let t2 = completed_task(src, now);
    assert(same_keys(t2, src));
    crate::store::lemma_update_keeps_wf(s, k, t2);
    let u = s.update(k, t2);
    let e = expire_all(u, today);
    lemma_expire_keeps_wf(u, today);
    assert(e[k] == expire(u[k], today));
    assert(e[k].id == id && e[k].is_completed && e[k].completed_at == Some(now) && !e[k].is_current);
    assert(next_id != id);
    let v2 = StoreView {
        focus_attention_task_id: if old.focus_attention_task_id == Some(id) {
            None
        } else {
            old.focus_attention_task_id
        },
        ..put(old, id, t2, today)
    };
    assert(v2.tasks == e);
    let j: int = match next_recurring(src, s, clock, today, next_id, sub_ids) {
        Some(x) => {
            law_upsert_reads_back(e, x);
            lemma_id_index(e, id, k);
            let w = upsert(e, x);
            let jj = id_index(w, id);
            assert(w[jj] == e[k]);
            lemma_expire_keeps_wf(w, today);
            assert(expire_all(w, today)[jj] == expire(w[jj], today));
            jj
        },
        None => k,
    };
    let v3 = match next_recurring(src, s, clock, today, next_id, sub_ids) {
        Some(x) => StoreView { tasks: expire_all(upsert(v2.tasks, x), today), last_error: None, ..v2 },
        None => v2,
    };
    assert(0 <= j < v3.tasks.len());
    assert(v3.tasks[j].id == id && v3.tasks[j].is_completed && v3.tasks[j].completed_at == Some(now)
        && !v3.tasks[j].is_current);
    assert(ids_distinct(v3.tasks));
    lemma_normalized_keeps(v3, clock, today, j);
    let n = normalized(v3, clock, today);
    assert(new == n);
    lemma_id_index(n.tasks, id, j);
}

/// Reopening a completed task in a list without repeated identifiers: it is open,
/// has no completion instant, carries the reopening instant as its update stamp,
/// and keeps its title, notes, priority, tags and due instant.
proof fn lemma_reopen_fields(
    old: StoreView,
    new: StoreView,
    r: Result<(), String>,
    id: u128,
    now: i64,
    clock: i64,
    today: Seq<char>,
)
    requires
        ids_distinct(old.tasks),
        reopen_spec(old, new, r, id, now, clock, today),
        has_id(old.tasks, id),
        at_id(old.tasks, id).is_completed,
        !at_id(old.tasks, id).is_current,
    ensures
        r is Ok,
        task_with(new.tasks, id) matches Some(t) && !t.is_completed && t.completed_at is None
            && t.updated_at == now && same_text_fields(t, at_id(old.tasks, id)),
{
    let s = old.tasks;
    let k = id_index(s, id);
    let t = at_id(s, id);
    let t2 = TaskView { is_completed: false, completed_at: None, updated_at: now, ..t };
    let u = s.update(k, t2);
    let e = expire_all(u, today);
    assert(ids_distinct(e)) by {
        assert forall|a: int, b: int|
            0 <= a < e.len() && 0 <= b < e.len() && a != b implies #[trigger] e[a].id != #[trigger] e[b].id by {
            assert(e[a] == expire(u[a], today));
            assert(e[b] == expire(u[b], today));
        }
    }
    assert(e[k] == expire(u[k], today));
    let v = put(old, id, t2, today);
    assert(v.tasks == e);
    lemma_normalized_keeps(v, clock, today, k);
    let n = normalized(v, clock, today);
    lemma_id_index(n.tasks, id, k);
}

/// Two lists of the same length whose tasks agree place by place on completion
/// have as many open tasks.
proof fn lemma_same_completion_count(a: Seq<TaskView>, b: Seq<TaskView>)
    requires
        a.len() == b.len(),
        forall|i: int| 0 <= i < a.len() ==> (#[trigger] a[i]).is_completed == b[i].is_completed,
    ensures
        incomplete(a).len() == incomplete(b).len(),
    decreases a.len(),
{
    if a.len() > 0 {
        let pa = a.drop_last();
        let pb = b.drop_last();
        assert forall|i: int| 0 <= i < pa.len() implies (#[trigger] pa[i]).is_completed == pb[i].is_completed by {
            assert(pa[i] == a[i] && pb[i] == b[i]);
        }
        lemma_same_completion_count(pa, pb);
        assert(a =~= pa.push(a.last()));
        assert(b =~= pb.push(b.last()));
        lemma_select_push(TaskFilter::Incomplete, pa, a.last());
        lemma_select_push(TaskFilter::Incomplete, pb, b.last());
        assert(a[a.len() - 1].is_completed == b[b.len() - 1].is_completed);
    }
}

/// Normalizing keeps every task's completion, place by place.
proof fn lemma_normalized_flags(v: StoreView, clock: i64, today: Seq<char>)
    requires
        ids_distinct(v.tasks),
    ensures
        normalized(v, clock, today).tasks.len() == v.tasks.len(),
        forall|i: int|
            0 <= i < v.tasks.len() ==> (#[trigger] normalized(v, clock, today).tasks[i]).is_completed
                == v.tasks[i].is_completed,
{
    assert forall|i: int| 0 <= i < v.tasks.len() implies (#[trigger] normalized(v, clock, today).tasks[i]).is_completed
        == v.tasks[i].is_completed by {
        lemma_normalized_keeps(v, clock, today, i);
    }
    if v.tasks.len() > 0 {
        lemma_normalized_keeps(v, clock, today, 0);
    } else {
        lemma_normal_map_keys(v.tasks, clock);
    }
}

/// Without a next occurrence, completing and reopening a task leaves every task's
/// completion as it was.
proof fn lemma_no_repeat_round_trip_flags(
    s0: StoreView,
    s1: StoreView,
    s2: StoreView,
    r1: Result<(), String>,
    r2: Result<(), String>,
    id: u128,
    t1: i64,
    t2: i64,
    c1: i64,
    d1: Seq<char>,
    next_id: u128,
    sub_ids: Seq<u128>,
    c2: i64,
    d2: Seq<char>,
)
    requires
        s0.wf(),
        has_id(s0.tasks, id),
        !at_id(s0.tasks, id).is_completed,
        complete_spec(s0, s1, r1, id, t1, c1, d1, next_id, sub_ids),
        reopen_spec(s1, s2, r2, id, t2, c2, d2),
        next_recurring(at_id(s0.tasks, id), s0.tasks, c1, d1, next_id, sub_ids) is None,
    ensures
        incomplete(s2.tasks).len() == incomplete(s0.tasks).len(),
{
    let s = s0.tasks;
    let k = id_index(s, id);
    let src = at_id(s, id);
    let tc = completed_task(src, t1);
    let u = s.update(k, tc);
    let e = expire_all(u, d1);
    assert(ids_distinct(e)) by {
        assert forall|a: int, b: int|
            0 <= a < e.len() && 0 <= b < e.len() && a != b implies #[trigger] e[a].id != #[trigger] e[b].id by {
            assert(e[a] == expire(u[a], d1));
            assert(e[b] == expire(u[b], d1));
        }
    }
    let v2 = StoreView {
        focus_attention_task_id: if s0.focus_attention_task_id == Some(id) {
            None
        } else {
            s0.focus_attention_task_id
        },
        ..put(s0, id, tc, d1)
    };
    assert(v2.tasks == e);
    lemma_normalized_flags(v2, c1, d1);
    lemma_normalized_keeps(v2, c1, d1, k);
    assert(s1 == normalized(v2, c1, d1));
    let w = s1.tasks;
    assert(w[k].id == id && w[k].is_completed);
    lemma_id_index(w, id, k);
    let t = at_id(w, id);
    let tr = TaskView { is_completed: false, completed_at: None, updated_at: t2, ..t };
    let u2 = w.update(k, tr);
    let e2 = expire_all(u2, d2);
    assert(ids_distinct(e2)) by {
        assert forall|a: int, b: int|
            0 <= a < e2.len() && 0 <= b < e2.len() && a != b implies #[trigger] e2[a].id != #[trigger] e2[b].id by {
            assert(e2[a] == expire(u2[a], d2));
            assert(e2[b] == expire(u2[b], d2));
            assert(w[a].id != w[b].id);
        }
    }
    let v = put(s1, id, tr, d2);
    assert(v.tasks == e2);
    lemma_normalized_flags(v, c2, d2);
    assert(s2 == normalized(v, c2, d2));
    assert forall|i: int| 0 <= i < s.len() implies (#[trigger] s2.tasks[i]).is_completed == s[i].is_completed by {
        assert(s2.tasks[i].is_completed == e2[i].is_completed);
        assert(e2[i] == expire(u2[i], d2));
        assert(w[i].is_completed == e[i].is_completed);
        assert(e[i] == expire(u[i], d1));
    }
    lemma_same_completion_count(s2.tasks, s);
}

/// Completing an open task and then reopening it gives back an open task with no
/// completion instant, stamped with the reopening instant, with its title, notes,
/// priority, tags and due instant as before; the next occurrence of a repeating
/// task takes a fresh identifier, and without one the number of open tasks is as
/// before.
pub proof fn law_complete_then_reopen(
    s0: StoreView,
    s1: StoreView,
    s2: StoreView,
    r1: Result<(), String>,
    r2: Result<(), String>,
    id: u128,
    t1: i64,
    t2: i64,
    c1: i64,
    d1: Seq<char>,
    next_id: u128,
    sub_ids: Seq<u128>,
    c2: i64,
    d2: Seq<char>,
)
    requires
        s0.wf(),
        has_id(s0.tasks, id),
        !at_id(s0.tasks, id).is_completed,
        !has_id(s0.tasks, next_id),
        complete_spec(s0, s1, r1, id, t1, c1, d1, next_id, sub_ids),
        reopen_spec(s1, s2, r2, id, t2, c2, d2),
    ensures
        r1 is Ok,
        r2 is Ok,
        task_with(s2.tasks, id) matches Some(t) && !t.is_completed && t.completed_at is None
            && t.updated_at == t2 && same_text_fields(t, at_id(s0.tasks, id)),
        next_recurring(at_id(s0.tasks, id), s0.tasks, c1, d1, next_id, sub_ids) is None
            ==> incomplete(s2.tasks).len() == incomplete(s0.tasks).len(),
{
    law_complete_completes(s0, s1, r1, id, t1, c1, d1, next_id, sub_ids);
    if next_recurring(at_id(s0.tasks, id), s0.tasks, c1, d1, next_id, sub_ids) is None {
        lemma_no_repeat_round_trip_flags(s0, s1, s2, r1, r2, id, t1, t2, c1, d1, next_id, sub_ids, c2, d2);
    }
    let t = task_with(s1.tasks, id).unwrap();
    let j = id_index(s1.tasks, id);
    lemma_id_index(s1.tasks, id, j);
    assert(at_id(s1.tasks, id) == t);
    lemma_reopen_fields(s1, s2, r2, id, t2, c2, d2);
}

/// Completing an open repeating task whose next date exists adds its next
/// occurrence under the fresh identifier: open, due on the next date, with the
/// same title, notes, priority, project and estimate, and the source's repeat rule
/// stored under its word.
pub proof fn law_complete_repeats(
    old: StoreView,
    new: StoreView,
    r: Result<(), String>,
    id: u128,
    now: i64,
    clock: i64,
    today: Seq<char>,
    next_id: u128,
    sub_ids: Seq<u128>,
)
    requires
        old.wf(),
        complete_spec(old, new, r, id, now, clock, today, next_id, sub_ids),
        has_id(old.tasks, id),
        !at_id(old.tasks, id).is_completed,
        !has_id(old.tasks, next_id),
        at_id(old.tasks, id).repeat_rule() is Some,
        at_id(old.tasks, id).due_at is Some,
        next_after(at_id(old.tasks, id).due_at.unwrap(), at_id(old.tasks, id).repeat_rule().unwrap()) is Some,
    ensures
        r is Ok,
        task_with(new.tasks, next_id) matches Some(t) && {
            let src = at_id(old.tasks, id);
            &&& !t.is_completed
            &&& t.title == src.title
            &&& t.notes == src.notes
            &&& t.due_at == Some(
                next_after(src.due_at.unwrap(), src.repeat_rule().unwrap()).unwrap() as i64,
            )
            &&& t.priority() == src.priority()
            &&& t.repeat_rule_raw_value == crate::models::rule_raw(src.repeat_rule())
            &&& t.project_name == src.project_name
            &&& t.estimated_minutes == src.estimated_minutes
        },
{
    let s = old.tasks;
    let k = id_index(s, id);
    let src = at_id(s, id);
    let t2 = completed_task(src, now);
    assert(same_keys(t2, src));
    crate::store::lemma_update_keeps_wf(s, k, t2);
    let u = s.update(k, t2);
    let e = expire_all(u, today);
    lemma_expire_keeps_wf(u, today);
    let x = next_recurring(src, s, clock, today, next_id, sub_ids).unwrap();
    assert(x.id == next_id);
    law_upsert_reads_back(e, x);
    let w = upsert(e, x);
    let jj = id_index(w, next_id);
    assert(w[jj] == x);
    lemma_expire_keeps_wf(w, today);
    let v2 = StoreView {
        focus_attention_task_id: if old.focus_attention_task_id == Some(id) {
            None
        } else {
            old.focus_attention_task_id
        },
        ..put(old, id, t2, today)
    };
    assert(v2.tasks == e);
    let v3 = StoreView { tasks: expire_all(w, today), last_error: None, ..v2 };
    assert(v3.tasks[jj] == expire(x, today));
    lemma_normalized_keeps(v3, clock, today, jj);
    let n = normalized(v3, clock, today);
    assert(new == n);
    lemma_id_index(n.tasks, next_id, jj);
    let t = n.tasks[jj];
    assert(t.priority() == src.priority());
}

/// What stopping the other running clocks keeps and changes, place by place.
proof fn lemma_stop_others_places(s: Seq<TaskView>, id: u128, now: i64, today: Seq<char>)
    requires
        ids_distinct(s),
    ensures
        ({
            let v = if any_running_other(s, id) {
                expire_all(stop_others(s, id, now), today)
            } else {
                s
            };
            &&& v.len() == s.len()
            &&& forall|i: int|
                0 <= i < s.len() ==> {
                    &&& same_keys(#[trigger] v[i], s[i])
                    &&& v[i].is_completed == s[i].is_completed
                    &&& v[i].is_current == s[i].is_current
                    &&& (s[i].id == id ==> v[i].focus_started_at == s[i].focus_started_at)
                    &&& (s[i].id != id && !s[i].is_completed ==> v[i].focus_started_at is None)
                    &&& (running_other(s[i], id) ==> v[i].focus_accumulated_seconds == stopped(
                        s[i],
                        now,
                    ).focus_accumulated_seconds)
                }
        }),
{
    let w = stop_others(s, id, now);
    if any_running_other(s, id) {
        let v = expire_all(w, today);
        assert forall|i: int| 0 <= i < s.len() implies same_keys(#[trigger] v[i], s[i]) by {
            assert(v[i] == expire(w[i], today));
        }
    }
}

/// What clearing the current marks keeps, place by place; no open task is left
/// current.
proof fn lemma_after_clear_places(v: StoreView, clock: i64, today: Seq<char>)
    ensures
        ({
            let c = crate::store::current::after_clear(v, clock, today).tasks;
            &&& c.len() == v.tasks.len()
            &&& forall|i: int|
                0 <= i < v.tasks.len() ==> {
                    &&& same_keys(#[trigger] c[i], v.tasks[i])
                    &&& c[i].is_completed == v.tasks[i].is_completed
                    &&& c[i].focus_started_at == v.tasks[i].focus_started_at
                    &&& c[i].focus_accumulated_seconds == v.tasks[i].focus_accumulated_seconds
                    &&& !open_current(c[i])
                }
        }),
{
    let s = v.tasks;
    let c = crate::store::current::after_clear(v, clock, today).tasks;
    let m = crate::store::current::clear_map(s, clock);
    assert forall|i: int| 0 <= i < s.len() implies same_keys(#[trigger] c[i], s[i]) && c[i].is_completed
        == s[i].is_completed && c[i].focus_started_at == s[i].focus_started_at
        && c[i].focus_accumulated_seconds == s[i].focus_accumulated_seconds && !open_current(c[i]) by {
        if crate::store::current::any_open_current(s) {
            assert(c[i] == expire(m[i], today));
        } else {
            assert(!open_current(s[i]));
        }
    }
}

/// Starting focus on an open task makes it the current task, the only open one
/// whose clock runs (its clock keeps a running start, else starts at `now`), and
/// the task the attention names; every other running clock stops with its seconds
/// added.
pub proof fn law_start_focus(
    old: StoreView,
    new: StoreView,
    r: Result<(), String>,
    id: u128,
    now: i64,
    clock: i64,
    today: Seq<char>,
)
    requires
        old.wf(),
        start_focus_spec(old, new, r, id, now, clock, today),
        has_id(old.tasks, id),
        !at_id(old.tasks, id).is_completed,
    ensures
        r is Ok,
        new.focus_attention_task_id == Some(id),
        current_of(new.tasks) matches Some(t) && t.id == id && t.focus_started_at == (if at_id(
            old.tasks,
            id,
        ).focus_started_at is Some {
            at_id(old.tasks, id).focus_started_at
        } else {
            Some(now)
        }),
        new.tasks.len() == old.tasks.len(),
        forall|j: int|
            0 <= j < new.tasks.len() && (#[trigger] new.tasks[j]).id != id && !new.tasks[j].is_completed
                ==> new.tasks[j].focus_started_at is None,
        forall|j: int|
            0 <= j < old.tasks.len() && running_other(#[trigger] old.tasks[j], id)
                ==> new.tasks[j].id == old.tasks[j].id && new.tasks[j].focus_accumulated_seconds == stopped(
                old.tasks[j],
                now,
            ).focus_accumulated_seconds,
{
    let s = old.tasks;
    let k = id_index(s, id);
    lemma_stop_others_places(s, id, now, today);
    let v1 = if any_running_other(s, id) {
        StoreView { tasks: expire_all(stop_others(s, id, now), today), last_error: None, ..old }
    } else {
        old
    };
    lemma_after_clear_places(v1, clock, today);
    let v2 = crate::store::current::after_clear(v1, clock, today);
    let c = v2.tasks;
    let v3 = StoreView { focus_attention_task_id: Some(id), ..v2 };
    crate::store::current::lemma_update_all_keys(s, v1.tasks);
    crate::store::current::lemma_update_all_keys(v1.tasks, c);
    assert(c[k].id == id);
    lemma_id_index(c, id, k);
    let f = focused(c[k], now);
    let u = c.update(k, f);
    assert(new.tasks == expire_all(u, today));
    assert(new.tasks[k] == expire(u[k], today));
    assert(open_current(new.tasks[k]));
    assert forall|j: int| 0 <= j < new.tasks.len() && j != k implies !open_current(#[trigger] new.tasks[j]) by {
        assert(new.tasks[j] == expire(u[j], today));
        assert(u[j] == c[j]);
    }
    lemma_single_current(new.tasks, k);
    assert forall|j: int|
        0 <= j < new.tasks.len() && (#[trigger] new.tasks[j]).id != id && !new.tasks[j].is_completed implies new.tasks[j].focus_started_at is None by {
        assert(new.tasks[j] == expire(u[j], today));
        if j != k {
            assert(u[j] == c[j]);
            assert(same_keys(c[j], v1.tasks[j]));
            assert(same_keys(v1.tasks[j], s[j]));
        }
    }
    assert forall|j: int| 0 <= j < old.tasks.len() && running_other(#[trigger] old.tasks[j], id) implies new.tasks[j].id
        == old.tasks[j].id && new.tasks[j].focus_accumulated_seconds == stopped(old.tasks[j], now).focus_accumulated_seconds by {
        assert(new.tasks[j] == expire(u[j], today));
        assert(j != k);
        assert(u[j] == c[j]);
    }
}

/// The completion instant as a number for ordering: a task without one comes last.
pub open spec fn completion_key(t: TaskView) -> int {
    match t.completed_at {
        Some(c) => c as int,
        None => i64::MIN as int - 1,
    }
}

proof fn lemma_desc_compare(a: TaskView, b: TaskView)
    ensures
        (compare(TaskOrder::CompletedDesc, seq![], 0, 0, a, b) < 0) == (completion_key(b) < completion_key(a)),
{
}

/// Where the insertion sort puts `x` among the first `n` of `s`: every later one
/// of them sorts after it, and the one before it does not.
proof fn lemma_ins_at_places(s: Seq<TaskView>, x: TaskView, n: int)
    requires
        0 <= n <= s.len(),
    ensures
        0 <= ins_at(TaskOrder::CompletedDesc, seq![], 0, 0, s, x, n) <= n,
        forall|m: int|
            ins_at(TaskOrder::CompletedDesc, seq![], 0, 0, s, x, n) <= m < n ==> completion_key(#[trigger] s[m])
                < completion_key(x),
        ins_at(TaskOrder::CompletedDesc, seq![], 0, 0, s, x, n) > 0 ==> completion_key(
            s[ins_at(TaskOrder::CompletedDesc, seq![], 0, 0, s, x, n) - 1],
        ) >= completion_key(x),
    decreases n,
{
    if n > 0 {
        lemma_desc_compare(x, s[n - 1]);
        if compare(TaskOrder::CompletedDesc, seq![], 0, 0, x, s[n - 1]) < 0 {
            lemma_ins_at_places(s, x, n - 1);
        }
    }
}

/// The history order puts later completions first, and keeps exactly the tasks
/// it is given.
proof fn lemma_desc_sort(s: Seq<TaskView>)
    ensures
        isort(TaskOrder::CompletedDesc, seq![], 0, 0, s).len() == s.len(),
        forall|t: TaskView| #[trigger] isort(TaskOrder::CompletedDesc, seq![], 0, 0, s).contains(t) <==> s.contains(t),
        forall|i: int, j: int|
            0 <= i < j < s.len() ==> completion_key(#[trigger] isort(TaskOrder::CompletedDesc, seq![], 0, 0, s)[i])
                >= completion_key(#[trigger] isort(TaskOrder::CompletedDesc, seq![], 0, 0, s)[j]),
    decreases s.len(),
{
    if s.len() > 0 {
        let p0 = s.drop_last();
        let x = s.last();
        lemma_desc_sort(p0);
        let r = isort(TaskOrder::CompletedDesc, seq![], 0, 0, p0);
        lemma_ins_at_places(r, x, r.len() as int);
        let p = ins_at(TaskOrder::CompletedDesc, seq![], 0, 0, r, x, r.len() as int);
        let r2 = r.insert(p, x);
        assert(isort(TaskOrder::CompletedDesc, seq![], 0, 0, s) == r2);
        lemma_isort_members(TaskOrder::CompletedDesc, seq![], 0, 0, s);
        assert forall|i: int, j: int| 0 <= i < j < s.len() implies completion_key(#[trigger] r2[i])
            >= completion_key(#[trigger] r2[j]) by {
            if j < p {
                assert(r2[i] == r[i] && r2[j] == r[j]);
            } else if j == p {
                assert(r2[i] == r[i]);
                if i < p - 1 {
                    assert(completion_key(r[i]) >= completion_key(r[p - 1]));
                }
            } else if i == p {
                assert(r2[j] == r[j - 1]);
            } else if i < p {
                assert(r2[i] == r[i] && r2[j] == r[j - 1]);
            } else {
                assert(r2[i] == r[i - 1] && r2[j] == r[j - 1]);
            }
        }
    }
}

proof fn lemma_history_select_members(s: Seq<TaskView>, q: Seq<char>, start: Option<i64>, end: Option<i64>)
    ensures
        forall|t: TaskView| #[trigger] history_select(s, q, start, end).contains(t) <==> (s.contains(t) && in_history(
            t,
            q,
            start,
            end,
        )),
    decreases s.len(),
{
    if s.len() > 0 {
        let p = s.drop_last();
        lemma_history_select_members(p, q, start, end);
        let h = history_select(p, q, start, end);
        assert forall|t: TaskView| #[trigger] history_select(s, q, start, end).contains(t) <==> (s.contains(t)
            && in_history(t, q, start, end)) by {
            let hs = history_select(s, q, start, end);
            if hs.contains(t) {
                let i = choose|i: int| 0 <= i < hs.len() && hs[i] == t;
                if in_history(s.last(), q, start, end) && i == h.len() {
                    assert(s[s.len() - 1] == t);
                } else {
                    assert(h[i] == t);
                    assert(h.contains(t));
                    let k = choose|k: int| 0 <= k < p.len() && p[k] == t;
                    assert(s[k] == t);
                }
            }
            if s.contains(t) && in_history(t, q, start, end) {
                let k = choose|k: int| 0 <= k < s.len() && s[k] == t;
                if k == s.len() - 1 {
                    assert(hs[h.len() as int] == t);
                } else {
                    assert(p[k] == t);
                    assert(p.contains(t));
                    assert(h.contains(t));
                    let i = choose|i: int| 0 <= i < h.len() && h[i] == t;
                    assert(hs[i] == t);
                }
            }
        }
    }
}

proof fn lemma_completed_members(s: Seq<TaskView>)
    ensures
        forall|t: TaskView| #[trigger] completed(s).contains(t) <==> (s.contains(t) && t.is_completed),
    decreases s.len(),
{
    if s.len() > 0 {
        let p = s.drop_last();
        lemma_completed_members(p);
        lemma_select_push(TaskFilter::Completed, p, s.last());
        assert(s =~= p.push(s.last()));
        let c = completed(p);
        assert forall|t: TaskView| #[trigger] completed(s).contains(t) <==> (s.contains(t) && t.is_completed) by {
            let cs = completed(s);
            if cs.contains(t) {
                let i = choose|i: int| 0 <= i < cs.len() && cs[i] == t;
                if s.last().is_completed && i == c.len() {
                    assert(s[s.len() - 1] == t);
                } else {
                    assert(c[i] == t);
                    assert(c.contains(t));
                    let k = choose|k: int| 0 <= k < p.len() && p[k] == t;
                    assert(s[k] == t);
                }
            }
            if s.contains(t) && t.is_completed {
                let k = choose|k: int| 0 <= k < s.len() && s[k] == t;
                if k == s.len() - 1 {
                    assert(cs[c.len() as int] == t);
                } else {
                    assert(p[k] == t);
                    assert(p.contains(t));
                    assert(c.contains(t));
                    let i = choose|i: int| 0 <= i < c.len() && c[i] == t;
                    assert(cs[i] == t);
                }
            }
        }
    }
}

/// The history holds exactly the completed tasks that match the trimmed,
/// lower-cased query (an empty query matches all) and, where a range is given,
/// were completed within it; the most recently completed come first.
pub proof fn law_history_is_matching_completed_newest_first(
    s: Seq<TaskView>,
    query: Seq<char>,
    start: Option<i64>,
    end: Option<i64>,
)
    ensures
        forall|t: TaskView|
            #[trigger] history_spec(s, query, start, end).contains(t) <==> (s.contains(t) && t.is_completed
                && in_history(t, lower_text(trim(query)), start, end)),
        forall|i: int, j: int|
            0 <= i < j < history_spec(s, query, start, end).len() ==> completion_key(
                #[trigger] history_spec(s, query, start, end)[i],
            ) >= completion_key(#[trigger] history_spec(s, query, start, end)[j]),
{
    let q = lower_text(trim(query));
    let hsel = history_select(completed(s), q, start, end);
    lemma_completed_members(s);
    lemma_history_select_members(completed(s), q, start, end);
    lemma_desc_sort(hsel);
    assert(history_spec(s, query, start, end) == isort(TaskOrder::CompletedDesc, seq![], 0, 0, hsel));
}

/// Taking the due reminders a second time at the same instant gives none: each
/// reminder fires once.
pub proof fn law_reminders_fire_once(s: Seq<TaskView>, fired: Set<u128>, now: int)
    ensures
        unfired(due_list(s, now), fired.union(ids_of(due_list(s, now)))).len() == 0,
{
    let d = due_list(s, now);
    lemma_unfired_none(d, fired.union(ids_of(d)));
}

proof fn lemma_unfired_none(d: Seq<TaskView>, f: Set<u128>)
    requires
        forall|k: int| 0 <= k < d.len() ==> f.contains(#[trigger] d[k].id),
    ensures
        unfired(d, f).len() == 0,
    decreases d.len(),
{
    if d.len() > 0 {
        assert(f.contains(d[d.len() - 1].id));
        lemma_unfired_none(d.drop_last(), f);
    }
}

} // verus!

verus! {

/// A daily task comes back one day later and a weekly one seven days later, at the
/// same time of day, in every time zone.
pub proof fn law_repeat_steps(d: i64, off: int)
    ensures
        crate::store::lifecycle::next_after(d, crate::models::TaskRepeatRule::Daily) matches Some(n)
            && crate::clock::day_index(n, off) == crate::clock::day_index(d as int, off) + 1
            && n - crate::clock::day_index(n, off) * crate::clock::DAY_MS == d - crate::clock::day_index(
            d as int,
            off,
        ) * crate::clock::DAY_MS,
        crate::store::lifecycle::next_after(d, crate::models::TaskRepeatRule::Weekly) matches Some(n)
            && crate::clock::day_index(n, off) == crate::clock::day_index(d as int, off) + 7
            && n - crate::clock::day_index(n, off) * crate::clock::DAY_MS == d - crate::clock::day_index(
            d as int,
            off,
        ) * crate::clock::DAY_MS,
        crate::store::lifecycle::next_after(d, crate::models::TaskRepeatRule::Weekly) matches Some(n)
            && crate::clock::weekday_from_monday(crate::clock::day_index(n, off))
            == crate::clock::weekday_from_monday(crate::clock::day_index(d as int, off)),
{
    let day = crate::clock::DAY_MS as int;
    let k = crate::clock::day_index(d as int, off);
    assert((d + off + day) / day == k + 1) by (nonlinear_arith)
        requires
            k == (d + off) / day,
            day == 86_400_000,
    {
        assert(d + off + day == (d + off) + 1 * day);
    }
    assert((d + off + 7 * day) / day == k + 7) by (nonlinear_arith)
        requires
            k == (d + off) / day,
            day == 86_400_000,
    {
    }
    assert((k + 7 + 3) % 7 == (k + 3) % 7) by (nonlinear_arith);
}

/// The CSV importer reads back the completion flags that the CSV export writes:
/// `true` reads as set, `false` as not set.
pub proof fn law_csv_flags_read_back(b: bool)
    ensures
        crate::csv::truthy(lower_text(trim(crate::store::export::bool_text(b)))) == b,
{
    reveal_strlit("true");
    reveal_strlit("false");
    reveal_strlit("yes");
    reveal_strlit("1");
    reveal_strlit("x");
    reveal_strlit("done");
    reveal_strlit("completed");
    reveal_strlit("已完成");
    reveal_strlit("是");
    let s = crate::store::export::bool_text(b);
    assert(crate::text::lead_ws(s) == 0);
    assert(crate::text::trail_ws(s) == 0);
    assert(trim(s) =~= s);
    assert(crate::text::simple_case(s));
    assert(lower_text(s) =~= s);
}

/// Postponing to later today sets the due instant to two hours on or 18:00 on
/// the UTC date, whichever is later: never earlier than either, and one of them.
pub proof fn law_postpone_later_today(now: int)
    ensures
        crate::store::focus::postpone_due(crate::models::TaskPostponeOption::LaterToday, now) >= now
            + 7_200_000,
        crate::store::focus::at_hour(now, 18) matches Some(v) ==> {
            let r = crate::store::focus::postpone_due(crate::models::TaskPostponeOption::LaterToday, now);
            r >= v && (r == v || r == now + 7_200_000)
        },
{
}

/// A postponed task is due and reminded at the same instant.
pub proof fn law_postpone_reminds_at_due(
    t: TaskView,
    option: crate::models::TaskPostponeOption,
    now: i64,
    next_today: int,
    today: Seq<char>,
)
    ensures
        crate::store::focus::postponed(t, option, now, next_today, today).due_at is Some,
        crate::store::focus::postponed(t, option, now, next_today, today).due_at == crate::store::focus::postponed(
            t,
            option,
            now,
            next_today,
            today,
        ).reminder_at,
        crate::store::focus::postponed(t, option, now, next_today, today).postponed_at == Some(now),
{
}

} // verus!

verus! {

/// Which step of `date_from` gave its answer: a day word `j`, `每` with weekday
/// `w`, or weekday `w` alone (weekdays counted from Sunday = 0).
proof fn lemma_date_from_cases(text: Seq<char>, now: int, off: int, k: int) -> (c: (int, int))
    requires
        date_from(text, now, off, k) is Some,
    ensures
        ({
            let (d, s, e) = date_from(text, now, off, k).unwrap();
            let sod = crate::parser::start_of_day(now, off);
            &&& 0 <= s <= e <= text.len()
            &&& (c.0 == 0 ==> 0 <= c.1 < 5 && text.subrange(s, e) == day_word(c.1) && d == sod
                + crate::parser::day_word_shift(c.1) * crate::clock::DAY_MS)
            &&& (c.0 == 1 ==> 0 <= c.1 < 7 && text.subrange(s, e) == every_weekday_word(c.1) && d
                == crate::parser::next_apple_weekday(sod, c.1 + 1, off))
            &&& (c.0 == 2 ==> 0 <= c.1 < 7 && text.subrange(s, e) == weekday_word(c.1) && d
                == crate::parser::next_weekday(sod, if c.1 == 0 { 6 } else { c.1 - 1 }, off))
            &&& 0 <= c.0 <= 2
        }),
    decreases 19 - k,
{
    let sod = crate::parser::start_of_day(now, off);
    if k < 5 {
        crate::lexer::lemma_find_from_occurs(text, day_word(k), 0);
        match find_first(text, day_word(k)) {
            Some(i) => (0, k),
            None => lemma_date_from_cases(text, now, off, k + 1),
        }
    } else {
        let w = (k - 5) / 2;
        if (k - 5) % 2 == 0 {
            crate::lexer::lemma_find_from_occurs(text, every_weekday_word(w), 0);
            match find_first(text, every_weekday_word(w)) {
                Some(i) => (1, w),
                None => lemma_date_from_cases(text, now, off, k + 1),
            }
        } else {
            crate::lexer::lemma_find_from_occurs(text, weekday_word(w), 0);
            match find_first(text, weekday_word(w)) {
                Some(i) => (2, w),
                None => lemma_date_from_cases(text, now, off, k + 1),
            }
        }
    }
}

/// Landing `o` days (1..=7) after the local day `dd` that starts at `sod`.
proof fn lemma_days_on(sod: int, off: int, dd: int, o: int)
    requires
        sod == dd * crate::clock::DAY_MS - off,
        1 <= o <= 7,
    ensures
        crate::clock::day_index(sod + o * crate::clock::DAY_MS, off) == dd + o,
        crate::clock::day_index(sod, off) == dd,
{
    let day = crate::clock::DAY_MS as int;
    assert((dd * day - off + o * day + off) / day == dd + o) by (nonlinear_arith)
        requires
            day == 86_400_000,
    {
        assert(dd * day - off + o * day + off == (dd + o) * day);
    }
    assert((dd * day - off + off) / day == dd) by (nonlinear_arith)
        requires
            day == 86_400_000,
    {
        assert(dd * day - off + off == dd * day);
    }
}

/// A date read from a weekday word — `周X` alone or `每周X` — falls on that
/// weekday, one to seven days after the local day of `now`. Weekdays here count
/// from Monday = 0 to Sunday = 6; `周日` is Sunday.
pub proof fn law_weekday_words_land_on_their_weekday(text: Seq<char>, now: int, off: int, w: int)
    requires
        0 <= w < 7,
        in_range_day_start(now, off),
        date_of(text, now, off) is Some,
        ({
            let (d, s, e) = date_of(text, now, off).unwrap();
            0 <= s <= e <= text.len() && (text.subrange(s, e) == weekday_word(w) || text.subrange(s, e)
                == every_weekday_word(w))
        }),
    ensures
        ({
            let d = date_of(text, now, off).unwrap().0;
            &&& crate::clock::weekday_from_monday(crate::clock::day_index(d, off)) == (w + 6) % 7
            &&& 1 <= crate::clock::day_index(d, off) - crate::clock::day_index(now, off) <= 7
        }),
{
    let (d, s, e) = date_of(text, now, off).unwrap();
    let c = lemma_date_from_cases(text, now, off, 0);
    let m = text.subrange(s, e);
    let dd = crate::clock::day_index(now, off);
    let sod = crate::parser::start_of_day(now, off);
    assert(sod == dd * crate::clock::DAY_MS - off);
    reveal_strlit("今天");
    reveal_strlit("今晚");
    reveal_strlit("明天");
    reveal_strlit("明晚");
    reveal_strlit("后天");
    reveal_strlit("周日");
    reveal_strlit("周一");
    reveal_strlit("周二");
    reveal_strlit("周三");
    reveal_strlit("周四");
    reveal_strlit("周五");
    reveal_strlit("周六");
    reveal_strlit("每");
    lemma_days_on(sod, off, dd, 1);
    assert(crate::parser::start_of_day(sod, off) == sod);
    let cur = crate::clock::weekday_from_monday(dd);
    if c.0 == 0 {
        assert(m.len() == 2);
        assert(m[0] != '周');
        if m == weekday_word(w) {
            assert(weekday_word(w)[0] == '周');
        } else {
            assert(every_weekday_word(w).len() == 3);
        }
        assert(false);
    } else if c.0 == 1 {
        let v = c.1;
        assert(m.len() == 3);
        if m == weekday_word(w) {
            assert(weekday_word(w).len() == 2);
            assert(false);
        }
        assert(every_weekday_word(v)[2] == weekday_word(v)[1]);
        assert(every_weekday_word(w)[2] == weekday_word(w)[1]);
        assert(v == w) by {
            if v != w {
                assert(weekday_word(v)[1] != weekday_word(w)[1]);
            }
        }
        let ca = crate::parser::apple_weekday(cur);
        let o = (w + 1) - ca;
        let o2 = if o <= 0 { o + 7 } else { o };
        assert(1 <= o2 <= 7) by {
            assert(0 <= cur < 7);
        }
        assert(d == sod + o2 * crate::clock::DAY_MS);
        lemma_days_on(sod, off, dd, o2);
        assert((dd + o2 + 3) % 7 == (w + 6) % 7) by (nonlinear_arith)
            requires
                cur == (dd + 3) % 7,
                ca == (if cur == 6 { 1 } else { cur + 2 }),
                o2 == (if (w + 1) - ca <= 0 { (w + 1) - ca + 7 } else { (w + 1) - ca }),
                0 <= w < 7,
        {
        }
    } else {
        let v = c.1;
        assert(m.len() == 2);
        if m == every_weekday_word(w) {
            assert(every_weekday_word(w).len() == 3);
            assert(false);
        }
        assert(v == w) by {
            if v != w {
                assert(weekday_word(v)[1] != weekday_word(w)[1]);
            }
        }
        let t = if w == 0 { 6 } else { w - 1 };
        let o = t - cur;
        let o2 = if o <= 0 { o + 7 } else { o };
        assert(1 <= o2 <= 7) by {
            assert(0 <= cur < 7);
        }
        assert(d == sod + o2 * crate::clock::DAY_MS);
        lemma_days_on(sod, off, dd, o2);
        assert((dd + o2 + 3) % 7 == (w + 6) % 7) by (nonlinear_arith)
            requires
                cur == (dd + 3) % 7,
                t == (if w == 0 { 6 } else { w - 1 }),
                o2 == (if t - cur <= 0 { t - cur + 7 } else { t - cur }),
                0 <= w < 7,
        {
        }
    }
}

/// The start of the local day of `now` is an instant chrono can hold.
pub open spec fn in_range_day_start(now: int, off: int) -> bool {
    in_range(crate::clock::day_index(now, off) * crate::clock::DAY_MS - off)
}

} // verus!

verus! {

/// Where a task stands in the priority order by its first two keys: tasks in
/// today's queue before the others, then by priority value, a task without one first.
pub open spec fn priority_rank(t: TaskView, today: Seq<char>) -> int {
    (if t.in_today_queue(today) {
        0int
    } else {
        0x2_0000_0000int
    }) + match t.priority_raw_value {
        Some(v) => v as int,
        None => i32::MIN as int - 1,
    }
}

proof fn lemma_priority_compare(x: TaskView, y: TaskView, today: Seq<char>, now: int, end: int)
    ensures
        compare(TaskOrder::Priority, today, now, end, x, y) < 0 ==> priority_rank(x, today) <= priority_rank(
            y,
            today,
        ),
        compare(TaskOrder::Priority, today, now, end, x, y) >= 0 ==> priority_rank(x, today) >= priority_rank(
            y,
            today,
        ),
{
}

proof fn lemma_priority_ins_at(s: Seq<TaskView>, x: TaskView, n: int, today: Seq<char>, now: int, end: int)
    requires
        0 <= n <= s.len(),
    ensures
        0 <= ins_at(TaskOrder::Priority, today, now, end, s, x, n) <= n,
        forall|m: int|
            ins_at(TaskOrder::Priority, today, now, end, s, x, n) <= m < n ==> priority_rank(x, today)
                <= priority_rank(#[trigger] s[m], today),
        ins_at(TaskOrder::Priority, today, now, end, s, x, n) > 0 ==> priority_rank(
            s[ins_at(TaskOrder::Priority, today, now, end, s, x, n) - 1],
            today,
        ) <= priority_rank(x, today),
    decreases n,
{
    if n > 0 {
        lemma_priority_compare(x, s[n - 1], today, now, end);
        if compare(TaskOrder::Priority, today, now, end, x, s[n - 1]) < 0 {
            lemma_priority_ins_at(s, x, n - 1, today, now, end);
        }
    }
}

/// An insertion sort keeps exactly the tasks it is given.
proof fn lemma_isort_members(o: TaskOrder, today: Seq<char>, now: int, end: int, s: Seq<TaskView>)
    ensures
        isort(o, today, now, end, s).len() == s.len(),
        forall|t: TaskView| #[trigger] isort(o, today, now, end, s).contains(t) <==> s.contains(t),
    decreases s.len(),
{
    if s.len() > 0 {
        let p0 = s.drop_last();
        let x = s.last();
        lemma_isort_members(o, today, now, end, p0);
        let r = isort(o, today, now, end, p0);
        crate::store::order::lemma_ins_at_bound(o, today, now, end, r, x, r.len() as int);
        let p = ins_at(o, today, now, end, r, x, r.len() as int);
        let r2 = r.insert(p, x);
        assert(isort(o, today, now, end, s) == r2);
        assert forall|t: TaskView| r2.contains(t) <==> s.contains(t) by {
            if r2.contains(t) {
                let i = choose|i: int| 0 <= i < r2.len() && r2[i] == t;
                if i == p {
                    assert(s[s.len() - 1] == t);
                } else {
                    let k = if i < p { i } else { i - 1 };
                    assert(r[k] == t);
                    assert(r.contains(t));
                    let q = choose|q: int| 0 <= q < p0.len() && p0[q] == t;
                    assert(s[q] == t);
                }
            }
            if s.contains(t) {
                let q = choose|q: int| 0 <= q < s.len() && s[q] == t;
                if q == s.len() - 1 {
                    assert(r2[p] == t);
                } else {
                    assert(p0[q] == t);
                    assert(p0.contains(t));
                    assert(r.contains(t));
                    let i = choose|i: int| 0 <= i < r.len() && r[i] == t;
                    if i < p {
                        assert(r2[i] == t);
                    } else {
                        assert(r2[i + 1] == t);
                    }
                }
            }
        }
    }
}

proof fn lemma_priority_sorted(s: Seq<TaskView>, today: Seq<char>, now: int, end: int)
    ensures
        isort(TaskOrder::Priority, today, now, end, s).len() == s.len(),
        forall|i: int, j: int|
            0 <= i < j < s.len() ==> priority_rank(#[trigger] isort(TaskOrder::Priority, today, now, end, s)[i], today)
                <= priority_rank(#[trigger] isort(TaskOrder::Priority, today, now, end, s)[j], today),
    decreases s.len(),
{
    if s.len() > 0 {
        let p0 = s.drop_last();
        let x = s.last();
        lemma_priority_sorted(p0, today, now, end);
        let r = isort(TaskOrder::Priority, today, now, end, p0);
        lemma_priority_ins_at(r, x, r.len() as int, today, now, end);
        let p = ins_at(TaskOrder::Priority, today, now, end, r, x, r.len() as int);
        let r2 = r.insert(p, x);
        assert(isort(TaskOrder::Priority, today, now, end, s) == r2);
        assert forall|i: int, j: int| 0 <= i < j < s.len() implies priority_rank(#[trigger] r2[i], today)
            <= priority_rank(#[trigger] r2[j], today) by {
            if j < p {
                assert(r2[i] == r[i] && r2[j] == r[j]);
            } else if j == p {
                assert(r2[i] == r[i]);
                if i < p - 1 {
                    assert(priority_rank(r[i], today) <= priority_rank(r[p - 1], today));
                }
            } else if i == p {
                assert(r2[j] == r[j - 1]);
            } else if i < p {
                assert(r2[i] == r[i] && r2[j] == r[j - 1]);
            } else {
                assert(r2[i] == r[i - 1] && r2[j] == r[j - 1]);
            }
        }
    }
}

/// Of two tasks with the same place in today's queue, the one of higher priority
/// (the smaller stored value) comes first in the priority order; a task in today's
/// queue comes before one that is not.
pub proof fn law_priority_compare(a: TaskView, b: TaskView, today: Seq<char>, now: int, end: int)
    ensures
        a.in_today_queue(today) == b.in_today_queue(today) ==> match (a.priority_raw_value, b.priority_raw_value) {
            (Some(x), Some(y)) => x < y ==> compare(TaskOrder::Priority, today, now, end, a, b) < 0,
            _ => true,
        },
        a.in_today_queue(today) && !b.in_today_queue(today) ==> compare(TaskOrder::Priority, today, now, end, a, b)
            < 0,
{
}

/// A list in priority order holds exactly the tasks it was made from; those in
/// today's queue come first, and among tasks with the same place in the queue a
/// higher priority (smaller stored value) comes before a lower one, with tasks
/// that have no priority value before both.
pub proof fn law_priority_list_order(s: Seq<TaskView>, today: Seq<char>)
    ensures
        crate::store::queries::by_priority(s, today).len() == s.len(),
        forall|t: TaskView| #[trigger] crate::store::queries::by_priority(s, today).contains(t) <==> s.contains(t),
        forall|i: int, j: int|
            0 <= i < j < s.len() && (#[trigger] crate::store::queries::by_priority(s, today)[j]).in_today_queue(today)
                ==> (#[trigger] crate::store::queries::by_priority(s, today)[i]).in_today_queue(today),
        forall|i: int, j: int|
            0 <= i < j < s.len() && (#[trigger] crate::store::queries::by_priority(s, today)[i]).in_today_queue(today)
                == (#[trigger] crate::store::queries::by_priority(s, today)[j]).in_today_queue(today)
                ==> match (
                crate::store::queries::by_priority(s, today)[i].priority_raw_value,
                crate::store::queries::by_priority(s, today)[j].priority_raw_value,
            ) {
                (Some(x), Some(y)) => x <= y,
                (Some(_), None) => false,
                _ => true,
            },
{
    let r = crate::store::queries::by_priority(s, today);
    lemma_isort_members(TaskOrder::Priority, today, 0, 0, s);
    lemma_priority_sorted(s, today, 0, 0);
    assert forall|i: int, j: int| 0 <= i < j < s.len() && (#[trigger] r[j]).in_today_queue(today) implies (
    #[trigger] r[i]).in_today_queue(today) by {
        assert(priority_rank(r[i], today) <= priority_rank(r[j], today));
    }
    assert forall|i: int, j: int|
        0 <= i < j < s.len() && (#[trigger] r[i]).in_today_queue(today) == (#[trigger] r[j]).in_today_queue(
            today,
        ) implies match (r[i].priority_raw_value, r[j].priority_raw_value) {
        (Some(x), Some(y)) => x <= y,
        (Some(_), None) => false,
        _ => true,
    } by {
        assert(priority_rank(r[i], today) <= priority_rank(r[j], today));
    }
}

} // verus!

verus! {

proof fn lemma_drop_seps_plain(s: Seq<char>)
    requires
        forall|i: int| 0 <= i < s.len() ==> #[trigger] s[i] != ' ' && s[i] != '_' && s[i] != '-',
    ensures
        crate::csv::drop_seps(s) == s,
    decreases s.len(),
{
    if s.len() > 0 {
        lemma_drop_seps_plain(s.drop_last());
        assert(crate::csv::drop_seps(s.drop_last()).push(s.last()) =~= s);
    }
}

/// A column name made of ASCII letters is compared as its lower-case form.
proof fn lemma_csv_key_letters(s: Seq<char>)
    requires
        s.len() > 0,
        forall|i: int| 0 <= i < s.len() ==> ('a' <= #[trigger] s[i] <= 'z') || ('A' <= s[i] <= 'Z'),
    ensures
        crate::csv::csv_key(s) == s.map_values(|c: char| crate::lexer::fold_ascii(c)),
{
    assert(crate::text::lead_ws(s) == 0);
    assert(crate::text::trail_ws(s) == 0);
    assert(trim(s) =~= s);
    assert(crate::text::simple_case(s));
    let m = s.map_values(|c: char| crate::lexer::fold_ascii(c));
    assert(lower_text(s) == m);
    assert forall|i: int| 0 <= i < m.len() implies #[trigger] m[i] != ' ' && m[i] != '_' && m[i] != '-' by {
        assert(m[i] == crate::lexer::fold_ascii(s[i]));
    }
    lemma_drop_seps_plain(m);
}

} // verus!

verus! {

/// A lower-case column name is compared as it is.
proof fn lemma_csv_key_lower(s: Seq<char>)
    requires
        s.len() > 0,
        forall|i: int| 0 <= i < s.len() ==> 'a' <= #[trigger] s[i] <= 'z',
    ensures
        crate::csv::csv_key(s) == s,
{
    lemma_csv_key_letters(s);
    assert(s.map_values(|c: char| crate::lexer::fold_ascii(c)) =~= s);
}

/// The column names of the CSV export as the importer compares them.
spec fn export_keys() -> Seq<Seq<char>> {
    crate::store::export::header_cells().map_values(|k: Seq<char>| crate::csv::csv_key(k))
}

proof fn lemma_header_keys()
    ensures
        export_keys().len() == 16,
        forall|k: int|
            0 <= k < 16 ==> (#[trigger] export_keys()[k]).len() > 0,
        export_keys()[1] == "title"@,
        export_keys()[3] == "completed"@,
        export_keys()[12] == "today"@,
        forall|k: int|
            1 < k < 16 ==> #[trigger] export_keys()[k] != "title"@,
        forall|k: int|
            3 < k < 16 ==> #[trigger] export_keys()[k] != "completed"@,
        forall|k: int|
            12 < k < 16 ==> #[trigger] export_keys()[k] != "today"@,
{
    let h = crate::store::export::header_cells();
    let hk = export_keys();
    reveal_strlit("id");
    reveal_strlit("title");
    reveal_strlit("notes");
    reveal_strlit("completed");
    reveal_strlit("current");
    reveal_strlit("priority");
    reveal_strlit("dueAt");
    reveal_strlit("reminderAt");
    reveal_strlit("repeat");
    reveal_strlit("tags");
    reveal_strlit("project");
    reveal_strlit("estimatedMinutes");
    reveal_strlit("today");
    reveal_strlit("subtasks");
    reveal_strlit("focusSeconds");
    reveal_strlit("postponeCount");
    lemma_csv_key_letters(h[0]);
    lemma_csv_key_letters(h[1]);
    lemma_csv_key_letters(h[2]);
    lemma_csv_key_letters(h[3]);
    lemma_csv_key_letters(h[4]);
    lemma_csv_key_letters(h[5]);
    lemma_csv_key_letters(h[6]);
    lemma_csv_key_letters(h[7]);
    lemma_csv_key_letters(h[8]);
    lemma_csv_key_letters(h[9]);
    lemma_csv_key_letters(h[10]);
    lemma_csv_key_letters(h[11]);
    lemma_csv_key_letters(h[12]);
    lemma_csv_key_letters(h[13]);
    lemma_csv_key_letters(h[14]);
    lemma_csv_key_letters(h[15]);
    assert(hk[1] =~= "title"@);
    assert(hk[3] =~= "completed"@);
    assert(hk[12] =~= "today"@);
    assert(hk[6][1] != "title"@[1]);
    assert(hk[12][1] != "title"@[1]);
}

} // verus!

verus! {

proof fn lemma_row_values_all(keys: Seq<Seq<char>>, row: Seq<Seq<char>>)
    requires
        keys.len() <= row.len(),
        forall|k: int| 0 <= k < keys.len() ==> (#[trigger] keys[k]).len() > 0,
    ensures
        crate::store::archive::row_values(keys, row).len() == keys.len(),
        forall|k: int|
            0 <= k < keys.len() ==> #[trigger] crate::store::archive::row_values(keys, row)[k] == (keys[k], row[k]),
    decreases keys.len(),
{
    if keys.len() > 0 {
        lemma_row_values_all(keys.drop_last(), row);
        assert(keys.last().len() > 0);
    }
}

proof fn lemma_lookup_at(vals: Seq<(Seq<char>, Seq<char>)>, key: Seq<char>, k: int)
    requires
        0 <= k < vals.len(),
        vals[k].0 == key,
        forall|m: int| k < m < vals.len() ==> (#[trigger] vals[m]).0 != key,
    ensures
        crate::csv::lookup(vals, key) == Some(vals[k].1),
    decreases vals.len(),
{
    if k < vals.len() - 1 {
        assert(vals.last() == vals[vals.len() - 1]);
        lemma_lookup_at(vals.drop_last(), key, k);
    }
}

/// The text of a flag as the CSV export writes it has no surrounding blanks.
proof fn lemma_bool_text_plain(b: bool)
    ensures
        trim(crate::store::export::bool_text(b)) == crate::store::export::bool_text(b),
        crate::store::export::bool_text(b).len() > 0,
{
    reveal_strlit("true");
    reveal_strlit("false");
    let s = crate::store::export::bool_text(b);
    assert(crate::text::lead_ws(s) == 0);
    assert(crate::text::trail_ws(s) == 0);
    assert(trim(s) =~= s);
}

/// What the importer reads from a row of the CSV export: the title, the
/// completion flag and the place in today's queue that the row was written from.
proof fn lemma_export_row_reads(t: TaskView, today: Seq<char>)
    ensures
        first_value(row_values(export_keys(), export_cells(t, today)), seq!["completed"@, "complete"@, "done"@, "已完成"@])
            == crate::store::export::bool_text(t.is_completed),
        first_value(row_values(export_keys(), export_cells(t, today)), seq!["today"@, "myday"@, "今天"@])
            == crate::store::export::bool_text(t.in_today_queue(today)),
        trim(t.title).len() > 0 ==> first_value(row_values(export_keys(), export_cells(t, today)), title_keys())
            == t.title,
{
    let cells = export_cells(t, today);
    let vals = row_values(export_keys(), cells);
    lemma_header_keys();
    assert(cells.len() == 16);
    lemma_row_values_all(export_keys(), cells);
    reveal_strlit("completed");
    reveal_strlit("today");
    reveal_strlit("title");
    lemma_csv_key_lower("completed"@);
    lemma_csv_key_lower("today"@);
    lemma_csv_key_lower("title"@);
    lemma_lookup_at(vals, "completed"@, 3);
    lemma_lookup_at(vals, "today"@, 12);
    lemma_lookup_at(vals, "title"@, 1);
    lemma_bool_text_plain(t.is_completed);
    lemma_bool_text_plain(t.in_today_queue(today));
    assert(cells[3] == crate::store::export::bool_text(t.is_completed));
    assert(cells[12] == crate::store::export::bool_text(t.in_today_queue(today)));
    assert(cells[1] == t.title);
    assert(title_keys()[0] == "title"@);
}

} // verus!

verus! {

proof fn lemma_titled_rows_all(keys: Seq<Seq<char>>, rows: Seq<Seq<Seq<char>>>)
    requires
        forall|k: int|
            0 <= k < rows.len() ==> trim(first_value(row_values(keys, #[trigger] rows[k]), title_keys())).len() > 0,
    ensures
        crate::store::archive::titled_rows(keys, rows).len() == rows.len(),
        forall|k: int|
            0 <= k < rows.len() ==> #[trigger] crate::store::archive::titled_rows(keys, rows)[k] == row_values(
                keys,
                rows[k],
            ),
    decreases rows.len(),
{
    if rows.len() > 0 {
        lemma_titled_rows_all(keys, rows.drop_last());
        assert(rows.last() == rows[rows.len() - 1]);
    }
}

/// Importing the CSV export gives back, for each task with a title, one item in
/// list order with the same title, the same completion flag and the same place
/// in (or out of) today's queue.
pub proof fn law_csv_import_of_export_keeps_flags(
    s: Seq<TaskView>,
    today: Seq<char>,
    items: Seq<crate::models::ArchiveView>,
)
    requires
        forall|i: int|
            0 <= i < s.len() ==> crate::store::export::export_plain(#[trigger] s[i], today) && trim(s[i].title).len()
                > 0,
        crate::store::archive::items_match(crate::store::export::csv_text(s, today), items),
    ensures
        items.len() == s.len(),
        forall|k: int|
            0 <= k < s.len() ==> (#[trigger] items[k]).title == s[k].title && items[k].is_completed
                == s[k].is_completed && (items[k].today_sort_index is Some) == s[k].in_today_queue(today),
{
    let text = crate::store::export::csv_text(s, today);
    crate::store::export::law_csv_export_reads_back(s, today);
    let rows = crate::csv::csv_rows(text);
    let body = s.map_values(|t: TaskView| export_cells(t, today));
    assert(rows.len() > 0);
    assert(crate::store::archive::header_keys(rows) =~= export_keys());
    assert(rows.skip(1) =~= body);
    lemma_header_keys();
    assert forall|k: int| 0 <= k < body.len() implies trim(
        first_value(row_values(export_keys(), #[trigger] body[k]), title_keys()),
    ).len() > 0 by {
        lemma_export_row_reads(s[k], today);
    }
    lemma_titled_rows_all(export_keys(), body);
    let recs = crate::store::archive::csv_records(text);
    assert(recs == crate::store::archive::titled_rows(export_keys(), body));
    assert forall|k: int| 0 <= k < s.len() implies (#[trigger] items[k]).title == s[k].title
        && items[k].is_completed == s[k].is_completed && (items[k].today_sort_index is Some)
        == s[k].in_today_queue(today) by {
        assert(recs[k] == row_values(export_keys(), body[k]));
        assert(crate::store::archive::read_from_row(recs[k], items[k]));
        let (now, fid) = choose|now: i64, fid: u128| crate::csv::csv_item_matches(recs[k], now, fid, items[k]);
        lemma_export_row_reads(s[k], today);
        law_csv_flags_read_back(s[k].is_completed);
        law_csv_flags_read_back(s[k].in_today_queue(today));
        lemma_bool_text_plain(s[k].is_completed);
        lemma_bool_text_plain(s[k].in_today_queue(today));
    }
}

} // verus!

verus! {

/// Each weekday name reads as its own day, with or without `每` before it: the
/// date falls on that weekday (counted from Monday = 0; day 0 of the epoch,
/// 1970-01-01, was a Thursday) one to seven days after the local day of `now`.
pub proof fn law_weekday_names(text: Seq<char>, now: int, off: int)
    requires
        in_range_day_start(now, off),
        date_of(text, now, off) is Some,
    ensures
        ({
            let (d, s, e) = date_of(text, now, off).unwrap();
            let m = text.subrange(s, e);
            let later = crate::clock::day_index(d, off) - crate::clock::day_index(now, off);
            &&& (m == "周一"@ || m == "每周一"@) ==> (crate::clock::day_index(d, off) + 3) % 7 == 0 && 1 <= later <= 7
            &&& (m == "周二"@ || m == "每周二"@) ==> (crate::clock::day_index(d, off) + 3) % 7 == 1 && 1 <= later <= 7
            &&& (m == "周三"@ || m == "每周三"@) ==> (crate::clock::day_index(d, off) + 3) % 7 == 2 && 1 <= later <= 7
            &&& (m == "周四"@ || m == "每周四"@) ==> (crate::clock::day_index(d, off) + 3) % 7 == 3 && 1 <= later <= 7
            &&& (m == "周五"@ || m == "每周五"@) ==> (crate::clock::day_index(d, off) + 3) % 7 == 4 && 1 <= later <= 7
            &&& (m == "周六"@ || m == "每周六"@) ==> (crate::clock::day_index(d, off) + 3) % 7 == 5 && 1 <= later <= 7
            &&& (m == "周日"@ || m == "每周日"@) ==> (crate::clock::day_index(d, off) + 3) % 7 == 6 && 1 <= later <= 7
        }),
{
    let (d, s, e) = date_of(text, now, off).unwrap();
    let m = text.subrange(s, e);
    let _ = lemma_date_from_cases(text, now, off, 0);
    reveal_strlit("每");
    reveal_strlit("周一");
    reveal_strlit("每周一");
    assert(every_weekday_word(1) =~= "每周一"@);
    if m == "周一"@ || m == "每周一"@ {
        law_weekday_words_land_on_their_weekday(text, now, off, 1);
    }
    reveal_strlit("周二");
    reveal_strlit("每周二");
    assert(every_weekday_word(2) =~= "每周二"@);
    if m == "周二"@ || m == "每周二"@ {
        law_weekday_words_land_on_their_weekday(text, now, off, 2);
    }
    reveal_strlit("周三");
    reveal_strlit("每周三");
    assert(every_weekday_word(3) =~= "每周三"@);
    if m == "周三"@ || m == "每周三"@ {
        law_weekday_words_land_on_their_weekday(text, now, off, 3);
    }
    reveal_strlit("周四");
    reveal_strlit("每周四");
    assert(every_weekday_word(4) =~= "每周四"@);
    if m == "周四"@ || m == "每周四"@ {
        law_weekday_words_land_on_their_weekday(text, now, off, 4);
    }
    reveal_strlit("周五");
    reveal_strlit("每周五");
    assert(every_weekday_word(5) =~= "每周五"@);
    if m == "周五"@ || m == "每周五"@ {
        law_weekday_words_land_on_their_weekday(text, now, off, 5);
    }
    reveal_strlit("周六");
    reveal_strlit("每周六");
    assert(every_weekday_word(6) =~= "每周六"@);
    if m == "周六"@ || m == "每周六"@ {
        law_weekday_words_land_on_their_weekday(text, now, off, 6);
    }
    reveal_strlit("周日");
    reveal_strlit("每周日");
    assert(every_weekday_word(0) =~= "每周日"@);
    if m == "周日"@ || m == "每周日"@ {
        law_weekday_words_land_on_their_weekday(text, now, off, 0);
    }
}

} // verus!

verus! {

/// Skipping the steps of `date_from` that find nothing in a text whose only date
/// word is the plain weekday word `w`.
proof fn lemma_date_from_skip(text: Seq<char>, now: int, off: int, k: int, w: int)
    requires
        0 <= w < 7,
        0 <= k <= 6 + 2 * w,
        forall|j: int| 0 <= j < 5 ==> !crate::lexer::contains_text(text, #[trigger] day_word(j)),
        forall|v: int| 0 <= v < 7 ==> !crate::lexer::contains_text(text, #[trigger] every_weekday_word(v)),
        forall|v: int| 0 <= v < 7 && v != w ==> !crate::lexer::contains_text(text, #[trigger] weekday_word(v)),
    ensures
        date_from(text, now, off, k) == date_from(text, now, off, 6 + 2 * w),
    decreases 6 + 2 * w - k,
{
    if k < 6 + 2 * w {
        if k >= 5 {
            let v = (k - 5) / 2;
            assert(0 <= v < 7);
            if (k - 5) % 2 != 0 {
                assert(v < w);
            }
        }
        lemma_date_from_skip(text, now, off, k + 1, w);
    }
}

/// A text whose only date word is a plain weekday word `周X` (no day word such as
/// 今天 or 明天, no `每周`, no other weekday) is dated on that weekday, one to
/// seven days after the local day of `now` (weekdays from Monday = 0; day 0 of the
/// epoch was a Thursday).
pub proof fn law_plain_weekday_text(text: Seq<char>, now: int, off: int, w: int)
    requires
        0 <= w < 7,
        in_range_day_start(now, off),
        crate::lexer::contains_text(text, weekday_word(w)),
        forall|j: int| 0 <= j < 5 ==> !crate::lexer::contains_text(text, #[trigger] day_word(j)),
        forall|v: int| 0 <= v < 7 ==> !crate::lexer::contains_text(text, #[trigger] every_weekday_word(v)),
        forall|v: int| 0 <= v < 7 && v != w ==> !crate::lexer::contains_text(text, #[trigger] weekday_word(v)),
    ensures
        date_of(text, now, off) matches Some(r) && text.subrange(r.1, r.2) == weekday_word(w)
            && (crate::clock::day_index(r.0, off) + 3) % 7 == (w + 6) % 7 && 1 <= crate::clock::day_index(r.0, off)
            - crate::clock::day_index(now, off) <= 7,
{
    lemma_date_from_skip(text, now, off, 0, w);
    crate::lexer::lemma_find_from_occurs(text, weekday_word(w), 0);
    let i = find_first(text, weekday_word(w)).unwrap();
    assert(6 + 2 * w - 5 == 2 * w + 1);
    assert((6 + 2 * w - 5) / 2 == w);
    assert((6 + 2 * w - 5) % 2 == 1);
    let r = date_of(text, now, off).unwrap();
    assert(r.1 == i && r.2 == i + weekday_word(w).len());
    assert(text.subrange(r.1, r.2) == weekday_word(w));
    law_weekday_words_land_on_their_weekday(text, now, off, w);
}

} // verus!
