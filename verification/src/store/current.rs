//! The current-task rules: clearing the marks, keeping at most one open current
//! task, choosing and advancing the current task, deleting a task.

use super::edits::{at_id, not_found, not_found_err, put};
use super::queries::{current_of, incomplete, opt_view};
use super::{
    expire, expire_all, has_id, id_index, lemma_expire_keeps_wf, lemma_update_keeps_wf, same_keys,
    without_id, StoreView, TaskStore,
};
use crate::models::{task_views, TaskView};
use vstd::prelude::*;

verus! {

/// An open task marked current loses the mark.
pub open spec fn uncurrent(t: TaskView, clock: i64) -> TaskView {
    TaskView { is_current: false, updated_at: clock, ..t }
}

pub open spec fn open_current(t: TaskView) -> bool {
    t.is_current && !t.is_completed
}

pub open spec fn any_open_current(s: Seq<TaskView>) -> bool {
    exists|i: int| 0 <= i < s.len() && open_current(#[trigger] s[i])
}

pub open spec fn clear_map(s: Seq<TaskView>, clock: i64) -> Seq<TaskView> {
    Seq::new(
        s.len(),
        |i: int|
            if open_current(s[i]) {
                uncurrent(s[i], clock)
            } else {
                s[i]
            },
    )
}

/// The list once every open task loses its current mark; each change reloads.
pub open spec fn after_clear(v: StoreView, clock: i64, today: Seq<char>) -> StoreView {
    if any_open_current(v.tasks) {
        StoreView { tasks: expire_all(clear_map(v.tasks, clock), today), last_error: None, ..v }
    } else {
        v
    }
}

/// Task `i` keeps a current mark it may not have: it is completed, or an earlier
/// open task is current.
pub open spec fn stale_current(s: Seq<TaskView>, i: int) -> bool {
    s[i].is_current && (s[i].is_completed || exists|j: int| 0 <= j < i && open_current(#[trigger] s[j]))
}

pub open spec fn any_stale(s: Seq<TaskView>) -> bool {
    exists|i: int| 0 <= i < s.len() && stale_current(s, i)
}

pub open spec fn normal_map(s: Seq<TaskView>, clock: i64) -> Seq<TaskView> {
    Seq::new(
        s.len(),
        |i: int|
            if stale_current(s, i) {
                uncurrent(s[i], clock)
            } else {
                s[i]
            },
    )
}

pub open spec fn has_open_id(s: Seq<TaskView>, id: u128) -> bool {
    exists|i: int| 0 <= i < s.len() && !s[i].is_completed && #[trigger] s[i].id == id
}

/// `normalize_current_task`: stale current marks go (each change reloads), and the
/// focus attention is dropped unless it names an open task.
pub open spec fn normalized(v: StoreView, clock: i64, today: Seq<char>) -> StoreView {
    let tasks = if any_stale(v.tasks) {
        expire_all(normal_map(v.tasks, clock), today)
    } else {
        v.tasks
    };
    StoreView {
        tasks,
        last_error: if any_stale(v.tasks) {
            None
        } else {
            v.last_error
        },
        focus_attention_task_id: match v.focus_attention_task_id {
            Some(id) => if has_open_id(v.tasks, id) {
                Some(id)
            } else {
                None
            },
            None => None,
        },
    }
}

/// The list once the task `id` is deleted: its focus attention dropped, a reload,
/// then the current marks normalized.
pub open spec fn deleted(v: StoreView, id: u128, clock: i64, today: Seq<char>) -> StoreView {
    normalized(
        StoreView {
            tasks: expire_all(without_id(v.tasks, id), today),
            last_error: None,
            focus_attention_task_id: if v.focus_attention_task_id == Some(id) {
                None
            } else {
                v.focus_attention_task_id
            },
        },
        clock,
        today,
    )
}

/// The task made current by `set_current`: an open task is marked, a completed one
/// is left as it is.
pub open spec fn made_current(t: TaskView, clock: i64) -> TaskView {
    if !t.is_completed {
        TaskView { is_current: true, updated_at: clock, ..t }
    } else {
        t
    }
}

/// The outcome of `set_current`: marks cleared, then the task marked and reloaded;
/// an unknown identifier answers "task not found" after the clearing.
pub open spec fn set_current_spec(
    old: StoreView,
    new: StoreView,
    r: Result<(), String>,
    id: u128,
    clock: i64,
    today: Seq<char>,
) -> bool {
    let v1 = after_clear(old, clock, today);
    if has_id(v1.tasks, id) {
        r is Ok && new == put(v1, id, made_current(at_id(v1.tasks, id), clock), today)
    } else {
        not_found(r) && new == v1
    }
}

/// The first place in `s` of a task with identifier `id`, or 0.
pub open spec fn pos_of_id(s: Seq<TaskView>, id: u128) -> int {
    if exists|k: int| 0 <= k < s.len() && s[k].id == id {
        choose|k: int|
            0 <= k < s.len() && s[k].id == id && forall|j: int| 0 <= j < k ==> s[j].id != id
    } else {
        0
    }
}

/// The task that `advance_current` makes current: the first open task when none
/// is current, else the open task after the current one, wrapping around.
pub open spec fn advance_target(s: Seq<TaskView>) -> u128 {
    let active = incomplete(s);
    match current_of(s) {
        None => active[0].id,
        Some(c) => {
            let idx = pos_of_id(active, c.id);
            if idx + 1 >= active.len() {
                active[0].id
            } else {
                active[idx + 1].id
            }
        },
    }
}

pub proof fn lemma_expire_idem(s: Seq<TaskView>, today: Seq<char>)
    ensures
        expire_all(expire_all(s, today), today) == expire_all(s, today),
{
    assert(expire_all(expire_all(s, today), today) =~= expire_all(s, today));
}

fn first_pos_of_id(s: &Vec<crate::models::TaskItem>, id: u128) -> (r: usize)
    ensures
        r == pos_of_id(task_views(s@), id),
        s@.len() > 0 ==> r < s@.len(),
{
    let ghost sv = task_views(s@);
    let mut k: usize = 0;
    while k < s.len() && s[k].id != id
        invariant
            k <= s@.len(),
            sv == task_views(s@),
            forall|j: int| 0 <= j < k ==> sv[j].id != id,
        decreases s.len() - k,
    {
        k = k + 1;
    }
    if k < s.len() {
        proof {
            assert(sv[k as int].id == id);
            let c = choose|c: int|
                0 <= c < sv.len() && sv[c].id == id && forall|j: int| 0 <= j < c ==> sv[j].id != id;
            if c < k {
                assert(sv[c].id != id);
            } else if c > k {
                assert(sv[k as int].id == id);
            }
        }
        k
    } else {
        proof {
            assert(!exists|c: int| 0 <= c < sv.len() && sv[c].id == id);
        }
        0
    }
}

impl TaskStore {
    fn has_open_id_exec(&self, id: u128) -> (r: bool)
        ensures
            r == has_open_id(self@.tasks, id),
    {
        let mut k: usize = 0;
        while k < self.tasks.len()
            invariant
                k <= self.tasks@.len(),
                forall|j: int| 0 <= j < k ==> !(!self@.tasks[j].is_completed && #[trigger] self@.tasks[j].id == id),
            decreases self.tasks.len() - k,
        {
            if !self.tasks[k].is_completed && self.tasks[k].id == id {
                proof {
                    assert(!self@.tasks[k as int].is_completed && self@.tasks[k as int].id == id);
                }
                return true;
            }
            k = k + 1;
        }
        false
    }

    /// The identifier that `advance_current` makes current.
    #[verifier::spinoff_prover]
    #[verifier::rlimit(40)]
    fn advance_target_exec(&self) -> (r: u128)
        requires
            incomplete(self@.tasks).len() > 0,
        ensures
            r == advance_target(self@.tasks),
    {
        let active = self.incomplete_tasks();
        let ghost av = task_views(active@);
        assert(av[0].id == active@[0].id);
        match self.current_task() {
            None => active[0].id,
            Some(c) => {
                let idx = first_pos_of_id(&active, c.id);
                assert(av.len() == active@.len());
                if idx + 1 >= active.len() {
                    active[0].id
                } else {
                    active[idx + 1].id
                }
            },
        }
    }

    /// Every open task loses its current mark.
    pub fn clear_current_flags(&mut self, clock: i64, today: &str)
        requires
            old(self).wf(),
        ensures
            final(self)@ == after_clear(old(self)@, clock, today@),
            final(self).wf(),
    {
        let n = self.tasks.len();
        let mut any = false;
        let mut i: usize = 0;
        while i < n
            invariant
                n == self.tasks@.len(),
                n == old(self)@.tasks.len(),
                i <= n,
                any == exists|j: int| 0 <= j < i && open_current(#[trigger] old(self)@.tasks[j]),
                forall|k: int| 0 <= k < i ==> self@.tasks[k] == clear_map(old(self)@.tasks, clock)[k],
                forall|k: int| i <= k < n ==> self.tasks@[k] == old(self).tasks@[k],
                self.focus_attention_task_id == old(self).focus_attention_task_id,
                self.last_error == old(self).last_error,
            decreases n - i,
        {
            let ghost t = old(self)@.tasks[i as int];
            let ghost prev = self.tasks@;
            let ghost pv = self@.tasks;
            assert(self@.tasks[i as int] == t);
            if self.tasks[i].is_current && !self.tasks[i].is_completed {
                self.tasks[i].is_current = false;
                self.tasks[i].updated_at = clock;
                any = true;
                proof {
                    assert(open_current(old(self)@.tasks[i as int]));
                }
            }
            proof {
                assert forall|k: int| 0 <= k < n && k != i implies self.tasks@[k] == prev[k] by {}
                assert forall|k: int| 0 <= k < i + 1 implies self@.tasks[k] == clear_map(
                    old(self)@.tasks,
                    clock,
                )[k] by {
                    if k < i {
                        assert(self.tasks@[k] == prev[k]);
                        assert(pv[k] == prev[k]@);
                        assert(self@.tasks[k] == pv[k]);
                    }
                }
                assert(any == exists|j: int| 0 <= j < i + 1 && open_current(#[trigger] old(self)@.tasks[j]));
            }
            i = i + 1;
        }
        proof {
            let m = clear_map(old(self)@.tasks, clock);
            assert(self@.tasks =~= m);
            lemma_update_all_keys(old(self)@.tasks, m);
        }
        if any {
            self.reload_tasks_on(today);
        } else {
            proof {
                assert(self@.tasks =~= old(self)@.tasks);
            }
        }
    }

    /// At most one open task stays current (the first in list order), a completed
    /// task is never current, and the focus attention must name an open task.
    pub fn normalize_current_task(&mut self, clock: i64, today: &str)
        requires
            old(self).wf(),
        ensures
            final(self)@ == normalized(old(self)@, clock, today@),
            final(self).wf(),
    {
        let keep_attention = match self.focus_attention_task_id {
            Some(id) => self.has_open_id_exec(id),
            None => false,
        };
        let n = self.tasks.len();
        let mut any = false;
        let mut seen = false;
        let mut i: usize = 0;
        while i < n
            invariant
                n == self.tasks@.len(),
                n == old(self)@.tasks.len(),
                i <= n,
                seen == exists|j: int| 0 <= j < i && open_current(#[trigger] old(self)@.tasks[j]),
                any == exists|j: int| 0 <= j < i && stale_current(old(self)@.tasks, j),
                forall|k: int| 0 <= k < i ==> self@.tasks[k] == normal_map(old(self)@.tasks, clock)[k],
                forall|k: int| i <= k < n ==> self.tasks@[k] == old(self).tasks@[k],
                self.focus_attention_task_id == old(self).focus_attention_task_id,
                self.last_error == old(self).last_error,
            decreases n - i,
        {
            let ghost t = old(self)@.tasks[i as int];
            let ghost prev = self.tasks@;
            let ghost pv = self@.tasks;
            assert(self@.tasks[i as int] == t);
            let open_cur = self.tasks[i].is_current && !self.tasks[i].is_completed;
            if self.tasks[i].is_current && (self.tasks[i].is_completed || seen) {
                self.tasks[i].is_current = false;
                self.tasks[i].updated_at = clock;
                any = true;
                proof {
                    assert(stale_current(old(self)@.tasks, i as int));
                }
            } else {
                proof {
                    assert(!stale_current(old(self)@.tasks, i as int));
                }
            }
            proof {
                assert forall|k: int| 0 <= k < n && k != i implies self.tasks@[k] == prev[k] by {}
                assert forall|k: int| 0 <= k < i + 1 implies self@.tasks[k] == normal_map(
                    old(self)@.tasks,
                    clock,
                )[k] by {
                    if k < i {
                        assert(self.tasks@[k] == prev[k]);
                        assert(pv[k] == prev[k]@);
                        assert(self@.tasks[k] == pv[k]);
                    }
                }
                assert(any == exists|j: int| 0 <= j < i + 1 && stale_current(old(self)@.tasks, j));
            }
            if open_cur {
                seen = true;
            }
            proof {
                assert(seen == exists|j: int| 0 <= j < i + 1 && open_current(#[trigger] old(self)@.tasks[j]));
            }
            i = i + 1;
        }
        proof {
            let m = normal_map(old(self)@.tasks, clock);
            assert(self@.tasks =~= m);
            lemma_update_all_keys(old(self)@.tasks, m);
        }
        if any {
            self.reload_tasks_on(today);
        } else {
            proof {
                assert(self@.tasks =~= old(self)@.tasks);
            }
        }
        if !keep_attention {
            self.focus_attention_task_id = None;
        }
    }

    /// Makes the task `id` current (if it is open) after every open task lost its mark.
    pub fn set_current_at(&mut self, id: u128, clock: i64, today: &str) -> (r: Result<(), String>)
        requires
            old(self).wf(),
        ensures
            final(self).wf(),
            set_current_spec(old(self)@, final(self)@, r, id, clock, today@),
    {
        self.clear_current_flags(clock, today);
        let ghost v1 = self@;
        let i = match self.index_of(id) {
            Some(i) => i,
            None => return not_found_err(),
        };
        if !self.tasks[i].is_completed {
            self.tasks[i].is_current = true;
            self.tasks[i].updated_at = clock;
        }
        proof {
            assert(self@.tasks =~= v1.tasks.update(i as int, self.tasks@[i as int]@));
            lemma_update_keeps_wf(v1.tasks, i as int, self@.tasks[i as int]);
        }
        self.reload_tasks_on(today);
        self.reload_tasks_on(today);
        proof {
            lemma_expire_idem(v1.tasks.update(i as int, made_current(v1.tasks[i as int], clock)), today@);
        }
        Ok(())
    }

    /// Makes the next open task current: the first one when none is current, else
    /// the one after the current task, wrapping around. Nothing open: nothing changes.
    pub fn advance_current_at(&mut self, clock: i64, today: &str) -> (r: Result<(), String>)
        requires
            old(self).wf(),
        ensures
            final(self).wf(),
            incomplete(old(self)@.tasks).len() == 0 ==> r is Ok && final(self)@ == old(self)@,
            incomplete(old(self)@.tasks).len() > 0 ==> set_current_spec(
                old(self)@,
                final(self)@,
                r,
                advance_target(old(self)@.tasks),
                clock,
                today@,
            ),
    {
        if self.incomplete_count() == 0 {
            return Ok(());
        }
        let target = self.advance_target_exec();
        self.set_current_at(target, clock, today)
    }

    /// Removes the task `id` (if any); the focus attention on it is dropped, then the
    /// current marks are normalized.
    pub fn delete_at(&mut self, id: u128, clock: i64, today: &str) -> (r: Result<(), String>)
        requires
            old(self).wf(),
        ensures
            final(self).wf(),
            r is Ok,
            final(self)@ == deleted(old(self)@, id, clock, today@),
    {
        if self.focus_attention_task_id == Some(id) {
            self.focus_attention_task_id = None;
        }
        match self.index_of(id) {
            Some(i) => {
                let ghost before = self.tasks@;
                self.tasks.remove(i);
                proof {
                    assert(task_views(self.tasks@) =~= task_views(before).remove(i as int));
                }
            },
            None => {},
        }
        proof {
            super::lemma_without_id(old(self)@.tasks, id);
        }
        self.reload_tasks_on(today);
        self.normalize_current_task(clock, today);
        Ok(())
    }
}

/// A whole-list map that keeps identifiers and position keys keeps the list well formed.
pub proof fn lemma_update_all_keys(s: Seq<TaskView>, m: Seq<TaskView>)
    requires
        super::pos_sorted(s),
        super::ids_distinct(s),
        m.len() == s.len(),
        forall|i: int| 0 <= i < s.len() ==> same_keys(#[trigger] m[i], s[i]),
    ensures
        super::pos_sorted(m),
        super::ids_distinct(m),
{
    assert forall|a: int, b: int| 0 <= a < b < m.len() implies !super::pos_less(#[trigger] m[b], #[trigger] m[a]) by {
        assert(same_keys(m[a], s[a]));
        assert(same_keys(m[b], s[b]));
        assert(!super::pos_less(s[b], s[a]));
    }
    assert forall|a: int, b: int|
        0 <= a < m.len() && 0 <= b < m.len() && a != b implies #[trigger] m[a].id != #[trigger] m[b].id by {
        assert(same_keys(m[a], s[a]));
        assert(same_keys(m[b], s[b]));
        assert(s[a].id != s[b].id);
    }
}

} // verus!
