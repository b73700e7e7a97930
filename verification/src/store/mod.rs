//! The task list. Tasks are kept in position order (sort index, then creation
//! instant) with distinct identifiers; every change ends the way a reload from
//! storage does, by dropping today-queue marks that were not set on the current
//! local date. Storage itself is the caller's business.

pub mod order;
pub mod current;
pub mod edits;
pub mod focus;
pub mod labels;
pub mod lifecycle;
pub mod calls;
pub mod archive;
pub mod export;
pub mod queries;

use crate::models::{opt_text, task_views, TaskItem, TaskView};
use vstd::prelude::*;

verus! {

pub struct TaskStore {
    pub tasks: Vec<TaskItem>,
    pub focus_attention_task_id: Option<u128>,
    pub last_error: Option<String>,
}

pub struct StoreView {
    pub tasks: Seq<TaskView>,
    pub focus_attention_task_id: Option<u128>,
    pub last_error: Option<Seq<char>>,
}

impl View for TaskStore {
    type V = StoreView;

    open spec fn view(&self) -> StoreView {
        StoreView {
            tasks: task_views(self.tasks@),
            focus_attention_task_id: self.focus_attention_task_id,
            last_error: opt_text(self.last_error),
        }
    }
}

/// Position order: by sort index, then by creation instant.
pub open spec fn pos_less(a: TaskView, b: TaskView) -> bool {
    a.sort_index < b.sort_index || (a.sort_index == b.sort_index && a.created_at < b.created_at)
}

pub open spec fn pos_sorted(s: Seq<TaskView>) -> bool {
    forall|i: int, j: int| 0 <= i < j < s.len() ==> !pos_less(#[trigger] s[j], #[trigger] s[i])
}

pub open spec fn ids_distinct(s: Seq<TaskView>) -> bool {
    forall|i: int, j: int|
        0 <= i < s.len() && 0 <= j < s.len() && i != j ==> #[trigger] s[i].id != #[trigger] s[j].id
}

pub open spec fn has_id(s: Seq<TaskView>, id: u128) -> bool {
    exists|i: int| 0 <= i < s.len() && s[i].id == id
}

/// Where the task with identifier `id` stands (meaningful where `has_id`).
pub open spec fn id_index(s: Seq<TaskView>, id: u128) -> int {
    choose|i: int| 0 <= i < s.len() && s[i].id == id
}

/// The task with identifier `id`, if any.
pub open spec fn task_with(s: Seq<TaskView>, id: u128) -> Option<TaskView> {
    if has_id(s, id) {
        Some(s[id_index(s, id)])
    } else {
        None
    }
}

/// A today-queue mark that was not set on `today` is dropped.
pub open spec fn expire(t: TaskView, today: Seq<char>) -> TaskView {
    if t.today_sort_index is Some && t.today_added_date != Some(today) {
        TaskView { today_sort_index: None, today_added_date: None, ..t }
    } else {
        t
    }
}

pub open spec fn expire_all(s: Seq<TaskView>, today: Seq<char>) -> Seq<TaskView> {
    s.map_values(|t: TaskView| expire(t, today))
}

/// Where `x` goes among the first `n` tasks of `s`: after every task that does not
/// come after it.
pub open spec fn ins_pos(s: Seq<TaskView>, x: TaskView, n: int) -> int
    decreases n,
{
    if n <= 0 {
        0
    } else if pos_less(x, s[n - 1]) {
        ins_pos(s, x, n - 1)
    } else {
        n
    }
}

pub open spec fn insert_sorted(s: Seq<TaskView>, x: TaskView) -> Seq<TaskView> {
    s.insert(ins_pos(s, x, s.len() as int), x)
}

pub open spec fn without_id(s: Seq<TaskView>, id: u128) -> Seq<TaskView> {
    if has_id(s, id) {
        s.remove(id_index(s, id))
    } else {
        s
    }
}

/// Storing `x`: it takes the place of the task with its identifier, in position order.
pub open spec fn upsert(s: Seq<TaskView>, x: TaskView) -> Seq<TaskView> {
    insert_sorted(without_id(s, x.id), x)
}

/// Two tasks with the same identifier and position keys.
pub open spec fn same_keys(a: TaskView, b: TaskView) -> bool {
    a.id == b.id && a.sort_index == b.sort_index && a.created_at == b.created_at
}

impl StoreView {
    /// Tasks in position order, identifiers distinct.
    pub open spec fn wf(self) -> bool {
        pos_sorted(self.tasks) && ids_distinct(self.tasks)
    }
}

impl TaskStore {
    pub open spec fn wf(&self) -> bool {
        self@.wf()
    }
}

pub proof fn lemma_id_index(s: Seq<TaskView>, id: u128, i: int)
    requires
        ids_distinct(s),
        0 <= i < s.len(),
        s[i].id == id,
    ensures
        has_id(s, id),
        id_index(s, id) == i,
        task_with(s, id) == Some(s[i]),
{
    assert(has_id(s, id));
    let k = id_index(s, id);
    assert(s[k].id == id);
}

pub proof fn lemma_expire_keeps_wf(s: Seq<TaskView>, today: Seq<char>)
    requires
        pos_sorted(s),
        ids_distinct(s),
    ensures
        pos_sorted(expire_all(s, today)),
        ids_distinct(expire_all(s, today)),
        expire_all(s, today).len() == s.len(),
        forall|i: int| 0 <= i < s.len() ==> same_keys(#[trigger] expire_all(s, today)[i], s[i]),
{
    let e = expire_all(s, today);
    assert forall|i: int, j: int| 0 <= i < j < e.len() implies !pos_less(#[trigger] e[j], #[trigger] e[i]) by {
        assert(!pos_less(s[j], s[i]));
    }
    assert forall|i: int, j: int|
        0 <= i < e.len() && 0 <= j < e.len() && i != j implies #[trigger] e[i].id != #[trigger] e[j].id by {
        assert(s[i].id != s[j].id);
    }
}

/// Replacing a task by one with the same keys keeps the list well formed.
pub proof fn lemma_update_keeps_wf(s: Seq<TaskView>, i: int, t: TaskView)
    requires
        pos_sorted(s),
        ids_distinct(s),
        0 <= i < s.len(),
        same_keys(t, s[i]),
    ensures
        pos_sorted(s.update(i, t)),
        ids_distinct(s.update(i, t)),
{
    let u = s.update(i, t);
    assert forall|a: int, b: int| 0 <= a < b < u.len() implies !pos_less(#[trigger] u[b], #[trigger] u[a]) by {
        assert(!pos_less(s[b], s[a]));
    }
    assert forall|a: int, b: int|
        0 <= a < u.len() && 0 <= b < u.len() && a != b implies #[trigger] u[a].id != #[trigger] u[b].id by {
        assert(s[a].id != s[b].id);
    }
}

proof fn lemma_ins_pos(s: Seq<TaskView>, x: TaskView, n: int)
    requires
        0 <= n <= s.len(),
    ensures
        0 <= ins_pos(s, x, n) <= n,
        forall|j: int| ins_pos(s, x, n) <= j < n ==> pos_less(x, #[trigger] s[j]),
        ins_pos(s, x, n) > 0 ==> !pos_less(x, s[ins_pos(s, x, n) - 1]),
    decreases n,
{
    if n > 0 && pos_less(x, s[n - 1]) {
        lemma_ins_pos(s, x, n - 1);
    }
}

pub proof fn lemma_insert_sorted(s: Seq<TaskView>, x: TaskView)
    requires
        pos_sorted(s),
        ids_distinct(s),
        !has_id(s, x.id),
    ensures
        pos_sorted(insert_sorted(s, x)),
        ids_distinct(insert_sorted(s, x)),
        insert_sorted(s, x).len() == s.len() + 1,
        has_id(insert_sorted(s, x), x.id),
        task_with(insert_sorted(s, x), x.id) == Some(x),
        forall|id: u128| id != x.id ==> task_with(#[trigger] insert_sorted(s, x), id) == task_with(s, id),
{
    let k = ins_pos(s, x, s.len() as int);
    lemma_ins_pos(s, x, s.len() as int);
    let u = insert_sorted(s, x);
    s.insert_ensures(k, x);
    assert forall|a: int, b: int| 0 <= a < b < u.len() implies !pos_less(#[trigger] u[b], #[trigger] u[a]) by {
        if b < k {
            assert(!pos_less(s[b], s[a]));
        } else if b == k {
            assert(!pos_less(x, s[k - 1]));
            if a < k - 1 {
                assert(!pos_less(s[k - 1], s[a]));
            }
        } else if a == k {
            assert(pos_less(x, s[b - 1]));
        } else if a < k {
            assert(u[b] == s[b - 1]);
            assert(!pos_less(s[b - 1], s[a]));
        } else {
            assert(!pos_less(s[b - 1], s[a - 1]));
        }
    }
    assert forall|a: int, b: int|
        0 <= a < u.len() && 0 <= b < u.len() && a != b implies #[trigger] u[a].id != #[trigger] u[b].id by {
        if a != k && b != k {
            let a0 = if a < k { a } else { a - 1 };
            let b0 = if b < k { b } else { b - 1 };
            assert(s[a0].id != s[b0].id);
        } else if a == k {
            let b0 = if b < k { b } else { b - 1 };
            assert(s[b0].id != x.id);
        } else {
            let a0 = if a < k { a } else { a - 1 };
            assert(s[a0].id != x.id);
        }
    }
    lemma_id_index(u, x.id, k);
    assert forall|id: u128| id != x.id implies task_with(#[trigger] insert_sorted(s, x), id)
        == task_with(s, id) by {
        if has_id(s, id) {
            let i = id_index(s, id);
            let j = if i < k { i } else { i + 1 };
            assert(u[j] == s[i]);
            lemma_id_index(u, id, j);
        } else if has_id(u, id) {
            let j = id_index(u, id);
            let i = if j < k { j } else { j - 1 };
            assert(s[i].id == id);
        }
    }
}

pub proof fn lemma_without_id(s: Seq<TaskView>, id: u128)
    requires
        pos_sorted(s),
        ids_distinct(s),
    ensures
        pos_sorted(without_id(s, id)),
        ids_distinct(without_id(s, id)),
        !has_id(without_id(s, id), id),
        forall|other: u128| other != id ==> task_with(#[trigger] without_id(s, id), other) == task_with(s, other),
{
    let w = without_id(s, id);
    if has_id(s, id) {
        let k = id_index(s, id);
        s.remove_ensures(k);
        assert forall|a: int, b: int| 0 <= a < b < w.len() implies !pos_less(#[trigger] w[b], #[trigger] w[a]) by {
            let a0 = if a < k { a } else { a + 1 };
            let b0 = if b < k { b } else { b + 1 };
            assert(!pos_less(s[b0], s[a0]));
        }
        assert forall|a: int, b: int|
            0 <= a < w.len() && 0 <= b < w.len() && a != b implies #[trigger] w[a].id != #[trigger] w[b].id by {
            let a0 = if a < k { a } else { a + 1 };
            let b0 = if b < k { b } else { b + 1 };
            assert(s[a0].id != s[b0].id);
        }
        assert forall|j: int| 0 <= j < w.len() implies #[trigger] w[j].id != id by {
            let j0 = if j < k { j } else { j + 1 };
            assert(s[j0].id != s[k].id);
        }
        assert forall|other: u128| other != id implies task_with(#[trigger] without_id(s, id), other)
            == task_with(s, other) by {
            if has_id(s, other) {
                let i = id_index(s, other);
                assert(i != k);
                let j = if i < k { i } else { i - 1 };
                assert(w[j] == s[i]);
                lemma_id_index(w, other, j);
            } else if has_id(w, other) {
                let j = id_index(w, other);
                let i = if j < k { j } else { j + 1 };
                assert(s[i].id == other);
            }
        }
    }
}

/// After a task is written into a well-formed list, reading its identifier gives
/// that task back, every other identifier reads as before, and the list stays
/// well-formed.
pub proof fn law_upsert_reads_back(s: Seq<TaskView>, x: TaskView)
    requires
        pos_sorted(s),
        ids_distinct(s),
    ensures
        pos_sorted(upsert(s, x)),
        ids_distinct(upsert(s, x)),
        task_with(upsert(s, x), x.id) == Some(x),
        forall|id: u128| id != x.id ==> task_with(#[trigger] upsert(s, x), id) == task_with(s, id),
{
    lemma_without_id(s, x.id);
    lemma_insert_sorted(without_id(s, x.id), x);
    assert forall|id: u128| id != x.id implies task_with(#[trigger] upsert(s, x), id) == task_with(
        s,
        id,
    ) by {
        assert(task_with(insert_sorted(without_id(s, x.id), x), id) == task_with(
            without_id(s, x.id),
            id,
        ));
    }
}

impl TaskStore {
    /// An empty list.
    pub fn new() -> (r: Self)
        ensures
            r@.tasks.len() == 0,
            r@.focus_attention_task_id is None,
            r@.last_error is None,
            r.wf(),
    {
        TaskStore { tasks: Vec::new(), focus_attention_task_id: None, last_error: None }
    }

    /// Where the task with identifier `id` stands.
    pub fn index_of(&self, id: u128) -> (r: Option<usize>)
        requires
            self.wf(),
        ensures
            r is None <==> !has_id(self@.tasks, id),
            r matches Some(i) ==> i < self@.tasks.len() && i == id_index(self@.tasks, id)
                && self@.tasks[i as int].id == id,
    {
        let mut i: usize = 0;
        while i < self.tasks.len()
            invariant
                self.wf(),
                i <= self.tasks@.len(),
                forall|k: int| 0 <= k < i ==> self.tasks@[k].id != id,
            decreases self.tasks.len() - i,
        {
            if self.tasks[i].id == id {
                proof {
                    lemma_id_index(self@.tasks, id, i as int);
                }
                return Some(i);
            }
            i = i + 1;
        }
        proof {
            assert forall|k: int| 0 <= k < self@.tasks.len() implies self@.tasks[k].id != id by {
                assert(self.tasks@[k].id != id);
            }
        }
        None
    }

    /// What a reload from storage does on the local date `today`: today-queue marks
    /// set on another date are dropped, and the last error is cleared.
    pub fn reload_tasks_on(&mut self, today: &str)
        requires
            old(self).wf(),
        ensures
            final(self)@ == (StoreView {
                tasks: expire_all(old(self)@.tasks, today@),
                last_error: None,
                ..old(self)@
            }),
            final(self).wf(),
    {
        let n = self.tasks.len();
        let mut i: usize = 0;
        while i < n
            invariant
                n == self.tasks@.len(),
                n == old(self).tasks@.len(),
                i <= n,
                forall|k: int| 0 <= k < i ==> self.tasks@[k]@ == expire(old(self).tasks@[k]@, today@),
                forall|k: int| i <= k < n ==> self.tasks@[k] == old(self).tasks@[k],
                self.focus_attention_task_id == old(self).focus_attention_task_id,
                self.last_error == old(self).last_error,
            decreases n - i,
        {
            let stale = match &self.tasks[i].today_added_date {
                Some(d) => {
                    let t = String::from_str(today);
                    self.tasks[i].today_sort_index.is_some() && *d != t
                },
                None => self.tasks[i].today_sort_index.is_some(),
            };
            if stale {
                self.tasks[i].today_sort_index = None;
                self.tasks[i].today_added_date = None;
            }
            i = i + 1;
        }
        self.last_error = None;
        proof {
            assert(self@.tasks =~= expire_all(old(self)@.tasks, today@));
            lemma_expire_keeps_wf(old(self)@.tasks, today@);
        }
    }

    /// `reload_tasks_on` with the machine's local date.
    pub fn reload_tasks(&mut self)
        requires
            old(self).wf(),
        ensures
            exists|today: Seq<char>|
                #![trigger expire_all(old(self)@.tasks, today)]
                final(self)@ == (StoreView {
                    tasks: expire_all(old(self)@.tasks, today),
                    last_error: None,
                    ..old(self)@
                }),
            final(self).wf(),
    {
        let today = crate::clock::local_today();
        self.reload_tasks_on(today.as_str());
    }

    /// Puts `item` in position order; no task has its identifier yet.
    fn insert_sorted_task(&mut self, item: TaskItem)
        requires
            old(self).wf(),
            !has_id(old(self)@.tasks, item.id),
        ensures
            final(self)@ == (StoreView {
                tasks: insert_sorted(old(self)@.tasks, item@),
                ..old(self)@
            }),
            final(self).wf(),
    {
        let n = self.tasks.len();
        let mut j = n;
        while j > 0 && order::pos_less_exec(&item, &self.tasks[j - 1])
            invariant
                j <= n,
                n == self.tasks@.len(),
                self.tasks@ == old(self).tasks@,
                ins_pos(self@.tasks, item@, j as int) == ins_pos(self@.tasks, item@, n as int),
            decreases j,
        {
            j = j - 1;
        }
        let ghost before = self.tasks@;
        self.tasks.insert(j, item);
        proof {
            assert(task_views(self.tasks@) =~= task_views(before).insert(j as int, item@));
            lemma_insert_sorted(old(self)@.tasks, item@);
        }
    }

    /// Stores `item`: it replaces the task with its identifier, if any, and stands
    /// in position order.
    pub fn upsert_task(&mut self, item: TaskItem)
        requires
            old(self).wf(),
        ensures
            final(self)@ == (StoreView { tasks: upsert(old(self)@.tasks, item@), ..old(self)@ }),
            final(self).wf(),
    {
        match self.index_of(item.id) {
            Some(i) => {
                let ghost before = self.tasks@;
                self.tasks.remove(i);
                proof {
                    assert(task_views(self.tasks@) =~= task_views(before).remove(i as int));
                    lemma_without_id(old(self)@.tasks, item.id);
                }
            },
            None => {},
        }
        self.insert_sorted_task(item);
    }
}

} // verus!
