//! Reminders: which open tasks are due, each fired once, and the notification text.

use crate::models::{task_views, TaskItem, TaskView};
use crate::store::order::{reminder_due, select, select_tasks, FilterCtx, TaskFilter};
use crate::store::queries::incomplete;
use crate::store::TaskStore;
use std::collections::HashSet;
use vstd::prelude::*;

verus! {

broadcast use vstd::std_specs::hash::group_hash_axioms;

pub use crate::store::order::is_reminder_due;

/// The tasks whose reminder has already been shown.
pub struct ReminderState {
    pub fired: HashSet<u128>,
}

impl ReminderState {
    pub fn new() -> (r: Self)
        ensures
            r.fired@ == Set::<u128>::empty(),
    {
        ReminderState { fired: HashSet::new() }
    }

    /// Marks the task fired; true when it had not been fired before.
    pub fn should_fire(&mut self, id: u128) -> (r: bool)
        ensures
            r == !old(self).fired@.contains(id),
            final(self).fired@ == old(self).fired@.insert(id),
    {
        if self.fired.contains(&id) {
            proof {
                assert(old(self).fired@.insert(id) =~= old(self).fired@);
            }
            false
        } else {
            self.fired.insert(id);
            true
        }
    }
}

/// Forgets every fired reminder (the tasks were reloaded).
pub fn clear_fired_on_reload(reminder_state: &mut ReminderState)
    ensures
        final(reminder_state).fired@ == Set::<u128>::empty(),
{
    reminder_state.fired.clear();
}

/// Forgets the fired reminder of one task (it was completed or deleted).
pub fn clear_fired_task(reminder_state: &mut ReminderState, id: u128)
    ensures
        final(reminder_state).fired@ == old(reminder_state).fired@.remove(id),
{
    reminder_state.fired.remove(&id);
}

/// Open tasks whose reminder is due at `now`, in list order.
pub open spec fn due_list(s: Seq<TaskView>, now: int) -> Seq<TaskView> {
    select(TaskFilter::ReminderDue, seq![], seq![], now, 0, incomplete(s))
}

/// The due tasks not fired before, in order.
pub open spec fn unfired(s: Seq<TaskView>, fired: Set<u128>) -> Seq<TaskView>
    decreases s.len(),
{
    if s.len() == 0 {
        seq![]
    } else {
        let r = unfired(s.drop_last(), fired);
        if fired.contains(s.last().id) || ids_of(s.drop_last()).contains(s.last().id) {
            r
        } else {
            r.push(s.last())
        }
    }
}

pub open spec fn ids_of(s: Seq<TaskView>) -> Set<u128> {
    Set::new(|id: u128| exists|k: int| 0 <= k < s.len() && #[trigger] s[k].id == id)
}

/// Open tasks whose reminder is due at `now`.
pub fn due_reminders(store: &TaskStore, now: i64) -> (r: Vec<TaskItem>)
    ensures
        task_views(r@) == due_list(store@.tasks, now as int),
{
    let c = FilterCtx { today: String::new(), text: String::new(), at: now, id: 0 };
    select_tasks(&store.incomplete_tasks(), TaskFilter::ReminderDue, &c)
}

impl ReminderState {
    /// The due reminders at `now` that were not fired yet; they are marked fired.
    pub fn take_due(&mut self, store: &TaskStore, now: i64) -> (r: Vec<TaskItem>)
        ensures
            task_views(r@) == unfired(due_list(store@.tasks, now as int), old(self).fired@),
            final(self).fired@ == old(self).fired@.union(ids_of(due_list(store@.tasks, now as int))),
    {
        let due = due_reminders(store, now);
        let ghost dv = task_views(due@);
        let mut out: Vec<TaskItem> = Vec::new();
        let mut i: usize = 0;
        while i < due.len()
            invariant
                i <= due@.len(),
                dv == task_views(due@),
                task_views(out@) == unfired(dv.take(i as int), old(self).fired@),
                self.fired@ == old(self).fired@.union(ids_of(dv.take(i as int))),
            decreases due.len() - i,
        {
            let ghost pre = self.fired@;
            proof {
                let s = dv.take(i + 1);
                assert(s.drop_last() =~= dv.take(i as int));
                assert(s.last() == due@[i as int]@);
            }
            if self.should_fire(due[i].id) {
                let x = due[i].clone();
                let ghost before = out@;
                out.push(x);
                proof {
                    assert(task_views(out@) =~= task_views(before).push(x@));
                }
            }
            proof {
                assert(self.fired@ =~= old(self).fired@.union(ids_of(dv.take(i + 1)))) by {
                    assert forall|id: u128| ids_of(dv.take(i + 1)).contains(id) <==> (ids_of(dv.take(i as int)).contains(id) || id == due@[i as int].id) by {
                        if ids_of(dv.take(i + 1)).contains(id) {
                            let k = choose|k: int| 0 <= k < i + 1 && #[trigger] dv.take(i + 1)[k].id == id;
                            if k < i {
                                assert(dv.take(i as int)[k].id == id);
                            }
                        }
                        if ids_of(dv.take(i as int)).contains(id) {
                            let k = choose|k: int| 0 <= k < i && #[trigger] dv.take(i as int)[k].id == id;
                            assert(dv.take(i + 1)[k].id == id);
                        }
                        if id == due@[i as int].id {
                            assert(dv.take(i + 1)[i as int].id == id);
                        }
                    }
                }
            }
            i = i + 1;
        }
        proof {
            assert(dv.take(due@.len() as int) =~= dv);
        }
        out
    }
}

/// The notification body: the priority, then the project (if any), then the tags
/// as `#tag`, joined by " · ".
pub open spec fn reminder_body(t: TaskView) -> Seq<char> {
    let base = crate::store::export::priority_long(t.priority());
    let with_project = match t.project_name {
        Some(p) => if p.len() > 0 {
            base + " · "@ + p
        } else {
            base
        },
        None => base,
    };
    if t.tags().len() > 0 {
        with_project + " · "@ + crate::text::join(t.tags().map_values(|g: Seq<char>| "#"@ + g), " "@)
    } else {
        with_project
    }
}

/// The notification text: the title, a line break, the body.
pub open spec fn reminder_text(t: TaskView) -> Seq<char> {
    t.title + "\n"@ + reminder_body(t)
}

fn push_all(out: &mut Vec<char>, s: &[char])
    ensures
        final(out)@ == old(out)@ + s@,
{
    let mut i: usize = 0;
    while i < s.len()
        invariant
            i <= s@.len(),
            out@ == old(out)@ + s@.take(i as int),
        decreases s.len() - i,
    {
        out.push(s[i]);
        proof {
            assert(s@.take(i + 1) =~= s@.take(i as int).push(s@[i as int]));
            assert(out@ =~= old(out)@ + s@.take(i + 1));
        }
        i = i + 1;
    }
    proof {
        assert(s@.take(s@.len() as int) =~= s@);
    }
}

/// The notification text for a task (see `reminder_text`).
pub fn toast_text(task: &TaskItem) -> (r: String)
    ensures
        r@ == reminder_text(task@),
{
    let mut out = crate::text::chars_of(task.title.as_str());
    push_all(&mut out, crate::text::chars_of("\n").as_slice());
    let ghost head = out@;
    push_all(&mut out, crate::text::chars_of(task.priority().title()).as_slice());
    match &task.project_name {
        Some(p) => {
            let pc = crate::text::chars_of(p.as_str());
            if pc.len() > 0 {
                push_all(&mut out, crate::text::chars_of(" · ").as_slice());
                push_all(&mut out, pc.as_slice());
            }
        },
        None => {},
    }
    let tags = task.tags();
    if tags.len() > 0 {
        push_all(&mut out, crate::text::chars_of(" · ").as_slice());
        let mut parts: Vec<Vec<char>> = Vec::new();
        let mut k: usize = 0;
        while k < tags.len()
            invariant
                k <= tags@.len(),
                crate::text::texts(tags@) == task@.tags(),
                crate::text::vv(parts@) == task@.tags().take(k as int).map_values(|g: Seq<char>| "#"@ + g),
            decreases tags.len() - k,
        {
            let mut c = crate::text::chars_of("#");
            push_all(&mut c, crate::text::chars_of(tags[k].as_str()).as_slice());
            let ghost before = parts@;
            parts.push(c);
            proof {
                assert(crate::text::vv(parts@) =~= crate::text::vv(before).push(c@));
                assert(task@.tags().take(k + 1).map_values(|g: Seq<char>| "#"@ + g) =~= task@.tags().take(
                    k as int,
                ).map_values(|g: Seq<char>| "#"@ + g).push("#"@ + tags@[k as int]@));
            }
            k = k + 1;
        }
        proof {
            assert(task@.tags().take(tags@.len() as int) =~= task@.tags());
        }
        let joined = crate::store::export::join_chars(&parts, " ");
        push_all(&mut out, joined.as_slice());
    }
    proof {
        assert(out@ =~= reminder_text(task@));
    }
    crate::text::string_of(out.as_slice())
}

} // verus!
