//! Importing tasks from an archive or a CSV text, and the archive form of the list.

use super::current::normalized;
use super::lifecycle::{inserted, opt_today};
use super::{has_id, upsert, StoreView, TaskStore};
use crate::clock::in_range;
use crate::csv::{
    archive_item_from_csv, csv_item_matches, csv_key, csv_rows, first_value, pairs_view, rows_view,
    title_keys,
};
use crate::models::{
    archive_of, archive_views, kept_subtasks, tags_raw_of, task_views, ArchiveView, TaskArchive,
    TaskArchiveItem, TaskItem, TaskView,
};
use crate::text::{texts, trim};
use vstd::prelude::*;

verus! {

/// The task an archive item makes (`task_from_archive`): storing its tags and
/// subtasks stamps it with the clock.
pub open spec fn from_archive(x: ArchiveView, clock: i64, today: Seq<char>) -> TaskView {
    TaskView {
        id: x.id,
        title: x.title,
        notes: x.notes,
        is_completed: x.is_completed,
        is_current: x.is_current,
        created_at: x.created_at,
        updated_at: clock,
        completed_at: x.completed_at,
        sort_index: x.sort_index,
        priority_raw_value: x.priority_raw_value,
        due_at: x.due_at,
        reminder_at: x.reminder_at,
        repeat_rule_raw_value: x.repeat_rule_raw_value,
        tags_raw_value: tags_raw_of(x.tags),
        project_name: x.project_name,
        estimated_minutes: x.estimated_minutes,
        today_sort_index: x.today_sort_index,
        today_added_date: opt_today(x.today_sort_index, today),
        subtasks: kept_subtasks(x.subtasks),
        focus_started_at: x.focus_started_at,
        focus_accumulated_seconds: Some(x.focus_accumulated_seconds),
        postponed_at: x.postponed_at,
        postpone_count_raw_value: Some(x.postpone_count),
    }
}

/// One archive item taken in: a known identifier is overwritten in place, a new
/// one is stored as a new task (and counted).
pub open spec fn import_one(v: StoreView, x: ArchiveView, clock: i64, today: Seq<char>) -> (
    StoreView,
    bool,
) {
    let t = from_archive(x, clock, today);
    if has_id(v.tasks, x.id) {
        (StoreView { tasks: upsert(v.tasks, t), ..v }, false)
    } else {
        (inserted(v, t, clock, today), true)
    }
}

pub open spec fn import_all(v: StoreView, items: Seq<ArchiveView>, clock: i64, today: Seq<char>) -> (
    StoreView,
    nat,
)
    decreases items.len(),
{
    if items.len() == 0 {
        (v, 0)
    } else {
        let (w, n) = import_all(v, items.drop_last(), clock, today);
        let (u, added) = import_one(w, items.last(), clock, today);
        (u, n + if added {
            1nat
        } else {
            0
        })
    }
}

/// The cells of a CSV row under their normalized column names; unnamed columns are
/// skipped, missing cells are empty.
pub open spec fn row_values(keys: Seq<Seq<char>>, row: Seq<Seq<char>>) -> Seq<(Seq<char>, Seq<char>)>
    decreases keys.len(),
{
    if keys.len() == 0 {
        seq![]
    } else {
        let r = row_values(keys.drop_last(), row);
        let idx = keys.len() - 1;
        if keys.last().len() > 0 {
            r.push(
                (
                    keys.last(),
                    if idx < row.len() {
                        row[idx]
                    } else {
                        seq![]
                    },
                ),
            )
        } else {
            r
        }
    }
}

/// The rows after the header that have a title, as column values.
pub open spec fn titled_rows(keys: Seq<Seq<char>>, rows: Seq<Seq<Seq<char>>>) -> Seq<
    Seq<(Seq<char>, Seq<char>)>,
>
    decreases rows.len(),
{
    if rows.len() == 0 {
        seq![]
    } else {
        let r = titled_rows(keys, rows.drop_last());
        let vals = row_values(keys, rows.last());
        if trim(first_value(vals, title_keys())).len() > 0 {
            r.push(vals)
        } else {
            r
        }
    }
}

/// The normalized column names of the header row.
pub open spec fn header_keys(rows: Seq<Seq<Seq<char>>>) -> Seq<Seq<char>> {
    rows[0].map_values(|k: Seq<char>| csv_key(k))
}

/// The column values of the titled rows of a CSV text.
pub open spec fn csv_records(text: Seq<char>) -> Seq<Seq<(Seq<char>, Seq<char>)>> {
    let rows = csv_rows(text);
    if rows.len() == 0 {
        seq![]
    } else {
        titled_rows(header_keys(rows), rows.skip(1))
    }
}

/// An item as `archive_item_from_csv` reads a row, at some instant and with some
/// fresh identifier.
pub open spec fn read_from_row(rec: Seq<(Seq<char>, Seq<char>)>, item: ArchiveView) -> bool {
    exists|now: i64, fid: u128|
        #![trigger csv_item_matches(rec, now, fid, item)]
        csv_item_matches(rec, now, fid, item)
}

/// Items that a CSV text gives: one per titled row, each read from its row.
pub open spec fn items_match(text: Seq<char>, items: Seq<ArchiveView>) -> bool {
    let recs = csv_records(text);
    &&& items.len() == recs.len()
    &&& forall|k: int| 0 <= k < recs.len() ==> #[trigger] read_from_row(recs[k], items[k])
}

impl TaskStore {
    /// The task an archive item makes (see `from_archive`).
    pub fn task_from_archive(item: TaskArchiveItem, clock: i64, today: &str) -> (r: TaskItem)
        ensures
            r@ == from_archive(item@, clock, today@),
    {
        let mut task = TaskItem {
            id: item.id,
            title: item.title,
            notes: item.notes,
            is_completed: item.is_completed,
            is_current: item.is_current,
            created_at: item.created_at,
            updated_at: item.updated_at,
            completed_at: item.completed_at,
            sort_index: item.sort_index,
            priority_raw_value: item.priority_raw_value,
            due_at: item.due_at,
            reminder_at: item.reminder_at,
            repeat_rule_raw_value: item.repeat_rule_raw_value,
            tags_raw_value: None,
            project_name: item.project_name,
            estimated_minutes: item.estimated_minutes,
            today_sort_index: item.today_sort_index,
            today_added_date: match item.today_sort_index {
                Some(_) => Some(String::from_str(today)),
                None => None,
            },
            subtasks: Vec::new(),
            focus_started_at: item.focus_started_at,
            focus_accumulated_seconds: Some(item.focus_accumulated_seconds),
            postponed_at: item.postponed_at,
            postpone_count_raw_value: Some(item.postpone_count),
        };
        task.set_tags(item.tags);
        task.set_subtasks(item.subtasks);
        task.updated_at = clock;
        task
    }

    /// Takes in archive items one after another (see `import_one`), then normalizes
    /// the current marks; the result is the number of new tasks.
    pub fn import_archive_items(&mut self, items: Vec<TaskArchiveItem>, clock: i64, today: &str) -> (r:
        usize)
        requires
            old(self).wf(),
        ensures
            final(self).wf(),
            final(self)@ == normalized(import_all(old(self)@, archive_views(items@), clock, today@).0, clock, today@),
            r == import_all(old(self)@, archive_views(items@), clock, today@).1,
    {
        let ghost iv = archive_views(items@);
        let mut count: usize = 0;
        let mut i: usize = 0;
        let n = items.len();
        let mut rest = items;
        while i < n
            invariant
                n == rest@.len(),
                iv == archive_views(rest@),
                i <= n,
                self.wf(),
                (self@, count as nat) == import_all(old(self)@, iv.take(i as int), clock, today@),
                count <= i,
            decreases n - i,
        {
            proof {
                let s = iv.take(i + 1);
                assert(s.drop_last() =~= iv.take(i as int));
                assert(s.last() == rest@[i as int]@);
            }
            let item = TaskArchiveItem {
                id: rest[i].id,
                title: String::from_str(rest[i].title.as_str()),
                notes: String::from_str(rest[i].notes.as_str()),
                is_completed: rest[i].is_completed,
                is_current: rest[i].is_current,
                created_at: rest[i].created_at,
                updated_at: rest[i].updated_at,
                completed_at: rest[i].completed_at,
                sort_index: rest[i].sort_index,
                priority_raw_value: rest[i].priority_raw_value,
                due_at: rest[i].due_at,
                reminder_at: rest[i].reminder_at,
                repeat_rule_raw_value: crate::models::clone_opt_string(&rest[i].repeat_rule_raw_value),
                tags: crate::models::clone_vec_strings(&rest[i].tags),
                project_name: crate::models::clone_opt_string(&rest[i].project_name),
                estimated_minutes: rest[i].estimated_minutes,
                today_sort_index: rest[i].today_sort_index,
                subtasks: crate::models::clone_subtasks(&rest[i].subtasks),
                focus_started_at: rest[i].focus_started_at,
                focus_accumulated_seconds: rest[i].focus_accumulated_seconds,
                postponed_at: rest[i].postponed_at,
                postpone_count: rest[i].postpone_count,
            };
            proof {
                assert(item@ =~= rest@[i as int]@);
            }
            let known = self.index_of(item.id).is_some();
            let task = Self::task_from_archive(item, clock, today);
            if known {
                self.upsert_task(task);
            } else {
                self.insert_task(task, clock, today);
                count = count + 1;
            }
            i = i + 1;
        }
        proof {
            assert(iv.take(n as int) =~= iv);
        }
        self.normalize_current_task(clock, today);
        count
    }

    /// The archive items that a CSV text gives (see `items_match`).
    pub fn csv_archive_items(text: &str) -> (r: Vec<TaskArchiveItem>)
        ensures
            items_match(text@, archive_views(r@)),
    {
        let rows = crate::csv::parse_csv(text);
        let ghost rv = rows_view(rows@);
        let mut out: Vec<TaskArchiveItem> = Vec::new();
        if rows.len() == 0 {
            return out;
        }
        let mut keys: Vec<String> = Vec::new();
        let mut k: usize = 0;
        while k < rows[0].len()
            invariant
                rows@.len() > 0,
                k <= rows@[0]@.len(),
                texts(keys@) == texts(rows@[0]@).take(k as int).map_values(|x: Seq<char>| csv_key(x)),
            decreases rows@[0]@.len() - k,
        {
            let key = crate::csv::normalize_csv_key(rows[0][k].as_str());
            let ghost before = keys@;
            keys.push(key);
            proof {
                assert(texts(keys@) =~= texts(before).push(key@));
                assert(texts(rows@[0]@).take(k + 1) =~= texts(rows@[0]@).take(k as int).push(rows@[0]@[k as int]@));
                assert(texts(keys@) =~= texts(rows@[0]@).take(k + 1).map_values(|x: Seq<char>| csv_key(x)));
            }
            k = k + 1;
        }
        proof {
            assert(texts(rows@[0]@).take(rows@[0]@.len() as int) =~= texts(rows@[0]@));
            assert(rv[0] == texts(rows@[0]@));
            assert(texts(keys@) =~= header_keys(rv));
        }
        let ghost hk = header_keys(rv);
        let ghost body = rv.skip(1);
        let mut i: usize = 1;
        while i < rows.len()
            invariant
                1 <= i <= rows@.len(),
                rv == rows_view(rows@),
                rv == csv_rows(text@),
                hk == texts(keys@),
                body == rv.skip(1),
                archive_views(out@).len() == titled_rows(hk, body.take(i - 1)).len(),
                forall|j: int|
                    0 <= j < out@.len() ==> #[trigger] read_from_row(titled_rows(hk, body.take(i - 1))[j], out@[j]@),
            decreases rows.len() - i,
        {
            let row = &rows[i];
            let mut values: Vec<(String, String)> = Vec::new();
            let mut c: usize = 0;
            while c < keys.len()
                invariant
                    c <= keys@.len(),
                    pairs_view(values@) == row_values(texts(keys@).take(c as int), texts(row@)),
                decreases keys.len() - c,
            {
                proof {
                    let s = texts(keys@).take(c + 1);
                    assert(s.drop_last() =~= texts(keys@).take(c as int));
                    assert(s.last() == keys@[c as int]@);
                }
                if crate::text::chars_of(keys[c].as_str()).len() > 0 {
                    let cell = if c < row.len() {
                        String::from_str(row[c].as_str())
                    } else {
                        String::new()
                    };
                    let key = String::from_str(keys[c].as_str());
                    let ghost before = values@;
                    values.push((key, cell));
                    proof {
                        assert(pairs_view(values@) =~= pairs_view(before).push((key@, cell@)));
                    }
                }
                c = c + 1;
            }
            proof {
                assert(texts(keys@).take(keys@.len() as int) =~= texts(keys@));
                assert(body.take(i as int).drop_last() =~= body.take(i - 1));
                assert(body.take(i as int).last() == texts(row@));
            }
            let ghost prev = out@;
            match archive_item_from_csv(&values) {
                Some(item) => {
                    out.push(item);
                    proof {
                        let t = titled_rows(hk, body.take(i as int));
                        assert(t == titled_rows(hk, body.take(i - 1)).push(pairs_view(values@)));
                        assert forall|j: int| 0 <= j < out@.len() implies #[trigger] read_from_row(t[j], out@[j]@) by {
                            if j < prev.len() {
                                assert(out@[j] == prev[j]);
                                assert(t[j] == titled_rows(hk, body.take(i - 1))[j]);
                            }
                        }
                    }
                },
                None => {
                    proof {
                        assert(titled_rows(hk, body.take(i as int)) == titled_rows(hk, body.take(i - 1)));
                    }
                },
            }
            i = i + 1;
        }
        proof {
            assert(body.take(rows@.len() - 1) =~= body);
            let recs = csv_records(text@);
            assert(recs == titled_rows(hk, body));
            assert forall|k: int| 0 <= k < recs.len() implies #[trigger] read_from_row(recs[k], archive_views(out@)[k]) by {
                assert(archive_views(out@)[k] == out@[k]@);
            }
        }
        out
    }

    /// The archive of the whole list at `exported_at` (format version 2).
    pub fn archive_at(&self, exported_at: i64) -> (r: TaskArchive)
        ensures
            r.version == 2,
            r.exported_at == exported_at,
            archive_views(r.tasks@) == self@.tasks.map_values(|t: TaskView| archive_of(t)),
    {
        let mut tasks: Vec<TaskArchiveItem> = Vec::new();
        let mut i: usize = 0;
        while i < self.tasks.len()
            invariant
                i <= self.tasks@.len(),
                archive_views(tasks@) == self@.tasks.take(i as int).map_values(|t: TaskView| archive_of(t)),
            decreases self.tasks.len() - i,
        {
            let x = TaskArchiveItem::from_task(&self.tasks[i]);
            let ghost before = tasks@;
            tasks.push(x);
            proof {
                assert(archive_views(tasks@) =~= archive_views(before).push(x@));
                assert(self@.tasks.take(i + 1).map_values(|t: TaskView| archive_of(t)) =~= self@.tasks.take(
                    i as int,
                ).map_values(|t: TaskView| archive_of(t)).push(archive_of(self@.tasks[i as int])));
            }
            i = i + 1;
        }
        proof {
            assert(self@.tasks.take(self@.tasks.len() as int) =~= self@.tasks);
        }
        TaskArchive { version: 2, exported_at, tasks }
    }

    /// Imports the rows of a CSV text that have a title (see `csv_archive_items` and
    /// `import_archive_items`); a text without rows imports nothing.
    pub fn import_csv_text_at(&mut self, text: &str, clock: i64, today: &str) -> (r: usize)
        requires
            old(self).wf(),
        ensures
            final(self).wf(),
            csv_rows(text@).len() == 0 ==> r == 0 && final(self)@ == old(self)@,
            csv_rows(text@).len() > 0 ==> exists|items: Seq<ArchiveView>|
                #![trigger import_all(old(self)@, items, clock, today@)]
                items_match(text@, items) && final(self)@ == normalized(
                    import_all(old(self)@, items, clock, today@).0,
                    clock,
                    today@,
                ) && r == import_all(old(self)@, items, clock, today@).1,
    {
        let rows = crate::csv::parse_csv(text);
        if rows.len() == 0 {
            return 0;
        }
        let items = Self::csv_archive_items(text);
        let ghost iv = archive_views(items@);
        let r = self.import_archive_items(items, clock, today);
        proof {
            let _ = import_all(old(self)@, iv, clock, today@);
        }
        r
    }

    /// `import_archive_items` with the machine's clock and local date.
    pub fn import_items(&mut self, items: Vec<TaskArchiveItem>) -> (r: usize)
        requires
            old(self).wf(),
        ensures
            final(self).wf(),
            exists|c: i64, d: Seq<char>|
                #![trigger import_all(old(self)@, archive_views(items@), c, d)]
                final(self)@ == normalized(import_all(old(self)@, archive_views(items@), c, d).0, c, d)
                    && r == import_all(old(self)@, archive_views(items@), c, d).1,
    {
        let clock = crate::clock::now_ms();
        let today = crate::clock::local_today();
        self.import_archive_items(items, clock, today.as_str())
    }

    /// `import_csv_text_at` with the machine's clock and local date.
    pub fn import_csv_text(&mut self, text: &str) -> (r: usize)
        requires
            old(self).wf(),
        ensures
            final(self).wf(),
            csv_rows(text@).len() == 0 ==> r == 0 && final(self)@ == old(self)@,
            csv_rows(text@).len() > 0 ==> exists|items: Seq<ArchiveView>, c: i64, d: Seq<char>|
                #![trigger import_all(old(self)@, items, c, d)]
                items_match(text@, items) && final(self)@ == normalized(
                    import_all(old(self)@, items, c, d).0,
                    c,
                    d,
                ) && r == import_all(old(self)@, items, c, d).1,
    {
        let clock = crate::clock::now_ms();
        let today = crate::clock::local_today();
        self.import_csv_text_at(text, clock, today.as_str())
    }
}

} // verus!
