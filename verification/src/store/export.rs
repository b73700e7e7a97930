//! The CSV and Markdown exports of the list.

use super::queries::{completed, incomplete};
use super::TaskStore;
use crate::clock::rfc3339_text;
use crate::csv::{
    any_cell, csv_doc, csv_escaped, csv_line, csv_rows, field_ok, law_csv_reads_back_what_it_writes,
    needs_quotes, rows_ok,
};
use crate::ids::id_text;
use crate::models::{SubtaskView, TaskPriority, TaskRepeatRule, TaskView};
use crate::text::{join, vv};
use vstd::prelude::*;

verus! {

pub open spec fn digit_char(d: int) -> char {
    if d == 0 {
        '0'
    } else if d == 1 {
        '1'
    } else if d == 2 {
        '2'
    } else if d == 3 {
        '3'
    } else if d == 4 {
        '4'
    } else if d == 5 {
        '5'
    } else if d == 6 {
        '6'
    } else if d == 7 {
        '7'
    } else if d == 8 {
        '8'
    } else {
        '9'
    }
}

/// Decimal digits of a natural number.
pub open spec fn nat_text(n: nat) -> Seq<char>
    decreases n,
{
    if n < 10 {
        seq![digit_char(n as int)]
    } else {
        nat_text((n / 10) as nat).push(digit_char((n % 10) as int))
    }
}

/// An integer as `to_string` writes it.
pub open spec fn int_text(v: int) -> Seq<char> {
    if v < 0 {
        seq!['-'] + nat_text((-v) as nat)
    } else {
        nat_text(v as nat)
    }
}

pub open spec fn bool_text(b: bool) -> Seq<char> {
    if b {
        "true"@
    } else {
        "false"@
    }
}

pub open spec fn priority_short(p: TaskPriority) -> Seq<char> {
    match p {
        TaskPriority::High => "高"@,
        TaskPriority::Medium => "中"@,
        TaskPriority::Low => "低"@,
    }
}

pub open spec fn priority_long(p: TaskPriority) -> Seq<char> {
    match p {
        TaskPriority::High => "高优先级"@,
        TaskPriority::Medium => "中优先级"@,
        TaskPriority::Low => "低优先级"@,
    }
}

pub open spec fn rule_title(r: TaskRepeatRule) -> Seq<char> {
    match r {
        TaskRepeatRule::Daily => "每天"@,
        TaskRepeatRule::Weekly => "每周"@,
        TaskRepeatRule::Monthly => "每月"@,
        TaskRepeatRule::Yearly => "每年"@,
    }
}

pub open spec fn opt_instant_text(o: Option<i64>) -> Seq<char> {
    match o {
        Some(v) => rfc3339_text(v as int),
        None => seq![],
    }
}

pub open spec fn subtask_cell(s: SubtaskView) -> Seq<char> {
    (if s.is_completed {
        "x"@
    } else {
        " "@
    }) + ":"@ + s.title
}

/// The cells of a task's CSV row.
pub open spec fn csv_cells(t: TaskView, today: Seq<char>) -> Seq<Seq<char>> {
    seq![
        id_text(t.id),
        csv_escaped(t.title),
        csv_escaped(t.notes),
        bool_text(t.is_completed),
        bool_text(t.is_current),
        priority_short(t.priority()),
        opt_instant_text(t.due_at),
        opt_instant_text(t.reminder_at),
        match t.repeat_rule() {
            Some(r) => rule_title(r),
            None => seq![],
        },
        join(t.tags(), "|"@),
        crate::models::text_or_empty(t.project_name),
        match t.estimated_minutes {
            Some(m) => int_text(m as int),
            None => seq![],
        },
        bool_text(t.in_today_queue(today)),
        join(t.subtasks.map_values(|s: SubtaskView| subtask_cell(s)), "|"@),
        int_text(t.focus_seconds()),
        int_text(t.postpone_count()),
    ]
}

pub open spec fn csv_header() -> Seq<char> {
    "id,title,notes,completed,current,priority,dueAt,reminderAt,repeat,tags,project,estimatedMinutes,today,subtasks,focusSeconds,postponeCount"@
}

/// The values of a task's CSV row before quoting: the row's cells with the title
/// and the notes as they are.
pub open spec fn export_cells(t: TaskView, today: Seq<char>) -> Seq<Seq<char>> {
    csv_cells(t, today).update(1, t.title).update(2, t.notes)
}

/// The column names of the CSV export, one per cell.
pub open spec fn header_cells() -> Seq<Seq<char>> {
    seq![
        "id"@,
        "title"@,
        "notes"@,
        "completed"@,
        "current"@,
        "priority"@,
        "dueAt"@,
        "reminderAt"@,
        "repeat"@,
        "tags"@,
        "project"@,
        "estimatedMinutes"@,
        "today"@,
        "subtasks"@,
        "focusSeconds"@,
        "postponeCount"@,
    ]
}

/// A cell that the writer leaves as it is and the reader reads back as it is.
pub open spec fn plain_cell(c: Seq<char>) -> bool {
    !needs_quotes(c) && !c.contains('\r')
}

/// The task's row reads back: the cells other than the title and the notes hold no
/// comma, quote or line break, and the title and the notes are quoted or hold no
/// carriage return.
pub open spec fn export_plain(t: TaskView, today: Seq<char>) -> bool {
    &&& forall|k: int| 0 <= k < 16 && k != 1 && k != 2 ==> plain_cell(#[trigger] csv_cells(t, today)[k])
    &&& field_ok(t.title)
    &&& field_ok(t.notes)
}

/// The CSV export on the local date `today`: a header row, one row per task in list
/// order, each line ended by `\n`.
pub open spec fn csv_text(s: Seq<TaskView>, today: Seq<char>) -> Seq<char> {
    join(
        seq![csv_header()] + s.map_values(|t: TaskView| join(csv_cells(t, today), ","@)),
        "\n"@,
    ) + "\n"@
}

pub open spec fn md_meta(t: TaskView) -> Seq<Seq<char>> {
    seq![priority_long(t.priority())] + (match t.due_at {
        Some(d) => seq!["截止 "@ + rfc3339_text(d as int)],
        None => seq![],
    }) + (match t.project_name {
        Some(p) => seq!["+"@ + p],
        None => seq![],
    }) + t.tags().map_values(|g: Seq<char>| "#"@ + g) + (match t.estimated_minutes {
        Some(m) => seq![int_text(m as int) + "分钟"@],
        None => seq![],
    })
}

pub open spec fn md_line(t: TaskView) -> Seq<char> {
    "- ["@ + (if t.is_completed {
        "x"@
    } else {
        " "@
    }) + "] "@ + t.title + " _"@ + join(md_meta(t), " · "@) + "_"@
}

pub open spec fn md_section(title: Seq<char>, ts: Seq<TaskView>) -> Seq<Seq<char>> {
    seq!["## "@ + title, seq![]] + (if ts.len() == 0 {
        seq!["- 无"@, seq![]]
    } else {
        ts.map_values(|t: TaskView| md_line(t)) + seq![seq![]]
    })
}

/// The Markdown export at instant `now`: title, export instant, open and then
/// completed tasks.
pub open spec fn md_text(s: Seq<TaskView>, now: i64) -> Seq<char> {
    join(
        seq!["# TaskCap 导出"@, seq![], "导出时间："@ + rfc3339_text(now as int), seq![]] + md_section(
            "未完成"@,
            incomplete(s),
        ) + md_section("已完成"@, completed(s)),
        "\n"@,
    )
}

fn push_all(out: &mut Vec<char>, s: &[char])
    ensures
        final(out)@ == old(out)@ + s@,
{
    let mut i: usize = 0;
    while i < s.len()
        invariant
            i <= s@.len(),
            out@ == old(out)@ + s@.take(i as int),
        decreases s.len() - i,
    {
        out.push(s[i]);
        proof {
            assert(s@.take(i + 1) =~= s@.take(i as int).push(s@[i as int]));
            assert(out@ =~= old(out)@ + s@.take(i + 1));
        }
        i = i + 1;
    }
    proof {
        assert(s@.take(s@.len() as int) =~= s@);
    }
}

fn push_str(out: &mut Vec<char>, s: &str)
    ensures
        final(out)@ == old(out)@ + s@,
{
    let c = crate::text::chars_of(s);
    push_all(out, c.as_slice());
}

fn digit_of(d: u64) -> (r: char)
    requires
        d < 10,
    ensures
        r == digit_char(d as int),
{
    if d == 0 {
        '0'
    } else if d == 1 {
        '1'
    } else if d == 2 {
        '2'
    } else if d == 3 {
        '3'
    } else if d == 4 {
        '4'
    } else if d == 5 {
        '5'
    } else if d == 6 {
        '6'
    } else if d == 7 {
        '7'
    } else if d == 8 {
        '8'
    } else {
        '9'
    }
}

fn push_nat(out: &mut Vec<char>, n: u64)
    ensures
        final(out)@ == old(out)@ + nat_text(n as nat),
    decreases n,
{
    if n >= 10 {
        push_nat(out, n / 10);
    }
    out.push(digit_of(n % 10));
    proof {
        if n >= 10 {
            assert(final(out)@ =~= old(out)@ + nat_text(n as nat));
        } else {
            assert(final(out)@ =~= old(out)@ + nat_text(n as nat));
        }
    }
}

/// The decimal text of an integer.
pub fn int_chars(v: i64) -> (r: Vec<char>)
    ensures
        r@ == int_text(v as int),
{
    let mut out: Vec<char> = Vec::new();
    if v < 0 {
        out.push('-');
        let m: u64 = if v == i64::MIN {
            9_223_372_036_854_775_808
        } else {
            (-v) as u64
        };
        push_nat(&mut out, m);
        proof {
            assert(out@ =~= seq!['-'] + nat_text((-(v as int)) as nat));
        }
    } else {
        push_nat(&mut out, v as u64);
        proof {
            assert(out@ =~= nat_text(v as nat));
        }
    }
    out
}

fn bool_chars(b: bool) -> (r: Vec<char>)
    ensures
        r@ == bool_text(b),
{
    if b {
        crate::text::chars_of("true")
    } else {
        crate::text::chars_of("false")
    }
}

/// `parts` joined with `sep` between them.
pub fn join_chars(parts: &Vec<Vec<char>>, sep: &str) -> (r: Vec<char>)
    ensures
        r@ == join(vv(parts@), sep@),
{
    let sc = crate::text::chars_of(sep);
    let mut r: Vec<char> = Vec::new();
    let mut i: usize = 0;
    while i < parts.len()
        invariant
            i <= parts@.len(),
            sc@ == sep@,
            r@ == join(vv(parts@).take(i as int), sep@),
        decreases parts.len() - i,
    {
        let ghost before = r@;
        proof {
            let p = vv(parts@);
            assert(p.take(i + 1).drop_last() =~= p.take(i as int));
            assert(p.take(i + 1).last() == parts@[i as int]@);
        }
        if i > 0 {
            push_all(&mut r, sc.as_slice());
        }
        push_all(&mut r, parts[i].as_slice());
        proof {
            let p = vv(parts@);
            if i == 0 {
                assert(p.take(1) =~= seq![parts@[0]@]);
                assert(r@ =~= join(p.take(1), sep@));
            } else {
                assert(r@ =~= join(p.take(i as int), sep@) + sep@ + parts@[i as int]@);
            }
        }
        i = i + 1;
    }
    proof {
        assert(vv(parts@).take(parts@.len() as int) =~= vv(parts@));
    }
    r
}

fn text_chars(s: &String) -> (r: Vec<char>)
    ensures
        r@ == s@,
{
    crate::text::chars_of(s.as_str())
}

fn opt_instant_chars(o: Option<i64>) -> (r: Vec<char>)
    ensures
        r@ == opt_instant_text(o),
{
    match o {
        Some(v) => text_chars(&crate::clock::rfc3339(v)),
        None => Vec::new(),
    }
}

fn csv_row(t: &crate::models::TaskItem, today: &str) -> (r: Vec<char>)
    ensures
        r@ == join(csv_cells(t@, today@), ","@),
{
    let mut cells: Vec<Vec<char>> = Vec::new();
    cells.push(text_chars(&crate::ids::id_to_string(t.id)));
    cells.push(text_chars(&crate::csv::csv_escape(t.title.as_str())));
    cells.push(text_chars(&crate::csv::csv_escape(t.notes.as_str())));
    cells.push(bool_chars(t.is_completed));
    cells.push(bool_chars(t.is_current));
    cells.push(crate::text::chars_of(t.priority().short_title()));
    cells.push(opt_instant_chars(t.due_at));
    cells.push(opt_instant_chars(t.reminder_at));
    cells.push(
        match t.repeat_rule() {
            Some(r) => crate::text::chars_of(r.title()),
            None => Vec::new(),
        },
    );
    let tags = t.tags();
    let tag_chars = crate::text::chars_of_all(&tags);
    cells.push(join_chars(&tag_chars, "|"));
    cells.push(
        match &t.project_name {
            Some(p) => text_chars(p),
            None => Vec::new(),
        },
    );
    cells.push(
        match t.estimated_minutes {
            Some(m) => int_chars(m as i64),
            None => Vec::new(),
        },
    );
    cells.push(bool_chars(t.is_in_today_queue_on(today)));
    let mut subs: Vec<Vec<char>> = Vec::new();
    let mut k: usize = 0;
    while k < t.subtasks.len()
        invariant
            k <= t.subtasks@.len(),
            vv(subs@) == t@.subtasks.take(k as int).map_values(|s: SubtaskView| subtask_cell(s)),
        decreases t.subtasks.len() - k,
    {
        let mut c: Vec<char> = Vec::new();
        if t.subtasks[k].is_completed {
            push_str(&mut c, "x");
        } else {
            push_str(&mut c, " ");
        }
        push_str(&mut c, ":");
        push_all(&mut c, crate::text::chars_of(t.subtasks[k].title.as_str()).as_slice());
        let ghost before = subs@;
        subs.push(c);
        proof {
            assert(vv(subs@) =~= vv(before).push(c@));
            assert(t@.subtasks.take(k + 1).map_values(|s: SubtaskView| subtask_cell(s)) =~= t@.subtasks.take(
                k as int,
            ).map_values(|s: SubtaskView| subtask_cell(s)).push(subtask_cell(t@.subtasks[k as int])));
        }
        k = k + 1;
    }
    proof {
        assert(t@.subtasks.take(t@.subtasks.len() as int) =~= t@.subtasks);
    }
    cells.push(join_chars(&subs, "|"));
    cells.push(int_chars(t.focus_seconds()));
    cells.push(int_chars(t.postpone_count() as i64));
    proof {
        assert(vv(cells@) =~= csv_cells(t@, today@));
    }
    join_chars(&cells, ",")
}

fn md_line_chars(t: &crate::models::TaskItem) -> (r: Vec<char>)
    ensures
        r@ == md_line(t@),
{
    let mut meta: Vec<Vec<char>> = Vec::new();
    meta.push(crate::text::chars_of(t.priority().title()));
    let ghost m0 = vv(meta@);
    proof {
        assert(m0 =~= seq![priority_long(t@.priority())]);
    }
    if let Some(d) = t.due_at {
        let mut c = crate::text::chars_of("截止 ");
        push_all(&mut c, text_chars(&crate::clock::rfc3339(d)).as_slice());
        let ghost before = meta@;
        meta.push(c);
        proof {
            assert(vv(meta@) =~= vv(before).push(c@));
        }
    }
    let ghost md = vv(meta@);
    proof {
        assert(md =~= m0 + (match t@.due_at {
            Some(d) => seq!["截止 "@ + rfc3339_text(d as int)],
            None => Seq::<Seq<char>>::empty(),
        }));
    }
    if let Some(p) = &t.project_name {
        let mut c = crate::text::chars_of("+");
        push_all(&mut c, text_chars(p).as_slice());
        let ghost before = meta@;
        meta.push(c);
        proof {
            assert(vv(meta@) =~= vv(before).push(c@));
        }
    }
    let ghost m1 = vv(meta@);
    proof {
        assert(m1 =~= md + (match t@.project_name {
            Some(p) => seq!["+"@ + p],
            None => Seq::<Seq<char>>::empty(),
        }));
    }
    let tags = t.tags();
    let mut k: usize = 0;
    while k < tags.len()
        invariant
            k <= tags@.len(),
            crate::text::texts(tags@) == t@.tags(),
            vv(meta@) == m1 + t@.tags().take(k as int).map_values(|g: Seq<char>| "#"@ + g),
        decreases tags.len() - k,
    {
        let mut c = crate::text::chars_of("#");
        push_all(&mut c, text_chars(&tags[k]).as_slice());
        let ghost before = meta@;
        meta.push(c);
        proof {
            assert(vv(meta@) =~= vv(before).push(c@));
            assert(t@.tags().take(k + 1).map_values(|g: Seq<char>| "#"@ + g) =~= t@.tags().take(
                k as int,
            ).map_values(|g: Seq<char>| "#"@ + g).push("#"@ + tags@[k as int]@));
        }
        k = k + 1;
    }
    proof {
        assert(t@.tags().take(tags@.len() as int) =~= t@.tags());
    }
    let ghost m2 = vv(meta@);
    if let Some(m) = t.estimated_minutes {
        let mut c = int_chars(m as i64);
        push_str(&mut c, "分钟");
        let ghost before = meta@;
        meta.push(c);
        proof {
            assert(vv(meta@) =~= vv(before).push(c@));
        }
    }
    proof {
        assert(vv(meta@) =~= m2 + (match t@.estimated_minutes {
            Some(m) => seq![int_text(m as int) + "分钟"@],
            None => Seq::<Seq<char>>::empty(),
        }));
        assert(vv(meta@) =~= md_meta(t@));
    }
    let mut line = crate::text::chars_of("- [");
    if t.is_completed {
        push_str(&mut line, "x");
    } else {
        push_str(&mut line, " ");
    }
    push_str(&mut line, "] ");
    push_all(&mut line, text_chars(&t.title).as_slice());
    push_str(&mut line, " _");
    push_all(&mut line, join_chars(&meta, " · ").as_slice());
    push_str(&mut line, "_");
    proof {
        assert(line@ =~= md_line(t@));
    }
    line
}

fn md_section_lines(lines: &mut Vec<Vec<char>>, title: &str, ts: &Vec<crate::models::TaskItem>)
    ensures
        vv(final(lines)@) == vv(old(lines)@) + md_section(title@, crate::models::task_views(ts@)),
{
    let mut head = crate::text::chars_of("## ");
    push_str(&mut head, title);
    let ghost hv = head@;
    let ghost l0 = lines@;
    lines.push(head);
    lines.push(Vec::new());
    let ghost base = vv(lines@);
    proof {
        assert(base =~= vv(l0) + seq![hv, Seq::<char>::empty()]);
        assert(hv =~= "## "@ + title@);
    }
    if ts.len() == 0 {
        lines.push(crate::text::chars_of("- 无"));
        lines.push(Vec::new());
        proof {
            assert(vv(lines@) =~= vv(old(lines)@) + md_section(title@, crate::models::task_views(ts@)));
        }
        return;
    }
    let mut i: usize = 0;
    while i < ts.len()
        invariant
            i <= ts@.len(),
            vv(lines@) == base + crate::models::task_views(ts@).take(i as int).map_values(
                |t: TaskView| md_line(t),
            ),
        decreases ts.len() - i,
    {
        let l = md_line_chars(&ts[i]);
        let ghost before = lines@;
        lines.push(l);
        proof {
            assert(vv(lines@) =~= vv(before).push(l@));
            assert(crate::models::task_views(ts@).take(i + 1).map_values(|t: TaskView| md_line(t))
                =~= crate::models::task_views(ts@).take(i as int).map_values(|t: TaskView| md_line(t)).push(
                md_line(ts@[i as int]@),
            ));
        }
        i = i + 1;
    }
    let ghost l1 = lines@;
    lines.push(Vec::new());
    proof {
        let tv = crate::models::task_views(ts@);
        assert(tv.take(ts@.len() as int) =~= tv);
        let mp = tv.map_values(|t: TaskView| md_line(t));
        assert(vv(l1) == base + mp);
        assert(vv(lines@) =~= vv(l1).push(Seq::<char>::empty()));
        assert(md_section(title@, tv) =~= seq![hv, Seq::<char>::empty()] + (mp + seq![Seq::<char>::empty()]));
        assert(vv(lines@) =~= vv(old(lines)@) + md_section(title@, crate::models::task_views(ts@)));
    }
}

impl TaskStore {
    /// The CSV export on the local date `today` (see `csv_text`).
    pub fn csv_export_text_on(&self, today: &str) -> (r: String)
        ensures
            r@ == csv_text(self@.tasks, today@),
    {
        let mut rows: Vec<Vec<char>> = Vec::new();
        rows.push(crate::text::chars_of(
            "id,title,notes,completed,current,priority,dueAt,reminderAt,repeat,tags,project,estimatedMinutes,today,subtasks,focusSeconds,postponeCount",
        ));
        let mut i: usize = 0;
        while i < self.tasks.len()
            invariant
                i <= self.tasks@.len(),
                vv(rows@) == seq![csv_header()] + self@.tasks.take(i as int).map_values(
                    |t: TaskView| join(csv_cells(t, today@), ","@),
                ),
            decreases self.tasks.len() - i,
        {
            let row = csv_row(&self.tasks[i], today);
            let ghost before = rows@;
            rows.push(row);
            proof {
                assert(vv(rows@) =~= vv(before).push(row@));
                assert(self@.tasks.take(i + 1).map_values(|t: TaskView| join(csv_cells(t, today@), ","@))
                    =~= self@.tasks.take(i as int).map_values(|t: TaskView| join(csv_cells(t, today@), ","@)).push(
                    join(csv_cells(self@.tasks[i as int], today@), ","@),
                ));
            }
            i = i + 1;
        }
        proof {
            assert(self@.tasks.take(self@.tasks.len() as int) =~= self@.tasks);
        }
        let mut text = join_chars(&rows, "\n");
        push_str(&mut text, "\n");
        crate::text::string_of(text.as_slice())
    }

    /// `csv_export_text_on` the machine's local date.
    pub fn csv_export_text(&self) -> (r: String)
        ensures
            exists|today: Seq<char>| #![trigger csv_text(self@.tasks, today)] r@ == csv_text(self@.tasks, today),
    {
        let today = crate::clock::local_today();
        self.csv_export_text_on(today.as_str())
    }

    /// The Markdown export at instant `now` (see `md_text`).
    pub fn markdown_export_text_at(&self, now: i64) -> (r: String)
        ensures
            r@ == md_text(self@.tasks, now),
    {
        let mut lines: Vec<Vec<char>> = Vec::new();
        lines.push(crate::text::chars_of("# TaskCap 导出"));
        lines.push(Vec::new());
        let mut stamp = crate::text::chars_of("导出时间：");
        push_all(&mut stamp, text_chars(&crate::clock::rfc3339(now)).as_slice());
        lines.push(stamp);
        lines.push(Vec::new());
        let ghost head = vv(lines@);
        md_section_lines(&mut lines, "未完成", &self.incomplete_tasks());
        md_section_lines(&mut lines, "已完成", &self.completed_tasks());
        proof {
            assert(head =~= seq!["# TaskCap 导出"@, seq![], "导出时间："@ + rfc3339_text(now as int), seq![]]);
        }
        let text = join_chars(&lines, "\n");
        crate::text::string_of(text.as_slice())
    }

    /// `markdown_export_text_at` the machine's clock.
    pub fn markdown_export_text(&self) -> (r: String)
        ensures
            exists|now: i64| #![trigger md_text(self@.tasks, now)] r@ == md_text(self@.tasks, now),
    {
        let now = crate::clock::now_ms();
        self.markdown_export_text_at(now)
    }
}


proof fn lemma_header_line()
    ensures
        csv_line(header_cells()) == csv_header(),
        rows_ok(seq![header_cells()]),
{
    reveal_strlit("id");
    reveal_strlit("title");
    reveal_strlit("notes");
    reveal_strlit("completed");
    reveal_strlit("current");
    reveal_strlit("priority");
    reveal_strlit("dueAt");
    reveal_strlit("reminderAt");
    reveal_strlit("repeat");
    reveal_strlit("tags");
    reveal_strlit("project");
    reveal_strlit("estimatedMinutes");
    reveal_strlit("today");
    reveal_strlit("subtasks");
    reveal_strlit("focusSeconds");
    reveal_strlit("postponeCount");
    reveal_strlit(",");
    reveal_strlit(
        "id,title,notes,completed,current,priority,dueAt,reminderAt,repeat,tags,project,estimatedMinutes,today,subtasks,focusSeconds,postponeCount",
    );
    let h = header_cells();
    let m = h.map_values(|c: Seq<char>| csv_escaped(c));
    assert forall|k: int| 0 <= k < 16 implies !needs_quotes(#[trigger] h[k]) && !h[k].contains('\r') && h[k].len() > 0 by {
        assert(h[k].len() > 0);
        if h[k].contains(',') || h[k].contains('"') || h[k].contains('\n') || h[k].contains('\r') {
            let c = choose|c: char| h[k].contains(c) && (c == ',' || c == '"' || c == '\n' || c == '\r');
            let x = choose|x: int| 0 <= x < h[k].len() && h[k][x] == c;
            assert(false);
        }
    }
    assert(m =~= h);
    assert(join(h, ","@) =~= csv_header()) by {
        reveal_with_fuel(join, 17);
    }
    let r = seq![h];
    assert(any_cell(h)) by {
        assert(h[0].len() > 0);
    }
    assert(r[0] == h);
}

/// The CSV export reads back as its header and, for each task in list order, the
/// values of its row (title and notes as they are), where the row's cells read back
/// (see `export_plain`).
pub proof fn law_csv_export_reads_back(s: Seq<TaskView>, today: Seq<char>)
    requires
        forall|i: int| 0 <= i < s.len() ==> export_plain(#[trigger] s[i], today),
    ensures
        csv_rows(csv_text(s, today)) == seq![header_cells()] + s.map_values(|t: TaskView| export_cells(t, today)),
{
    lemma_header_line();
    let rows = seq![header_cells()] + s.map_values(|t: TaskView| export_cells(t, today));
    assert forall|i: int| 0 <= i < s.len() implies csv_line(#[trigger] export_cells(s[i], today)) == join(
        csv_cells(s[i], today),
        ","@,
    ) by {
        let t = s[i];
        let e = export_cells(t, today);
        assert(e.map_values(|c: Seq<char>| csv_escaped(c)) =~= csv_cells(t, today)) by {
            assert forall|k: int| 0 <= k < 16 implies #[trigger] csv_escaped(e[k]) == csv_cells(t, today)[k] by {
                if k != 1 && k != 2 {
                    assert(plain_cell(csv_cells(t, today)[k]));
                }
            }
        }
    }
    assert(rows.map_values(|r: Seq<Seq<char>>| csv_line(r)) =~= seq![csv_header()] + s.map_values(
        |t: TaskView| join(csv_cells(t, today), ","@),
    ));
    assert(rows_ok(rows)) by {
        assert forall|r: int| 0 <= r < rows.len() implies (#[trigger] rows[r]).len() > 0 && any_cell(rows[r])
            && forall|k: int| 0 <= k < rows[r].len() ==> field_ok(#[trigger] rows[r][k]) by {
            if r > 0 {
                let t = s[r - 1];
                let e = export_cells(t, today);
                assert(rows[r] == e);
                assert(bool_text(t.is_completed).len() > 0) by {
                    reveal_strlit("true");
                    reveal_strlit("false");
                }
                assert(e[3].len() > 0);
                assert forall|k: int| 0 <= k < e.len() implies field_ok(#[trigger] e[k]) by {
                    if k != 1 && k != 2 {
                        assert(plain_cell(csv_cells(t, today)[k]));
                    }
                }
            } else {
                assert(rows[0] == header_cells());
                assert(seq![header_cells()][0] == header_cells());
            }
        }
    }
    assert(csv_doc(rows) == csv_text(s, today));
    law_csv_reads_back_what_it_writes(rows);
}

} // verus!
