//! The CSV side of import and export: quoting, reading rows, normalizing column
//! names, and reading cell values (flags, numbers, priorities, repeat rules, tags,
//! subtasks).

use crate::lexer::{all_ascii_digits, contains_text, decimal, is_ascii_digit};
use crate::clock::{in_range, naive_date_value, naive_datetime_value, rfc3339_value};
use crate::models::{
    subtask_views, ArchiveView, SubtaskView, TaskArchiveItem, TaskPriority, TaskRepeatRule,
    TaskSubtask,
};
use crate::text::{clean_parts, lower_text, split_fields, trim, vv};
use vstd::prelude::*;

verus! {

pub open spec fn needs_quotes(s: Seq<char>) -> bool {
    s.contains(',') || s.contains('"') || s.contains('\n')
}

/// Every `"` doubled.
pub open spec fn double_quotes(s: Seq<char>) -> Seq<char>
    decreases s.len(),
{
    if s.len() == 0 {
        seq![]
    } else {
        double_quotes(s.drop_last()) + (if s.last() == '"' {
            seq!['"', '"']
        } else {
            seq![s.last()]
        })
    }
}

/// A field as CSV writes it: quoted, with inner quotes doubled, where it holds a
/// comma, a quote or a line break.
pub open spec fn csv_escaped(s: Seq<char>) -> Seq<char> {
    if needs_quotes(s) {
        seq!['"'] + double_quotes(s) + seq!['"']
    } else {
        s
    }
}

pub fn csv_escape(value: &str) -> (r: String)
    ensures
        r@ == csv_escaped(value@),
{
    let v = crate::text::chars_of(value);
    let mut quote = false;
    let mut body: Vec<char> = Vec::new();
    let mut i: usize = 0;
    while i < v.len()
        invariant
            i <= v@.len(),
            body@ == double_quotes(v@.take(i as int)),
            quote == (v@.take(i as int).contains(',') || v@.take(i as int).contains('"')
                || v@.take(i as int).contains('\n')),
        decreases v.len() - i,
    {
        let c = v[i];
        proof {
            let s = v@.take(i + 1);
            assert(s.drop_last() =~= v@.take(i as int));
            assert(s.last() == c);
            assert forall|x: char| s.contains(x) <==> (v@.take(i as int).contains(x) || x == c) by {
                if s.contains(x) {
                    let k = choose|k: int| 0 <= k < s.len() && s[k] == x;
                    if k < i {
                        assert(v@.take(i as int)[k] == x);
                    }
                }
                if v@.take(i as int).contains(x) {
                    let k = choose|k: int| 0 <= k < i && v@.take(i as int)[k] == x;
                    assert(s[k] == x);
                }
                if x == c {
                    assert(s[i as int] == x);
                }
            }
        }
        if c == ',' || c == '"' || c == '\n' {
            quote = true;
        }
        if c == '"' {
            body.push('"');
            body.push('"');
        } else {
            body.push(c);
        }
        proof {
            assert(body@ =~= double_quotes(v@.take(i + 1)));
        }
        i = i + 1;
    }
    proof {
        assert(v@.take(v@.len() as int) =~= v@);
    }
    if quote {
        let mut out: Vec<char> = Vec::new();
        out.push('"');
        let mut k: usize = 0;
        while k < body.len()
            invariant
                k <= body@.len(),
                out@ == seq!['"'] + body@.take(k as int),
            decreases body.len() - k,
        {
            out.push(body[k]);
            proof {
                assert(body@.take(k + 1) =~= body@.take(k as int).push(body@[k as int]));
                assert(out@ =~= seq!['"'] + body@.take(k + 1));
            }
            k = k + 1;
        }
        out.push('"');
        proof {
            assert(body@.take(body@.len() as int) =~= body@);
            assert(out@ =~= seq!['"'] + body@ + seq!['"']);
        }
        crate::text::string_of(out.as_slice())
    } else {
        String::from_str(value)
    }
}

/// A text without spaces, underscores and hyphens.
pub open spec fn drop_seps(s: Seq<char>) -> Seq<char>
    decreases s.len(),
{
    if s.len() == 0 {
        seq![]
    } else {
        let r = drop_seps(s.drop_last());
        if s.last() == ' ' || s.last() == '_' || s.last() == '-' {
            r
        } else {
            r.push(s.last())
        }
    }
}

/// A column name as the importer compares it: trimmed, lower-cased, without
/// spaces, underscores and hyphens.
pub open spec fn csv_key(s: Seq<char>) -> Seq<char> {
    drop_seps(lower_text(trim(s)))
}

pub fn normalize_csv_key(key: &str) -> (r: String)
    ensures
        r@ == csv_key(key@),
{
    let t = crate::text::trimmed(key);
    let lowered = crate::text::to_lower(t.as_str());
    let v = crate::text::chars_of(lowered.as_str());
    let mut out: Vec<char> = Vec::new();
    let mut i: usize = 0;
    while i < v.len()
        invariant
            i <= v@.len(),
            out@ == drop_seps(v@.take(i as int)),
        decreases v.len() - i,
    {
        proof {
            let s = v@.take(i + 1);
            assert(s.drop_last() =~= v@.take(i as int));
        }
        let c = v[i];
        if !(c == ' ' || c == '_' || c == '-') {
            out.push(c);
        }
        i = i + 1;
    }
    proof {
        assert(v@.take(v@.len() as int) =~= v@);
    }
    crate::text::string_of(out.as_slice())
}

/// Where the CSV reader stands: rows done, cells of the current row, the current
/// cell, and whether it is inside quotes.
#[verifier::ext_equal]
pub struct CsvState {
    pub rows: Seq<Seq<Seq<char>>>,
    pub row: Seq<Seq<char>>,
    pub field: Seq<char>,
    pub quoted: bool,
}

pub open spec fn any_cell(row: Seq<Seq<char>>) -> bool {
    exists|k: int| 0 <= k < row.len() && #[trigger] row[k].len() > 0
}

/// A row is kept when one of its cells is not empty.
pub open spec fn keep_row(rows: Seq<Seq<Seq<char>>>, row: Seq<Seq<char>>) -> Seq<Seq<Seq<char>>> {
    if any_cell(row) {
        rows.push(row)
    } else {
        rows
    }
}

/// Reads `t` from position `i` on.
pub open spec fn csv_from(t: Seq<char>, i: int, st: CsvState) -> CsvState
    decreases t.len() - i,
{
    if i < 0 || i >= t.len() {
        st
    } else {
        let ch = t[i];
        if ch == '"' {
            if st.quoted && i + 1 < t.len() && t[i + 1] == '"' {
                csv_from(t, i + 2, CsvState { field: st.field.push('"'), ..st })
            } else {
                csv_from(t, i + 1, CsvState { quoted: !st.quoted, ..st })
            }
        } else if ch == ',' && !st.quoted {
            csv_from(t, i + 1, CsvState { row: st.row.push(st.field), field: seq![], ..st })
        } else if (ch == '\n' || ch == '\r') && !st.quoted {
            let j = if ch == '\r' && i + 1 < t.len() && t[i + 1] == '\n' {
                i + 2
            } else {
                i + 1
            };
            csv_from(
                t,
                j,
                CsvState {
                    rows: keep_row(st.rows, st.row.push(st.field)),
                    row: seq![],
                    field: seq![],
                    quoted: st.quoted,
                },
            )
        } else {
            csv_from(t, i + 1, CsvState { field: st.field.push(ch), ..st })
        }
    }
}

/// The rows of a CSV text: fields split at commas outside quotes, `""` inside
/// quotes for a quote, rows ended by `\n`, `\r` or `\r\n` outside quotes; rows
/// whose cells are all empty are dropped.
pub open spec fn csv_rows(t: Seq<char>) -> Seq<Seq<Seq<char>>> {
    let st = csv_from(t, 0, CsvState { rows: seq![], row: seq![], field: seq![], quoted: false });
    keep_row(st.rows, st.row.push(st.field))
}

pub open spec fn rows_view(v: Seq<Vec<String>>) -> Seq<Seq<Seq<char>>> {
    v.map_values(|r: Vec<String>| crate::text::texts(r@))
}

fn any_cell_exec(row: &Vec<String>) -> (r: bool)
    ensures
        r == any_cell(crate::text::texts(row@)),
{
    let mut k: usize = 0;
    while k < row.len()
        invariant
            k <= row@.len(),
            forall|j: int| 0 <= j < k ==> row@[j]@.len() == 0,
        decreases row.len() - k,
    {
        if crate::text::chars_of(row[k].as_str()).len() > 0 {
            proof {
                assert(crate::text::texts(row@)[k as int].len() > 0);
            }
            return true;
        }
        k = k + 1;
    }
    proof {
        assert forall|j: int| 0 <= j < row@.len() implies !(#[trigger] crate::text::texts(row@)[j].len() > 0) by {
            assert(row@[j]@.len() == 0);
        }
    }
    false
}

/// Reads the rows of a CSV text (see `csv_rows`).
pub fn parse_csv(text: &str) -> (r: Vec<Vec<String>>)
    ensures
        rows_view(r@) == csv_rows(text@),
{
    let t = crate::text::chars_of(text);
    let n = t.len();
    let mut rows: Vec<Vec<String>> = Vec::new();
    let mut row: Vec<String> = Vec::new();
    let mut field: Vec<char> = Vec::new();
    let mut quoted = false;
    let mut i: usize = 0;
    let ghost init = CsvState { rows: seq![], row: seq![], field: seq![], quoted: false };
    proof {
        assert(rows_view(rows@) =~= Seq::<Seq<Seq<char>>>::empty());
        assert(crate::text::texts(row@) =~= Seq::<Seq<char>>::empty());
        assert(field@ =~= Seq::<char>::empty());
    }
    while i < n
        invariant
            n == t@.len(),
            t@ == text@,
            i <= n,
            csv_from(t@, i as int, CsvState {
                rows: rows_view(rows@),
                row: crate::text::texts(row@),
                field: field@,
                quoted,
            }) == csv_from(t@, 0, init),
        decreases n - i,
    {
        let ghost st = CsvState {
            rows: rows_view(rows@),
            row: crate::text::texts(row@),
            field: field@,
            quoted,
        };
        let ch = t[i];
        if ch == '"' {
            if quoted && i + 1 < n && t[i + 1] == '"' {
                field.push('"');
                i = i + 2;
            } else {
                quoted = !quoted;
                i = i + 1;
            }
        } else if ch == ',' && !quoted {
            let cell = crate::text::string_of(field.as_slice());
            let ghost before = row@;
            row.push(cell);
            proof {
                assert(crate::text::texts(row@) =~= crate::text::texts(before).push(st.field));
            }
            field = Vec::new();
            i = i + 1;
        } else if (ch == '\n' || ch == '\r') && !quoted {
            let next = if ch == '\r' && i + 1 < n && t[i + 1] == '\n' {
                i + 2
            } else {
                i + 1
            };
            let cell = crate::text::string_of(field.as_slice());
            let ghost before = row@;
            row.push(cell);
            proof {
                assert(crate::text::texts(row@) =~= crate::text::texts(before).push(st.field));
            }
            if any_cell_exec(&row) {
                let ghost rb = rows@;
                rows.push(row);
                proof {
                    assert(rows_view(rows@) =~= rows_view(rb).push(st.row.push(st.field)));
                }
            }
            row = Vec::new();
            field = Vec::new();
            proof {
                assert(crate::text::texts(row@) =~= Seq::<Seq<char>>::empty());
            }
            i = next;
        } else {
            field.push(ch);
            i = i + 1;
        }
    }
    let cell = crate::text::string_of(field.as_slice());
    let ghost st = CsvState {
        rows: rows_view(rows@),
        row: crate::text::texts(row@),
        field: field@,
        quoted,
    };
    let ghost before = row@;
    row.push(cell);
    proof {
        assert(crate::text::texts(row@) =~= crate::text::texts(before).push(st.field));
        assert(csv_from(t@, i as int, st) == st);
    }
    if any_cell_exec(&row) {
        let ghost rb = rows@;
        rows.push(row);
        proof {
            assert(rows_view(rows@) =~= rows_view(rb).push(st.row.push(st.field)));
        }
    }
    rows
}

/// What `i32::from_str` reads: an optional sign, then ASCII digits, within range.
pub open spec fn parse_i32(s: Seq<char>) -> Option<int> {
    let neg = s.len() > 0 && s[0] == '-';
    let body = if s.len() > 0 && (s[0] == '-' || s[0] == '+') {
        s.drop_first()
    } else {
        s
    };
    if body.len() > 0 && all_ascii_digits(body) {
        let v = if neg {
            -decimal(body)
        } else {
            decimal(body)
        };
        if i32::MIN <= v <= i32::MAX {
            Some(v)
        } else {
            None
        }
    } else {
        None
    }
}

proof fn lemma_decimal_prefix(s: Seq<char>, k: int)
    requires
        0 <= k <= s.len(),
        all_ascii_digits(s),
    ensures
        0 <= decimal(s.take(k)) <= decimal(s),
    decreases s.len(),
{
    if s.len() > 0 {
        assert(all_ascii_digits(s.drop_last()));
        if k < s.len() {
            lemma_decimal_prefix(s.drop_last(), k);
            assert(s.drop_last().take(k) =~= s.take(k));
        } else {
            assert(s.take(k) =~= s);
            lemma_decimal_prefix(s.drop_last(), k - 1);
        }
        assert(s.drop_last() =~= s.take(s.len() - 1));
    }
}

pub fn parse_i32_exec(s: &[char]) -> (r: Option<i32>)
    ensures
        crate::parser::opt_int32(r) == parse_i32(s@),
{
    let n = s.len();
    if n == 0 {
        return None;
    }
    let neg = s[0] == '-';
    let start: usize = if s[0] == '-' || s[0] == '+' {
        1
    } else {
        0
    };
    let ghost body = s@.subrange(start as int, n as int);
    proof {
        if start == 1 {
            assert(body =~= s@.drop_first());
        } else {
            assert(body =~= s@);
        }
    }
    if start == n {
        return None;
    }
    let mut acc: i64 = 0;
    let mut i = start;
    while i < n
        invariant
            start <= i <= n,
            n == s@.len(),
            n > 0,
            body == s@.subrange(start as int, n as int),
            body == (if s@.len() > 0 && (s@[0] == '-' || s@[0] == '+') {
                s@.drop_first()
            } else {
                s@
            }),
            neg == (s@[0] == '-'),
            all_ascii_digits(body.take(i - start)),
            acc == decimal(body.take(i - start)),
            0 <= acc <= 2_147_483_648,
        decreases n - i,
    {
        let c = s[i];
        proof {
            assert(body.take(i - start + 1).drop_last() =~= body.take(i - start));
            assert(body.take(i - start + 1).last() == c);
        }
        proof {
            assert(body[i - start] == s@[i as int]);
        }
        if !('0' <= c && c <= '9') {
            proof {
                assert(!is_ascii_digit(body[i - start]));
                assert(!all_ascii_digits(body));
            }
            return None;
        }
        proof {
            let p = body.take(i - start + 1);
            assert forall|k: int| 0 <= k < p.len() implies is_ascii_digit(#[trigger] p[k]) by {
                if k < i - start {
                    assert(p[k] == body.take(i - start)[k]);
                }
            }
        }
        let next = acc * 10 + (c as i64 - '0' as i64);
        if next > 2_147_483_648 {
            proof {
                assert(decimal(body.take(i - start + 1)) == next);
                if all_ascii_digits(body) {
                    lemma_decimal_prefix(body, i - start + 1);
                    assert(decimal(body) > 2_147_483_648);
                }
            }
            return None;
        }
        acc = next;
        i = i + 1;
    }
    proof {
        assert(body.take(n - start) =~= body);
    }
    if neg {
        Some((0 - acc) as i32)
    } else if acc > 2_147_483_647 {
        None
    } else {
        Some(acc as i32)
    }
}

/// `value.trim().parse::<i32>().ok()`.
pub fn csv_int(value: &str) -> (r: Option<i32>)
    ensures
        crate::parser::opt_int32(r) == parse_i32(trim(value@)),
{
    let t = crate::text::trim_vec(crate::text::chars_of(value).as_slice());
    parse_i32_exec(t.as_slice())
}

pub open spec fn truthy(n: Seq<char>) -> bool {
    n == "true"@ || n == "yes"@ || n == "1"@ || n == "x"@ || n == "done"@ || n == "completed"@
        || n == "已完成"@ || n == "是"@
}

fn is_text(a: &String, b: &str) -> (r: bool)
    ensures
        r == (a@ == b@),
{
    *a == String::from_str(b)
}

/// A cell that reads as yes: true, yes, 1, x, done, completed, 已完成 or 是 (trimmed,
/// lower-cased).
pub fn csv_bool(value: &str) -> (r: bool)
    ensures
        r == truthy(lower_text(trim(value@))),
{
    let n = crate::text::to_lower(crate::text::trimmed(value).as_str());
    is_text(&n, "true") || is_text(&n, "yes") || is_text(&n, "1") || is_text(&n, "x")
        || is_text(&n, "done") || is_text(&n, "completed") || is_text(&n, "已完成") || is_text(
        &n,
        "是",
    )
}

pub open spec fn priority_of_cell(n: Seq<char>) -> TaskPriority {
    if contains_text(n, "高"@) || contains_text(n, "high"@) || n == "p1"@ || n == "1"@ || n == "4"@ {
        TaskPriority::High
    } else if contains_text(n, "低"@) || contains_text(n, "low"@) || n == "p3"@ || n == "3"@ {
        TaskPriority::Low
    } else {
        TaskPriority::Medium
    }
}

fn has_text(hay: &Vec<char>, word: &str) -> (r: bool)
    ensures
        r == contains_text(hay@, word@),
{
    let w = crate::text::chars_of(word);
    crate::lexer::contains_exec(hay.as_slice(), w.as_slice())
}

/// A priority cell (trimmed, lower-cased): 高/high/p1/1/4 is high, 低/low/p3/3 is low,
/// anything else medium.
pub fn csv_priority(value: &str) -> (r: TaskPriority)
    ensures
        r == priority_of_cell(lower_text(trim(value@))),
{
    let n = crate::text::to_lower(crate::text::trimmed(value).as_str());
    let c = crate::text::chars_of(n.as_str());
    if has_text(&c, "高") || has_text(&c, "high") || is_text(&n, "p1") || is_text(&n, "1") || is_text(
        &n,
        "4",
    ) {
        TaskPriority::High
    } else if has_text(&c, "低") || has_text(&c, "low") || is_text(&n, "p3") || is_text(&n, "3") {
        TaskPriority::Low
    } else {
        TaskPriority::Medium
    }
}

pub open spec fn repeat_of_cell(n: Seq<char>) -> Option<TaskRepeatRule> {
    if contains_text(n, "每天"@) || contains_text(n, "daily"@) {
        Some(TaskRepeatRule::Daily)
    } else if contains_text(n, "每周"@) || contains_text(n, "weekly"@) {
        Some(TaskRepeatRule::Weekly)
    } else if contains_text(n, "每月"@) || contains_text(n, "monthly"@) {
        Some(TaskRepeatRule::Monthly)
    } else if contains_text(n, "每年"@) || contains_text(n, "yearly"@) || contains_text(
        n,
        "annually"@,
    ) {
        Some(TaskRepeatRule::Yearly)
    } else {
        None
    }
}

/// A repeat cell (trimmed, lower-cased) that names a rule.
pub fn csv_repeat(value: &str) -> (r: Option<TaskRepeatRule>)
    ensures
        r == repeat_of_cell(lower_text(trim(value@))),
{
    let n = crate::text::to_lower(crate::text::trimmed(value).as_str());
    let c = crate::text::chars_of(n.as_str());
    if has_text(&c, "每天") || has_text(&c, "daily") {
        Some(TaskRepeatRule::Daily)
    } else if has_text(&c, "每周") || has_text(&c, "weekly") {
        Some(TaskRepeatRule::Weekly)
    } else if has_text(&c, "每月") || has_text(&c, "monthly") {
        Some(TaskRepeatRule::Monthly)
    } else if has_text(&c, "每年") || has_text(&c, "yearly") || has_text(&c, "annually") {
        Some(TaskRepeatRule::Yearly)
    } else {
        None
    }
}

/// `|`, `;`, space and `#` all separate tags; they become `|`.
pub open spec fn unify_tag_seps(s: Seq<char>) -> Seq<char> {
    s.map_values(
        |c: char|
            if c == ';' || c == ' ' || c == '#' {
                '|'
            } else {
                c
            },
    )
}

/// The tags of a cell: split at `|`, `;`, space or `#`, trimmed, blanks dropped.
pub open spec fn tags_of_cell(s: Seq<char>) -> Seq<Seq<char>> {
    clean_parts(split_fields(unify_tag_seps(s), '|'))
}

pub fn csv_tags(value: &str) -> (r: Vec<String>)
    ensures
        crate::text::texts(r@) == tags_of_cell(value@),
{
    let v = crate::text::chars_of(value);
    let mut u: Vec<char> = Vec::new();
    let mut i: usize = 0;
    while i < v.len()
        invariant
            i <= v@.len(),
            u@ == unify_tag_seps(v@.take(i as int)),
        decreases v.len() - i,
    {
        let c = v[i];
        if c == ';' || c == ' ' || c == '#' {
            u.push('|');
        } else {
            u.push(c);
        }
        proof {
            assert(u@ =~= unify_tag_seps(v@.take(i + 1)));
        }
        i = i + 1;
    }
    proof {
        assert(v@.take(v@.len() as int) =~= v@);
    }
    let parts = crate::text::split_on(u.as_slice(), '|');
    let cleaned = crate::text::clean_parts_vec(&parts);
    crate::text::strings_of(&cleaned)
}

/// One subtask of a cell piece: `x:` marks it done, the title is what follows
/// (trimmed); a piece that is blank, or whose title is blank, gives none.
pub open spec fn subtask_of_piece(piece: Seq<char>) -> Option<(Seq<char>, bool)> {
    let text = trim(piece);
    if text.len() == 0 {
        None
    } else {
        let (done, rest) = if text.len() >= 2 && text[0] == 'x' && text[1] == ':' {
            (true, text.skip(2))
        } else if text.len() >= 2 && text[0] == ' ' && text[1] == ':' {
            (false, text.skip(2))
        } else {
            (false, text)
        };
        if trim(rest).len() == 0 {
            None
        } else {
            Some((trim(rest), done))
        }
    }
}

pub open spec fn subtask_pieces(ps: Seq<Seq<char>>) -> Seq<(Seq<char>, bool)>
    decreases ps.len(),
{
    if ps.len() == 0 {
        seq![]
    } else {
        let r = subtask_pieces(ps.drop_last());
        match subtask_of_piece(ps.last()) {
            Some(x) => r.push(x),
            None => r,
        }
    }
}

/// The subtasks of a cell: pieces split at `|`, each read by `subtask_of_piece`.
pub open spec fn subtasks_of_cell(s: Seq<char>) -> Seq<(Seq<char>, bool)> {
    subtask_pieces(split_fields(s, '|'))
}

pub open spec fn title_done(v: Seq<(String, bool)>) -> Seq<(Seq<char>, bool)> {
    v.map_values(|p: (String, bool)| (p.0@, p.1))
}

/// The (title, done) pairs of a subtasks cell.
pub fn csv_subtask_parts(value: &str) -> (r: Vec<(String, bool)>)
    ensures
        title_done(r@) == subtasks_of_cell(value@),
{
    let v = crate::text::chars_of(value);
    let parts = crate::text::split_on(v.as_slice(), '|');
    let mut r: Vec<(String, bool)> = Vec::new();
    let mut i: usize = 0;
    while i < parts.len()
        invariant
            i <= parts@.len(),
            title_done(r@) == subtask_pieces(vv(parts@).take(i as int)),
        decreases parts.len() - i,
    {
        proof {
            let s = vv(parts@).take(i + 1);
            assert(s.drop_last() =~= vv(parts@).take(i as int));
            assert(s.last() == parts@[i as int]@);
        }
        let text = crate::text::trim_vec(parts[i].as_slice());
        if text.len() > 0 {
            let (done, from): (bool, usize) = if text.len() >= 2 && text[0] == 'x' && text[1] == ':' {
                (true, 2)
            } else if text.len() >= 2 && text[0] == ' ' && text[1] == ':' {
                (false, 2)
            } else {
                (false, 0)
            };
            let rest = crate::text::slice_to_vec(text.as_slice(), from, text.len());
            proof {
                if from == 2 {
                    assert(rest@ =~= text@.skip(2));
                } else {
                    assert(rest@ =~= text@);
                }
            }
            let title = crate::text::trim_vec(rest.as_slice());
            if title.len() > 0 {
                let s = crate::text::string_of(title.as_slice());
                let ghost before = r@;
                r.push((s, done));
                proof {
                    assert(title_done(r@) =~= title_done(before).push((s@, done)));
                }
            }
        }
        i = i + 1;
    }
    proof {
        assert(vv(parts@).take(parts@.len() as int) =~= vv(parts@));
    }
    r
}

/// Column values of one row: (normalized column name, cell), later columns of the
/// same name taking precedence.
pub open spec fn pairs_view(v: Seq<(String, String)>) -> Seq<(Seq<char>, Seq<char>)> {
    v.map_values(|p: (String, String)| (p.0@, p.1@))
}

/// The cell stored under column `k` (the last one stored).
pub open spec fn lookup(values: Seq<(Seq<char>, Seq<char>)>, k: Seq<char>) -> Option<Seq<char>>
    decreases values.len(),
{
    if values.len() == 0 {
        None
    } else if values.last().0 == k {
        Some(values.last().1)
    } else {
        lookup(values.drop_last(), k)
    }
}

pub open spec fn key_texts(keys: Seq<&str>) -> Seq<Seq<char>> {
    keys.map_values(|k: &str| k@)
}

/// The first non-blank cell among the columns named by `keys` (each normalized),
/// or an empty text.
pub open spec fn first_value(values: Seq<(Seq<char>, Seq<char>)>, keys: Seq<Seq<char>>) -> Seq<char>
    decreases keys.len(),
{
    if keys.len() == 0 {
        seq![]
    } else {
        match lookup(values, csv_key(keys[0])) {
            Some(v) => if trim(v).len() > 0 {
                v
            } else {
                first_value(values, keys.drop_first())
            },
            None => first_value(values, keys.drop_first()),
        }
    }
}

fn lookup_exec(values: &Vec<(String, String)>, k: &String) -> (r: Option<String>)
    ensures
        crate::models::opt_text(r) == lookup(pairs_view(values@), k@),
{
    let mut i = values.len();
    proof {
        assert(pairs_view(values@).take(values@.len() as int) =~= pairs_view(values@));
    }
    while i > 0
        invariant
            i <= values@.len(),
            lookup(pairs_view(values@), k@) == lookup(pairs_view(values@).take(i as int), k@),
        decreases i,
    {
        proof {
            let s = pairs_view(values@).take(i as int);
            assert(s.drop_last() =~= pairs_view(values@).take(i - 1));
            assert(s.last() == (values@[i - 1].0@, values@[i - 1].1@));
        }
        if values[i - 1].0 == *k {
            return Some(String::from_str(values[i - 1].1.as_str()));
        }
        i = i - 1;
    }
    None
}

/// The first non-blank cell among the columns `keys` (see `first_value`).
pub fn first_csv_value(values: &Vec<(String, String)>, keys: &[&str]) -> (r: String)
    ensures
        r@ == first_value(pairs_view(values@), key_texts(keys@)),
{
    let mut i: usize = 0;
    proof {
        assert(key_texts(keys@).skip(0) =~= key_texts(keys@));
    }
    while i < keys.len()
        invariant
            i <= keys@.len(),
            first_value(pairs_view(values@), key_texts(keys@)) == first_value(
                pairs_view(values@),
                key_texts(keys@).skip(i as int),
            ),
        decreases keys.len() - i,
    {
        let ghost rest = key_texts(keys@).skip(i as int);
        proof {
            assert(rest[0] == keys@[i as int]@);
            assert(rest.drop_first() =~= key_texts(keys@).skip(i + 1));
        }
        let normalized = normalize_csv_key(keys[i]);
        if let Some(v) = lookup_exec(values, &normalized) {
            let t = crate::text::trim_vec(crate::text::chars_of(v.as_str()).as_slice());
            if t.len() > 0 {
                return v;
            }
        }
        i = i + 1;
    }
    proof {
        assert(key_texts(keys@).skip(keys@.len() as int) =~= Seq::<Seq<char>>::empty());
    }
    String::new()
}

pub open spec fn date_format(k: int) -> Seq<char> {
    if k == 0 {
        "%Y-%m-%d %H:%M"@
    } else if k == 1 {
        "%Y/%m/%d %H:%M"@
    } else if k == 2 {
        "%Y-%m-%d"@
    } else {
        "%Y/%m/%d"@
    }
}

/// Tries the formats from `k` on: a date and time, then a date at midnight (UTC).
pub open spec fn date_from_formats(c: Seq<char>, k: int) -> Option<int>
    decreases 4 - k,
{
    if k < 0 || k >= 4 {
        None
    } else {
        match naive_datetime_value(c, date_format(k)) {
            Some(v) => Some(v),
            None => match naive_date_value(c, date_format(k)) {
                Some(v) => Some(v),
                None => date_from_formats(c, k + 1),
            },
        }
    }
}

/// A date cell: RFC 3339, else `YYYY-MM-DD HH:MM`, `YYYY/MM/DD HH:MM`, `YYYY-MM-DD`,
/// `YYYY/MM/DD` (UTC); none for a blank or unreadable cell.
pub open spec fn date_of_cell(s: Seq<char>) -> Option<int> {
    let c = trim(s);
    if c.len() == 0 {
        None
    } else {
        match rfc3339_value(c) {
            Some(v) => Some(v),
            None => date_from_formats(c, 0),
        }
    }
}

fn format_text(k: usize) -> (r: &'static str)
    requires
        k < 4,
    ensures
        r@ == date_format(k as int),
{
    if k == 0 {
        "%Y-%m-%d %H:%M"
    } else if k == 1 {
        "%Y/%m/%d %H:%M"
    } else if k == 2 {
        "%Y-%m-%d"
    } else {
        "%Y/%m/%d"
    }
}

pub fn csv_date(value: &str) -> (r: Option<i64>)
    ensures
        crate::parser::opt_int(r) == date_of_cell(value@),
        r matches Some(v) ==> in_range(v as int),
{
    let cleaned = crate::text::trimmed(value);
    if crate::text::chars_of(cleaned.as_str()).len() == 0 {
        return None;
    }
    if let Some(v) = crate::clock::parse_rfc3339(cleaned.as_str()) {
        return Some(v);
    }
    let mut k: usize = 0;
    while k < 4
        invariant
            k <= 4,
            cleaned@ == trim(value@),
            cleaned@.len() > 0,
            rfc3339_value(cleaned@) is None,
            date_from_formats(cleaned@, 0) == date_from_formats(cleaned@, k as int),
        decreases 4 - k,
    {
        let fmt = format_text(k);
        if let Some(v) = crate::clock::parse_naive_datetime(cleaned.as_str(), fmt) {
            return Some(v);
        }
        if let Some(v) = crate::clock::parse_naive_date(cleaned.as_str(), fmt) {
            return Some(v);
        }
        k = k + 1;
    }
    None
}

pub open spec fn title_keys() -> Seq<Seq<char>> {
    seq!["title"@, "content"@, "taskname"@, "name"@, "任务"@, "标题"@]
}

/// What a CSV row says of a task, but the identifiers of its subtasks: the fields
/// that `archive_item_from_csv` fills, with `now` for missing instants and
/// `fallback_id` where the row has no readable identifier.
pub open spec fn csv_item_matches(
    values: Seq<(Seq<char>, Seq<char>)>,
    now: i64,
    fallback_id: u128,
    x: ArchiveView,
) -> bool {
    let is_completed = truthy(lower_text(trim(first_value(values, seq!["completed"@, "complete"@, "done"@, "已完成"@]))));
    let due_at = date_of_cell(first_value(values, seq!["dueat"@, "duedate"@, "date"@, "到期"@, "截止"@]));
    let project = first_value(values, seq!["project"@, "projectname"@, "list"@, "section"@, "项目"@, "清单"@]);
    let subs = subtasks_of_cell(first_value(values, seq!["subtasks"@, "steps"@, "子任务"@]));
    let rule = repeat_of_cell(lower_text(trim(first_value(values, seq!["repeat"@, "recurring"@, "重复"@]))));
    &&& x.id == (match crate::ids::id_value(first_value(values, seq!["id"@, "uuid"@])) {
        Some(u) => u,
        None => fallback_id,
    })
    &&& x.title == first_value(values, title_keys())
    &&& x.notes == first_value(values, seq!["notes"@, "description"@, "备注"@, "描述"@])
    &&& x.is_completed == is_completed
    &&& x.is_current == truthy(lower_text(trim(first_value(values, seq!["current"@, "iscurrent"@, "当前"@]))))
    &&& x.created_at == (match date_of_cell(first_value(values, seq!["createdat"@, "created"@, "创建时间"@])) {
        Some(v) => v as i64,
        None => now,
    })
    &&& x.updated_at == (match date_of_cell(first_value(values, seq!["updatedat"@, "updated"@, "更新时间"@])) {
        Some(v) => v as i64,
        None => now,
    })
    &&& x.completed_at == (match date_of_cell(first_value(values, seq!["completedat"@, "completeddate"@, "完成时间"@])) {
        Some(v) => Some(v as i64),
        None => if is_completed {
            Some(now)
        } else {
            None
        },
    })
    &&& x.sort_index == (match parse_i32(trim(first_value(values, seq!["sortindex"@, "order"@, "排序"@]))) {
        Some(v) => v as i32,
        None => 0,
    })
    &&& x.priority_raw_value == Some(priority_of_cell(lower_text(trim(first_value(values, seq!["priority"@, "优先级"@])))).raw())
    &&& x.due_at == crate::store::lifecycle::i64_opt(due_at)
    &&& x.reminder_at == (match date_of_cell(first_value(values, seq!["reminderat"@, "reminder"@, "提醒"@])) {
        Some(v) => Some(v as i64),
        None => crate::store::lifecycle::i64_opt(due_at),
    })
    &&& x.repeat_rule_raw_value == crate::models::rule_raw(rule)
    &&& x.tags == tags_of_cell(first_value(values, seq!["tags"@, "labels"@, "label"@, "标签"@]))
    &&& x.project_name == (if project.len() == 0 {
        None
    } else {
        Some(project)
    })
    &&& x.estimated_minutes == crate::store::lifecycle::i32_opt(parse_i32(trim(first_value(values, seq!["estimatedminutes"@, "duration"@, "预计分钟"@]))))
    &&& x.today_sort_index == (if truthy(lower_text(trim(first_value(values, seq!["today"@, "myday"@, "今天"@])))) {
        Some(0i32)
    } else {
        None
    })
    &&& x.subtasks.len() == subs.len()
    &&& forall|k: int|
        0 <= k < subs.len() ==> (#[trigger] x.subtasks[k]).title == subs[k].0 && x.subtasks[k].is_completed
            == subs[k].1 && in_range(x.subtasks[k].created_at as int)
    &&& x.focus_started_at is None
    &&& x.focus_accumulated_seconds == (match parse_i32(trim(first_value(values, seq!["focusseconds"@, "专注秒数"@]))) {
        Some(v) => v as i64,
        None => 0,
    })
    &&& x.postponed_at is None
    &&& x.postpone_count == (match parse_i32(trim(first_value(values, seq!["postponecount"@, "推迟次数"@]))) {
        Some(v) => v as i32,
        None => 0,
    })
}

fn opt_date(v: Option<i64>, fallback: Option<i64>) -> (r: Option<i64>)
    ensures
        r == (match v {
            Some(x) => Some(x),
            None => fallback,
        }),
{
    match v {
        Some(x) => Some(x),
        None => fallback,
    }
}

/// A task from a CSV row at instant `now`; `None` when the row has no title.
#[verifier::spinoff_prover]
#[verifier::rlimit(100)]
/// Missing identifiers are `fallback_id`; subtasks get fresh identifiers.
pub fn archive_item_from_csv_at(values: &Vec<(String, String)>, now: i64, fallback_id: u128) -> (r:
    Option<TaskArchiveItem>)
    requires
        in_range(now as int),
    ensures
        r is None <==> trim(first_value(pairs_view(values@), title_keys())).len() == 0,
        r matches Some(x) ==> csv_item_matches(pairs_view(values@), now, fallback_id, x@),
{
    let ghost vals = pairs_view(values@);
    let title = first_csv_value(values, &["title", "content", "taskname", "name", "任务", "标题"]);
    proof {
        assert(key_texts(["title", "content", "taskname", "name", "任务", "标题"]@) =~= title_keys());
    }
    if crate::text::chars_of(crate::text::trimmed(title.as_str()).as_str()).len() == 0 {
        return None;
    }
    let id = match crate::ids::parse_id(first_csv_value(values, &["id", "uuid"]).as_str()) {
        Some(u) => u,
        None => fallback_id,
    };
    let notes = first_csv_value(values, &["notes", "description", "备注", "描述"]);
    let is_completed = csv_bool(first_csv_value(values, &["completed", "complete", "done", "已完成"]).as_str());
    let is_current = csv_bool(first_csv_value(values, &["current", "iscurrent", "当前"]).as_str());
    let created_at = match csv_date(first_csv_value(values, &["createdat", "created", "创建时间"]).as_str()) {
        Some(v) => v,
        None => now,
    };
    let updated_at = match csv_date(first_csv_value(values, &["updatedat", "updated", "更新时间"]).as_str()) {
        Some(v) => v,
        None => now,
    };
    let completed_at = opt_date(
        csv_date(first_csv_value(values, &["completedat", "completeddate", "完成时间"]).as_str()),
        if is_completed {
            Some(now)
        } else {
            None
        },
    );
    let priority = csv_priority(first_csv_value(values, &["priority", "优先级"]).as_str());
    let due_at = csv_date(first_csv_value(values, &["dueat", "duedate", "date", "到期", "截止"]).as_str());
    let reminder_at = opt_date(
        csv_date(first_csv_value(values, &["reminderat", "reminder", "提醒"]).as_str()),
        due_at,
    );
    let repeat_rule = csv_repeat(first_csv_value(values, &["repeat", "recurring", "重复"]).as_str());
    let tags = csv_tags(first_csv_value(values, &["tags", "labels", "label", "标签"]).as_str());
    let project = first_csv_value(values, &["project", "projectname", "list", "section", "项目", "清单"]);
    let estimated_minutes = csv_int(first_csv_value(values, &["estimatedminutes", "duration", "预计分钟"]).as_str());
    let today = csv_bool(first_csv_value(values, &["today", "myday", "今天"]).as_str());
    let parts = csv_subtask_parts(first_csv_value(values, &["subtasks", "steps", "子任务"]).as_str());
    let focus_seconds: i64 = match csv_int(first_csv_value(values, &["focusseconds", "专注秒数"]).as_str()) {
        Some(v) => v as i64,
        None => 0,
    };
    let postpone_count = match csv_int(first_csv_value(values, &["postponecount", "推迟次数"]).as_str()) {
        Some(v) => v,
        None => 0,
    };
    let sort_index = match csv_int(first_csv_value(values, &["sortindex", "order", "排序"]).as_str()) {
        Some(v) => v,
        None => 0,
    };
    let mut subtasks: Vec<TaskSubtask> = Vec::new();
    let mut k: usize = 0;
    while k < parts.len()
        invariant
            k <= parts@.len(),
            subtasks@.len() == k,
            forall|j: int|
                0 <= j < k ==> (#[trigger] subtasks@[j]).title@ == parts@[j].0@ && subtasks@[j].is_completed
                    == parts@[j].1 && in_range(subtasks@[j].created_at as int),
        decreases parts.len() - k,
    {
        let s = TaskSubtask {
            id: crate::ids::new_id(),
            title: String::from_str(parts[k].0.as_str()),
            is_completed: parts[k].1,
            created_at: crate::clock::now_ms(),
        };
        subtasks.push(s);
        k = k + 1;
    }
    let project_name = if crate::text::chars_of(project.as_str()).len() == 0 {
        None
    } else {
        Some(project)
    };
    let item = TaskArchiveItem {
        id,
        title,
        notes,
        is_completed,
        is_current,
        created_at,
        updated_at,
        completed_at,
        sort_index,
        priority_raw_value: Some(priority.as_raw()),
        due_at,
        reminder_at,
        repeat_rule_raw_value: match repeat_rule {
            Some(r) => Some(String::from_str(r.as_str())),
            None => None,
        },
        tags,
        project_name,
        estimated_minutes,
        today_sort_index: if today {
            Some(0)
        } else {
            None
        },
        subtasks,
        focus_started_at: None,
        focus_accumulated_seconds: focus_seconds,
        postponed_at: None,
        postpone_count,
    };
    proof {
        assert(key_texts(["id", "uuid"]@) =~= seq!["id"@, "uuid"@]);
        assert(key_texts(["notes", "description", "备注", "描述"]@) =~= seq!["notes"@, "description"@, "备注"@, "描述"@]);
        assert(key_texts(["completed", "complete", "done", "已完成"]@) =~= seq!["completed"@, "complete"@, "done"@, "已完成"@]);
        assert(key_texts(["current", "iscurrent", "当前"]@) =~= seq!["current"@, "iscurrent"@, "当前"@]);
        assert(key_texts(["createdat", "created", "创建时间"]@) =~= seq!["createdat"@, "created"@, "创建时间"@]);
        assert(key_texts(["updatedat", "updated", "更新时间"]@) =~= seq!["updatedat"@, "updated"@, "更新时间"@]);
        assert(key_texts(["completedat", "completeddate", "完成时间"]@) =~= seq!["completedat"@, "completeddate"@, "完成时间"@]);
        assert(key_texts(["priority", "优先级"]@) =~= seq!["priority"@, "优先级"@]);
        assert(key_texts(["dueat", "duedate", "date", "到期", "截止"]@) =~= seq!["dueat"@, "duedate"@, "date"@, "到期"@, "截止"@]);
        assert(key_texts(["reminderat", "reminder", "提醒"]@) =~= seq!["reminderat"@, "reminder"@, "提醒"@]);
        assert(key_texts(["repeat", "recurring", "重复"]@) =~= seq!["repeat"@, "recurring"@, "重复"@]);
        assert(key_texts(["tags", "labels", "label", "标签"]@) =~= seq!["tags"@, "labels"@, "label"@, "标签"@]);
        assert(key_texts(["project", "projectname", "list", "section", "项目", "清单"]@) =~= seq!["project"@, "projectname"@, "list"@, "section"@, "项目"@, "清单"@]);
        assert(key_texts(["estimatedminutes", "duration", "预计分钟"]@) =~= seq!["estimatedminutes"@, "duration"@, "预计分钟"@]);
        assert(key_texts(["today", "myday", "今天"]@) =~= seq!["today"@, "myday"@, "今天"@]);
        assert(key_texts(["subtasks", "steps", "子任务"]@) =~= seq!["subtasks"@, "steps"@, "子任务"@]);
        assert(key_texts(["focusseconds", "专注秒数"]@) =~= seq!["focusseconds"@, "专注秒数"@]);
        assert(key_texts(["postponecount", "推迟次数"]@) =~= seq!["postponecount"@, "推迟次数"@]);
        assert(key_texts(["sortindex", "order", "排序"]@) =~= seq!["sortindex"@, "order"@, "排序"@]);
        let subs = subtasks_of_cell(first_value(vals, seq!["subtasks"@, "steps"@, "子任务"@]));
        assert(title_done(parts@) == subs);
        assert forall|j: int| 0 <= j < subs.len() implies (#[trigger] item@.subtasks[j]).title == subs[j].0 && item@.subtasks[j].is_completed == subs[j].1 && in_range(item@.subtasks[j].created_at as int) by {
            assert(title_done(parts@)[j] == (parts@[j].0@, parts@[j].1));
        }
    }
    Some(item)
}

/// A task from a CSV row, read now; missing identifiers are fresh ones.
pub fn archive_item_from_csv(values: &Vec<(String, String)>) -> (r: Option<TaskArchiveItem>)
    ensures
        r is None <==> trim(first_value(pairs_view(values@), title_keys())).len() == 0,
        r matches Some(x) ==> exists|now: i64, fid: u128|
            #![trigger csv_item_matches(pairs_view(values@), now, fid, x@)]
            in_range(now as int) && csv_item_matches(pairs_view(values@), now, fid, x@),
{
    let now = crate::clock::now_ms();
    let fid = crate::ids::new_id();
    archive_item_from_csv_at(values, now, fid)
}


// ---------------------------------------------------------------- reading back what was written
/// What the reader can read back as it was written: a field that is quoted, or one
/// without a carriage return (which the writer leaves unquoted).
pub open spec fn field_ok(v: Seq<char>) -> bool {
    needs_quotes(v) || !v.contains('\r')
}

/// A line of cells as CSV writes it: each cell quoted where needed, joined by commas.
pub open spec fn csv_line(cells: Seq<Seq<char>>) -> Seq<char> {
    crate::text::join(cells.map_values(|c: Seq<char>| csv_escaped(c)), ","@)
}

/// A CSV document: its lines joined by line breaks, with a final line break.
pub open spec fn csv_doc(rows: Seq<Seq<Seq<char>>>) -> Seq<char> {
    crate::text::join(rows.map_values(|r: Seq<Seq<char>>| csv_line(r)), "\n"@) + "\n"@
}

pub proof fn lemma_double_quotes_concat(a: Seq<char>, b: Seq<char>)
    ensures
        double_quotes(a + b) == double_quotes(a) + double_quotes(b),
    decreases b.len(),
{
    if b.len() == 0 {
        assert(a + b =~= a);
        assert(double_quotes(a) + double_quotes(b) =~= double_quotes(a));
    } else {
        lemma_double_quotes_concat(a, b.drop_last());
        assert((a + b).drop_last() =~= a + b.drop_last());
        assert((a + b).last() == b.last());
        assert(double_quotes(a + b) =~= double_quotes(a) + double_quotes(b));
    }
}

/// Reading an unquoted field appends its characters to the current cell.
proof fn lemma_read_plain(t: Seq<char>, i: int, v: Seq<char>, st: CsvState, k: int)
    requires
        0 <= i,
        0 <= k <= v.len(),
        i + v.len() <= t.len(),
        t.subrange(i, i + v.len()) == v,
        !needs_quotes(v),
        !v.contains('\r'),
        !st.quoted,
    ensures
        csv_from(t, i + k, CsvState { field: st.field + v.take(k), ..st }) == csv_from(
            t,
            i + v.len(),
            CsvState { field: st.field + v, ..st },
        ),
    decreases v.len() - k,
{
    if k < v.len() {
        let c = v[k];
        assert(t[i + k] == c);
        assert(c != '"' && c != ',' && c != '\n' && c != '\r') by {
            if c == '"' || c == ',' || c == '\n' || c == '\r' {
                assert(v.contains(c));
            }
        }
        assert((st.field + v.take(k)).push(c) =~= st.field + v.take(k + 1));
        lemma_read_plain(t, i, v, st, k + 1);
    } else {
        assert(v.take(k) =~= v);
    }
}


/// Inside quotes, reading the doubled-quote form of `v` appends `v` to the cell.
proof fn lemma_read_quoted_body(t: Seq<char>, i: int, v: Seq<char>, st: CsvState, k: int)
    requires
        0 <= i,
        0 <= k <= v.len(),
        i + double_quotes(v).len() + 1 <= t.len(),
        t.subrange(i, i + double_quotes(v).len()) == double_quotes(v),
        t[i + double_quotes(v).len()] == '"',
        st.quoted,
    ensures
        csv_from(t, i + double_quotes(v.take(k)).len(), CsvState { field: st.field + v.take(k), ..st })
            == csv_from(t, i + double_quotes(v).len(), CsvState { field: st.field + v, ..st }),
    decreases v.len() - k,
{
    if k < v.len() {
        let c = v[k];
        let a = v.take(k);
        let rest = v.subrange(k + 1, v.len() as int);
        assert(v =~= a + seq![c] + rest);
        lemma_double_quotes_concat(a + seq![c], rest);
        lemma_double_quotes_concat(a, seq![c]);
        assert(seq![c].drop_last() =~= Seq::<char>::empty());
        assert(double_quotes(seq![c]) == double_quotes(Seq::<char>::empty()) + (if c == '"' {
            seq!['"', '"']
        } else {
            seq![c]
        }));
        assert(v.take(k + 1) =~= a + seq![c]);
        let p: int = double_quotes(a).len() as int;
        let dv = double_quotes(v);
        assert(dv == double_quotes(a) + double_quotes(seq![c]) + double_quotes(rest));
        assert(t[i + p] == dv[p]);
        assert((st.field + a).push(c) =~= st.field + v.take(k + 1));
        if c == '"' {
            assert(dv[p] == '"');
            assert(dv[p + 1] == '"');
            assert(t[i + p + 1] == dv[p + 1]);
        } else {
            assert(dv[p] == c);
        }
        lemma_read_quoted_body(t, i, v, st, k + 1);
    } else {
        assert(v.take(k) =~= v);
    }
}

/// Reading a field as the writer escapes it appends it to the current cell and
/// leaves the reader outside quotes just after it.
pub proof fn lemma_read_field(t: Seq<char>, i: int, v: Seq<char>, st: CsvState)
    requires
        0 <= i,
        i + csv_escaped(v).len() <= t.len(),
        t.subrange(i, i + csv_escaped(v).len()) == csv_escaped(v),
        i + csv_escaped(v).len() < t.len() ==> t[i + csv_escaped(v).len()] != '"',
        field_ok(v),
        !st.quoted,
    ensures
        csv_from(t, i, st) == csv_from(t, i + csv_escaped(v).len(), CsvState { field: st.field + v, ..st }),
{
    if needs_quotes(v) {
        let e = csv_escaped(v);
        let d = double_quotes(v);
        assert(e == seq!['"'] + d + seq!['"']);
        assert(t[i] == e[0]);
        let q = CsvState { quoted: true, ..st };
        assert(csv_from(t, i, st) == csv_from(t, i + 1, q));
        assert(t.subrange(i + 1, i + 1 + d.len()) =~= d) by {
            assert forall|x: int| 0 <= x < d.len() implies t.subrange(i + 1, i + 1 + d.len())[x] == d[x] by {
                assert(t[i + 1 + x] == e[1 + x]);
            }
        }
        assert(t[i + 1 + d.len()] == e[1 + d.len() as int]);
        assert(v.take(0) =~= Seq::<char>::empty());
        assert(st.field + v.take(0) =~= st.field);
        assert(q == CsvState { field: st.field + v.take(0), ..q });
        lemma_read_quoted_body(t, i + 1, v, q, 0);
        let end = i + 1 + d.len();
        let qe = CsvState { field: st.field + v, ..q };
        assert(csv_from(t, end, qe) == csv_from(t, end + 1, CsvState { quoted: false, ..qe }));
        assert(CsvState { quoted: false, ..qe } =~= CsvState { field: st.field + v, ..st });
    } else {
        assert(v.take(0) =~= Seq::<char>::empty());
        assert(st =~= CsvState { field: st.field + v.take(0), ..st });
        lemma_read_plain(t, i, v, st, 0);
    }
}


/// Every cell of every row can be read back, and every row has a cell that is not
/// empty (the reader drops rows of empty cells).
pub open spec fn rows_ok(rows: Seq<Seq<Seq<char>>>) -> bool {
    forall|r: int|
        0 <= r < rows.len() ==> (#[trigger] rows[r]).len() > 0 && any_cell(rows[r]) && forall|k: int|
            0 <= k < rows[r].len() ==> field_ok(#[trigger] rows[r][k])
}

/// Reading a line appends all its cells but the last to the current row and leaves
/// the last one as the current cell.
proof fn lemma_read_line(t: Seq<char>, i: int, c: Seq<Seq<char>>, st: CsvState)
    requires
        0 <= i,
        c.len() > 0,
        forall|k: int| 0 <= k < c.len() ==> field_ok(#[trigger] c[k]),
        i + csv_line(c).len() <= t.len(),
        t.subrange(i, i + csv_line(c).len()) == csv_line(c),
        i + csv_line(c).len() < t.len() ==> t[i + csv_line(c).len()] != '"',
        !st.quoted,
        st.field == Seq::<char>::empty(),
    ensures
        csv_from(t, i, st) == csv_from(
            t,
            i + csv_line(c).len(),
            CsvState { row: st.row + c.drop_last(), field: c.last(), ..st },
        ),
    decreases c.len(),
{
    let m = c.map_values(|x: Seq<char>| csv_escaped(x));
    if c.len() == 1 {
        assert(csv_line(c) == m[0]);
        lemma_read_field(t, i, c[0], st);
        assert(st.field + c[0] =~= c.last());
        assert(st.row + c.drop_last() =~= st.row);
        assert(CsvState { field: st.field + c[0], ..st } =~= CsvState {
            row: st.row + c.drop_last(),
            field: c.last(),
            ..st
        });
    } else {
        let c1 = c.drop_last();
        assert(m.drop_last() =~= c1.map_values(|x: Seq<char>| csv_escaped(x)));
        let l1 = csv_line(c1);
        let e = csv_escaped(c.last());
        reveal_strlit(",");
        assert(csv_line(c) == l1 + ","@ + e);
        let n1 = l1.len() as int;
        assert(t.subrange(i, i + n1) =~= l1) by {
            assert forall|x: int| 0 <= x < n1 implies t.subrange(i, i + n1)[x] == l1[x] by {
                assert(t[i + x] == csv_line(c)[x]);
            }
        }
        assert(t[i + n1] == csv_line(c)[n1]);
        assert(csv_line(c)[n1] == ',');
        lemma_read_line(t, i, c1, st);
        let s1 = CsvState { row: st.row + c1.drop_last(), field: c1.last(), ..st };
        let s2 = CsvState { row: s1.row.push(s1.field), field: seq![], ..s1 };
        assert(csv_from(t, i + n1, s1) == csv_from(t, i + n1 + 1, s2));
        assert(s2.row =~= st.row + c.drop_last());
        assert(t.subrange(i + n1 + 1, i + n1 + 1 + e.len()) =~= e) by {
            assert forall|x: int| 0 <= x < e.len() implies t.subrange(i + n1 + 1, i + n1 + 1 + e.len())[x] == e[x] by {
                assert(t[i + n1 + 1 + x] == csv_line(c)[n1 + 1 + x]);
            }
        }
        lemma_read_field(t, i + n1 + 1, c.last(), s2);
        assert(CsvState { field: s2.field + c.last(), ..s2 } =~= CsvState {
            row: st.row + c.drop_last(),
            field: c.last(),
            ..st
        });
    }
}

proof fn lemma_read_lines(t: Seq<char>, rows: Seq<Seq<Seq<char>>>)
    requires
        rows.len() > 0,
        rows_ok(rows),
        crate::text::join(rows.map_values(|r: Seq<Seq<char>>| csv_line(r)), "\n"@).len() < t.len(),
        t.subrange(0, crate::text::join(rows.map_values(|r: Seq<Seq<char>>| csv_line(r)), "\n"@).len() as int)
            == crate::text::join(rows.map_values(|r: Seq<Seq<char>>| csv_line(r)), "\n"@),
        t[crate::text::join(rows.map_values(|r: Seq<Seq<char>>| csv_line(r)), "\n"@).len() as int] == '\n',
    ensures
        csv_from(t, 0, CsvState { rows: seq![], row: seq![], field: seq![], quoted: false }) == csv_from(
            t,
            crate::text::join(rows.map_values(|r: Seq<Seq<char>>| csv_line(r)), "\n"@).len() as int,
            CsvState {
                rows: rows.drop_last(),
                row: rows.last().drop_last(),
                field: rows.last().last(),
                quoted: false,
            },
        ),
    decreases rows.len(),
{
    let init = CsvState { rows: seq![], row: seq![], field: seq![], quoted: false };
    let m = rows.map_values(|r: Seq<Seq<char>>| csv_line(r));
    let p = crate::text::join(m, "\n"@);
    let last = rows.last();
    assert(rows[rows.len() - 1] == last);
    assert(forall|k: int| 0 <= k < last.len() ==> field_ok(#[trigger] last[k]));
    if rows.len() == 1 {
        assert(p == csv_line(last));
        lemma_read_line(t, 0, last, init);
        assert(CsvState { row: init.row + last.drop_last(), field: last.last(), ..init } =~= CsvState {
            rows: rows.drop_last(),
            row: last.drop_last(),
            field: last.last(),
            quoted: false,
        });
    } else {
        let r1 = rows.drop_last();
        assert(m.drop_last() =~= r1.map_values(|r: Seq<Seq<char>>| csv_line(r)));
        let p1 = crate::text::join(r1.map_values(|r: Seq<Seq<char>>| csv_line(r)), "\n"@);
        let l = csv_line(last);
        reveal_strlit("\n");
        assert(p == p1 + "\n"@ + l);
        let n1 = p1.len() as int;
        assert(t.subrange(0, n1) =~= p1) by {
            assert forall|x: int| 0 <= x < n1 implies t.subrange(0, n1)[x] == p1[x] by {
                assert(t[x] == p[x]);
            }
        }
        assert(t[n1] == p[n1]);
        assert(rows_ok(r1)) by {
            assert forall|r: int| 0 <= r < r1.len() implies (#[trigger] r1[r]).len() > 0 && any_cell(r1[r])
                && forall|k: int| 0 <= k < r1[r].len() ==> field_ok(#[trigger] r1[r][k]) by {
                assert(r1[r] == rows[r]);
            }
        }
        lemma_read_lines(t, r1);
        let prev = r1.last();
        assert(r1[r1.len() - 1] == prev);
        let s1 = CsvState { rows: r1.drop_last(), row: prev.drop_last(), field: prev.last(), quoted: false };
        assert(prev.drop_last().push(prev.last()) =~= prev);
        assert(any_cell(prev));
        let s2 = CsvState { rows: r1, row: seq![], field: seq![], quoted: false };
        assert(r1.drop_last().push(prev) =~= r1);
        assert(csv_from(t, n1, s1) == csv_from(t, n1 + 1, s2));
        assert(t.subrange(n1 + 1, n1 + 1 + l.len()) =~= l) by {
            assert forall|x: int| 0 <= x < l.len() implies t.subrange(n1 + 1, n1 + 1 + l.len())[x] == l[x] by {
                assert(t[n1 + 1 + x] == p[n1 + 1 + x]);
            }
        }
        lemma_read_line(t, n1 + 1, last, s2);
        assert(CsvState { row: s2.row + last.drop_last(), field: last.last(), ..s2 } =~= CsvState {
            rows: rows.drop_last(),
            row: last.drop_last(),
            field: last.last(),
            quoted: false,
        });
    }
}


/// Reading a CSV document gives back the rows it was written from: the reader
/// undoes the writer's quoting, for rows that have a non-empty cell and cells that
/// are quoted or hold no carriage return.
pub proof fn law_csv_reads_back_what_it_writes(rows: Seq<Seq<Seq<char>>>)
    requires
        rows_ok(rows),
    ensures
        csv_rows(csv_doc(rows)) == rows,
{
    let init = CsvState { rows: seq![], row: seq![], field: seq![], quoted: false };
    let t = csv_doc(rows);
    let p = crate::text::join(rows.map_values(|r: Seq<Seq<char>>| csv_line(r)), "\n"@);
    reveal_strlit("\n");
    assert(t == p + "\n"@);
    let n = p.len() as int;
    assert(t[n] == '\n');
    let empty_row = Seq::<Seq<char>>::empty().push(Seq::<char>::empty());
    assert(!any_cell(empty_row)) by {
        assert forall|k: int| 0 <= k < empty_row.len() implies !(#[trigger] empty_row[k].len() > 0) by {
            assert(empty_row[k] == Seq::<char>::empty());
        }
    }
    if rows.len() == 0 {
        assert(p == Seq::<char>::empty());
        assert(csv_from(t, 0, init) == csv_from(t, 1, init));
        assert(csv_from(t, 1, init) == init);
    } else {
        assert(t.subrange(0, n) =~= p);
        lemma_read_lines(t, rows);
        let last = rows.last();
        assert(rows[rows.len() - 1] == last);
        let s1 = CsvState { rows: rows.drop_last(), row: last.drop_last(), field: last.last(), quoted: false };
        assert(last.drop_last().push(last.last()) =~= last);
        assert(any_cell(last));
        assert(rows.drop_last().push(last) =~= rows);
        assert(csv_from(t, n, s1) == csv_from(t, n + 1, CsvState { rows, row: seq![], field: seq![], quoted: false }));
    }
}

} // verus!
