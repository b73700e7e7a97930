//! The quick-add grammar: priority marks, `#tags`, `+project`, durations,
//! dates, times and repeat words are read out of a free-text task title.

use crate::clock::{day_index, in_range, DAY_MS, HOUR_MS, MINUTE_MS};
use crate::lexer::{
    contains_exec, contains_text, cut, cut_exec, decimal_digit, digits_number, digits_value,
    find_first, find_first_exec, is_decimal_digit, is_tag_char, occurs_ci_at, occurs_ci_at_exec,
    tag_char, token_end, token_end_exec, token_start, token_start_exec,
};
use crate::models::TaskPriority;
use crate::text::{all_ws, chars_of, char_is_ws, is_ws, lemma_trim_blank, trim};
use vstd::prelude::*;

verus! {

// ---------------------------------------------------------------- priority marks
/// The priority marks in the order the grammar tries them.
pub open spec fn prio_token(k: int) -> Seq<char> {
    if k == 0 {
        "!高"@
    } else if k == 1 {
        "!high"@
    } else if k == 2 {
        "!p1"@
    } else if k == 3 {
        "p1"@
    } else if k == 4 {
        "优先级高"@
    } else if k == 5 {
        "高优"@
    } else if k == 6 {
        "!中"@
    } else if k == 7 {
        "!medium"@
    } else if k == 8 {
        "!p2"@
    } else if k == 9 {
        "p2"@
    } else if k == 10 {
        "中优"@
    } else if k == 11 {
        "!低"@
    } else if k == 12 {
        "!low"@
    } else if k == 13 {
        "!p3"@
    } else if k == 14 {
        "p3"@
    } else {
        "低优"@
    }
}

pub const PRIO_TOKEN_COUNT: usize = 16;

/// The priority a mark sets: marks with 高, high or p1 set High, those with 低, low
/// or p3 set Low, the others Medium.
pub open spec fn prio_class(k: int) -> TaskPriority {
    if k <= 5 {
        TaskPriority::High
    } else if k <= 10 {
        TaskPriority::Medium
    } else {
        TaskPriority::Low
    }
}

fn prio_token_exec(k: usize) -> (r: Vec<char>)
    requires
        k < PRIO_TOKEN_COUNT,
    ensures
        r@ == prio_token(k as int),
{
    let s = if k == 0 {
        "!高"
    } else if k == 1 {
        "!high"
    } else if k == 2 {
        "!p1"
    } else if k == 3 {
        "p1"
    } else if k == 4 {
        "优先级高"
    } else if k == 5 {
        "高优"
    } else if k == 6 {
        "!中"
    } else if k == 7 {
        "!medium"
    } else if k == 8 {
        "!p2"
    } else if k == 9 {
        "p2"
    } else if k == 10 {
        "中优"
    } else if k == 11 {
        "!低"
    } else if k == 12 {
        "!low"
    } else if k == 13 {
        "!p3"
    } else if k == 14 {
        "p3"
    } else {
        "低优"
    };
    chars_of(s)
}

fn prio_class_exec(k: usize) -> (r: TaskPriority)
    ensures
        r == prio_class(k as int),
{
    if k <= 5 {
        TaskPriority::High
    } else if k <= 10 {
        TaskPriority::Medium
    } else {
        TaskPriority::Low
    }
}

/// Places of `tok` in `text` (ASCII letters compared without case) that stand
/// between whitespace or the ends of the text; the search goes on after each
/// occurrence, found or not, as `find_bounded_tokens_ci` does.
pub open spec fn ci_hits_from(text: Seq<char>, tok: Seq<char>, i: int) -> Seq<int>
    decreases text.len() + 1 - i,
{
    if i < 0 || tok.len() == 0 || i + tok.len() > text.len() {
        seq![]
    } else if occurs_ci_at(text, tok, i) {
        let rest = ci_hits_from(text, tok, i + tok.len());
        if token_start(text, i) && token_end(text, i + tok.len()) {
            seq![i] + rest
        } else {
            rest
        }
    } else {
        ci_hits_from(text, tok, i + 1)
    }
}

pub open spec fn usizes(v: Seq<usize>) -> Seq<int> {
    v.map_values(|x: usize| x as int)
}

fn ci_hits_exec(text: &[char], tok: &[char]) -> (r: Vec<usize>)
    ensures
        usizes(r@) == ci_hits_from(text@, tok@, 0),
        forall|k: int| 0 <= k < r@.len() ==> r@[k] + tok@.len() <= text@.len(),
{
    let mut out: Vec<usize> = Vec::new();
    let mut i: usize = 0;
    let ghost total = ci_hits_from(text@, tok@, 0);
    loop
        invariant
            i <= text@.len() + 1,
            text@.len() == text.len(),
            total == ci_hits_from(text@, tok@, 0),
            total == usizes(out@) + ci_hits_from(text@, tok@, i as int),
            forall|k: int| 0 <= k < out@.len() ==> out@[k] + tok@.len() <= text@.len(),
        decreases text.len() + 1 - i,
    {
        if tok.len() == 0 || i > text.len() || tok.len() > text.len() - i {
            proof {
                assert(total =~= usizes(out@));
            }
            return out;
        }
        if occurs_ci_at_exec(text, tok, i) {
            let end = i + tok.len();
            if token_start_exec(text, i) && token_end_exec(text, end) {
                let ghost before = out@;
                out.push(i);
                proof {
                    assert(usizes(out@) =~= usizes(before).push(i as int));
                    assert(usizes(out@) + ci_hits_from(text@, tok@, end as int) =~= usizes(before)
                        + (seq![i as int] + ci_hits_from(text@, tok@, end as int)));
                }
            }
            i = end;
        } else {
            i = i + 1;
        }
    }
}

/// Character ranges of the hits of one mark of length `tl`.
pub open spec fn hit_ranges(hits: Seq<int>, tl: int) -> Seq<(int, int)> {
    hits.map_values(|i: int| (i, i + tl))
}

/// Character ranges that the first `k` marks find, mark by mark.
pub open spec fn prio_ranges_upto(text: Seq<char>, k: int) -> Seq<(int, int)>
    decreases k,
{
    if k <= 0 {
        seq![]
    } else {
        prio_ranges_upto(text, k - 1) + hit_ranges(
            ci_hits_from(text, prio_token(k - 1), 0),
            prio_token(k - 1).len() as int,
        )
    }
}

/// The priority after the first `k` marks: the class of the last mark found.
pub open spec fn prio_upto(text: Seq<char>, fallback: TaskPriority, k: int) -> TaskPriority
    decreases k,
{
    if k <= 0 {
        fallback
    } else if ci_hits_from(text, prio_token(k - 1), 0).len() > 0 {
        prio_class(k - 1)
    } else {
        prio_upto(text, fallback, k - 1)
    }
}

pub open spec fn prio_ranges(text: Seq<char>) -> Seq<(int, int)> {
    prio_ranges_upto(text, PRIO_TOKEN_COUNT as int)
}

pub open spec fn prio_of(text: Seq<char>, fallback: TaskPriority) -> TaskPriority {
    prio_upto(text, fallback, PRIO_TOKEN_COUNT as int)
}

/// Finds every priority mark: the priority it sets and the character ranges to
/// remove.
fn scan_priority(text: &[char], fallback: TaskPriority) -> (r: (TaskPriority, Vec<(usize, usize)>))
    ensures
        r.0 == prio_of(text@, fallback),
        pairs(r.1@) == prio_ranges(text@),
{
    let mut prio = fallback;
    let mut ranges: Vec<(usize, usize)> = Vec::new();
    let mut k: usize = 0;
    while k < PRIO_TOKEN_COUNT
        invariant
            k <= PRIO_TOKEN_COUNT,
            prio == prio_upto(text@, fallback, k as int),
            pairs(ranges@) == prio_ranges_upto(text@, k as int),
        decreases PRIO_TOKEN_COUNT - k,
    {
        let tok = prio_token_exec(k);
        let hits = ci_hits_exec(text, tok.as_slice());
        let ghost base = pairs(ranges@);
        let ghost hr = hit_ranges(usizes(hits@), tok@.len() as int);
        let mut j: usize = 0;
        while j < hits.len()
            invariant
                j <= hits@.len(),
                forall|q: int| 0 <= q < hits@.len() ==> hits@[q] + tok@.len() <= text@.len(),
                hr == hit_ranges(usizes(hits@), tok@.len() as int),
                pairs(ranges@) == base + hr.take(j as int),
                text@.len() == text.len(),
                tok@.len() == tok.len(),
            decreases hits.len() - j,
        {
            let h = hits[j];
            let ghost before = ranges@;
            ranges.push((h, h + tok.len()));
            j = j + 1;
            proof {
                assert(pairs(ranges@) =~= pairs(before).push((h as int, h + tok@.len())));
                assert(hr.take(j as int) =~= hr.take(j - 1).push(hr[j - 1]));
            }
        }
        proof {
            assert(hr.take(hits@.len() as int) =~= hr);
            assert(usizes(hits@) == ci_hits_from(text@, prio_token(k as int), 0));
        }
        if hits.len() > 0 {
            prio = prio_class_exec(k);
        }
        k = k + 1;
    }
    (prio, ranges)
}

} // verus!

verus! {

// ---------------------------------------------------------------- tags and project
/// End of the run of tag characters that starts at `i`.
pub open spec fn tag_run_end(text: Seq<char>, i: int) -> int
    decreases text.len() - i,
{
    if 0 <= i < text.len() && is_tag_char(text[i]) {
        tag_run_end(text, i + 1)
    } else {
        i
    }
}

fn tag_run_end_exec(text: &[char], i: usize) -> (r: usize)
    requires
        i <= text@.len(),
    ensures
        r == tag_run_end(text@, i as int),
        i <= r <= text@.len(),
{
    let mut j = i;
    while j < text.len() && tag_char(text[j])
        invariant
            i <= j <= text@.len(),
            tag_run_end(text@, i as int) == tag_run_end(text@, j as int),
        decreases text.len() - j,
    {
        j = j + 1;
    }
    j
}

/// Ranges `(start, end)` of the `#tags` at or after `i`: a `#` that starts a word,
/// followed by at least one tag character.
pub open spec fn hash_tags_from(text: Seq<char>, i: int) -> Seq<(int, int)>
    decreases text.len() - i,
{
    if i < 0 || i >= text.len() {
        seq![]
    } else if text[i] == '#' && token_start(text, i) && tag_run_end(text, i + 1) > i + 1 {
        seq![(i, tag_run_end(text, i + 1))] + hash_tags_from(text, i + 1)
    } else {
        hash_tags_from(text, i + 1)
    }
}

/// Adds a tag in front unless it is there already.
pub open spec fn add_tag(tags: Seq<Seq<char>>, t: Seq<char>) -> Seq<Seq<char>> {
    if tags.contains(t) {
        tags
    } else {
        seq![t] + tags
    }
}

/// The tags that the ranges name, collected as the grammar collects them.
pub open spec fn collect_tags(text: Seq<char>, rs: Seq<(int, int)>) -> Seq<Seq<char>>
    decreases rs.len(),
{
    if rs.len() == 0 {
        seq![]
    } else {
        add_tag(
            collect_tags(text, rs.drop_last()),
            text.subrange(rs.last().0 + 1, rs.last().1),
        )
    }
}

/// Removes character ranges from the last to the first.
pub open spec fn cut_rev(text: Seq<char>, rs: Seq<(int, int)>) -> Seq<char>
    decreases rs.len(),
{
    if rs.len() == 0 {
        text
    } else {
        cut_rev(cut(text, rs.last().0, rs.last().1), rs.drop_last())
    }
}

pub open spec fn pairs(v: Seq<(usize, usize)>) -> Seq<(int, int)> {
    v.map_values(|p: (usize, usize)| (p.0 as int, p.1 as int))
}

/// Ranges that lie in order inside a text of length `n`, none overlapping.
pub open spec fn ordered_ranges(rs: Seq<(int, int)>, n: int) -> bool {
    &&& forall|k: int| 0 <= k < rs.len() ==> 0 <= (#[trigger] rs[k]).0 <= rs[k].1 <= n
    &&& forall|k: int| 0 <= k < rs.len() - 1 ==> (#[trigger] rs[k]).1 <= rs[k + 1].0
}

fn hash_tag_ranges(text: &[char]) -> (r: Vec<(usize, usize)>)
    ensures
        pairs(r@) == hash_tags_from(text@, 0),
        ordered_ranges(pairs(r@), text@.len() as int),
        forall|k: int| 0 <= k < r@.len() ==> (#[trigger] r@[k]).0 < r@[k].1 <= text@.len(),
{
    let _ = crate::lexer::alphanumeric('#');
    let mut out: Vec<(usize, usize)> = Vec::new();
    let mut i: usize = 0;
    let ghost total = hash_tags_from(text@, 0);
    while i < text.len()
        invariant
            i <= text@.len(),
            total == hash_tags_from(text@, 0),
            total == pairs(out@) + hash_tags_from(text@, i as int),
            ordered_ranges(pairs(out@), text@.len() as int),
            forall|k: int| 0 <= k < out@.len() ==> out@[k].0 < out@[k].1 <= i + 0 || (out@[k].0
                < out@[k].1 && out@[k].1 <= text@.len() && out@[k].0 < i),
            forall|k: int| 0 <= k < out@.len() ==> out@[k].0 < i,
            forall|k: int| 0 <= k < out@.len() ==> out@[k].0 < out@[k].1,
            out@.len() > 0 ==> out@.last().1 <= tag_run_end(text@, out@.last().0 + 1),
            !is_tag_char('#'),
        decreases text.len() - i,
    {
        if text[i] == '#' && token_start_exec(text, i) {
            let e = tag_run_end_exec(text, i + 1);
            if e > i + 1 {
                let ghost before = out@;
                proof {
                    if out@.len() > 0 {
                        lemma_tag_run_before_hash(text@, out@.last().0 + 1, i as int);
                    }
                }
                out.push((i, e));
                proof {
                    assert(pairs(out@) =~= pairs(before).push((i as int, e as int)));
                }
            }
        }
        i = i + 1;
    }
    out
}

/// A run of tag characters stops before any `#`.
proof fn lemma_tag_run_before_hash(text: Seq<char>, s: int, h: int)
    requires
        0 <= s <= h < text.len(),
        text[h] == '#',
        !is_tag_char('#'),
    ensures
        tag_run_end(text, s) <= h,
    decreases h - s,
{
    if s < h && is_tag_char(text[s]) {
        lemma_tag_run_before_hash(text, s + 1, h);
    }
}

} // verus!

verus! {

fn cut_rev_exec(text: &[char], rs: &Vec<(usize, usize)>) -> (r: Vec<char>)
    requires
        ordered_ranges(pairs(rs@), text@.len() as int),
    ensures
        r@ == cut_rev(text@, pairs(rs@)),
{
    let ghost p = pairs(rs@);
    let mut cur = crate::text::slice_to_vec(text, 0, text.len());
    let mut k = rs.len();
    let mut lim = text.len();
    proof {
        assert(p.take(k as int) =~= p);
        assert(text@.subrange(0, text@.len() as int) =~= text@);
    }
    while k > 0
        invariant
            k <= rs@.len(),
            p == pairs(rs@),
            ordered_ranges(p, text@.len() as int),
            lim <= cur@.len(),
            lim <= text@.len(),
            cur@.take(lim as int) == text@.take(lim as int),
            k < rs@.len() ==> lim == rs@[k as int].0,
            k == rs@.len() ==> lim == text@.len(),
            cut_rev(text@, p) == cut_rev(cur@, p.take(k as int)),
        decreases k,
    {
        let (a, b) = rs[k - 1];
        proof {
            assert(p[k - 1] == (a as int, b as int));
            if k < rs@.len() {
                assert(p[k - 1].1 <= p[k as int].0);
            }
            let t = p.take(k as int);
            assert(t.last() == (a as int, b as int));
            assert(t.drop_last() =~= p.take(k - 1));
        }
        let next = cut_exec(cur.as_slice(), a, b);
        proof {
            assert(next@.take(a as int) =~= cur@.take(a as int));
            assert(cur@.take(a as int) =~= cur@.take(lim as int).take(a as int));
            assert(text@.take(a as int) =~= text@.take(lim as int).take(a as int));
        }
        cur = next;
        lim = a;
        k = k - 1;
    }
    proof {
        assert(p.take(0) =~= Seq::<(int, int)>::empty());
    }
    cur
}

pub open spec fn vviews(v: Seq<Vec<char>>) -> Seq<Seq<char>> {
    crate::text::vv(v)
}

fn contains_text_in(v: &Vec<Vec<char>>, t: &[char]) -> (r: bool)
    ensures
        r == vviews(v@).contains(t@),
{
    let mut i: usize = 0;
    while i < v.len()
        invariant
            i <= v@.len(),
            forall|k: int| 0 <= k < i ==> vviews(v@)[k] != t@,
        decreases v.len() - i,
    {
        if crate::text::eq_chars(v[i].as_slice(), t) {
            proof {
                assert(vviews(v@)[i as int] == t@);
            }
            return true;
        }
        i = i + 1;
    }
    false
}

fn collect_tags_exec(text: &[char], rs: &Vec<(usize, usize)>) -> (r: Vec<Vec<char>>)
    requires
        forall|k: int| 0 <= k < rs@.len() ==> (#[trigger] rs@[k]).0 < rs@[k].1 <= text@.len(),
    ensures
        vviews(r@) == collect_tags(text@, pairs(rs@)),
{
    let mut tags: Vec<Vec<char>> = Vec::new();
    let mut i: usize = 0;
    while i < rs.len()
        invariant
            i <= rs@.len(),
            forall|k: int| 0 <= k < rs@.len() ==> (#[trigger] rs@[k]).0 < rs@[k].1 <= text@.len(),
            vviews(tags@) == collect_tags(text@, pairs(rs@).take(i as int)),
        decreases rs.len() - i,
    {
        let (a, b) = rs[i];
        let t = crate::text::slice_to_vec(text, a + 1, b);
        proof {
            let q = pairs(rs@).take(i + 1);
            assert(q.drop_last() =~= pairs(rs@).take(i as int));
            assert(q.last() == (a as int, b as int));
        }
        if !contains_text_in(&tags, t.as_slice()) {
            let ghost before = vviews(tags@);
            tags.insert(0, t);
            proof {
                assert(vviews(tags@) =~= seq![t@] + before);
            }
        }
        i = i + 1;
    }
    proof {
        assert(pairs(rs@).take(rs@.len() as int) =~= pairs(rs@));
    }
    tags
}

/// The first `+name` that starts a word: its range.
pub open spec fn plus_project_from(text: Seq<char>, i: int) -> Option<(int, int)>
    decreases text.len() - i,
{
    if i < 0 || i >= text.len() {
        None
    } else if text[i] == '+' && token_start(text, i) && tag_run_end(text, i + 1) > i + 1 {
        Some((i, tag_run_end(text, i + 1)))
    } else {
        plus_project_from(text, i + 1)
    }
}

fn plus_project_exec(text: &[char]) -> (r: Option<(usize, usize)>)
    ensures
        match r {
            Some((a, b)) => plus_project_from(text@, 0) == Some((a as int, b as int)) && a < b
                <= text@.len(),
            None => plus_project_from(text@, 0) is None,
        },
{
    let mut i: usize = 0;
    while i < text.len()
        invariant
            i <= text@.len(),
            plus_project_from(text@, 0) == plus_project_from(text@, i as int),
        decreases text.len() - i,
    {
        if text[i] == '+' && token_start_exec(text, i) {
            let e = tag_run_end_exec(text, i + 1);
            if e > i + 1 {
                return Some((i, e));
            }
        }
        i = i + 1;
    }
    None
}

} // verus!

verus! {

// ---------------------------------------------------------------- runs
/// Number of `\d` characters from `i` on, at most `max` (a greedy `\d{1,max}`).
pub open spec fn digit_count(text: Seq<char>, i: int, max: int) -> int
    decreases max,
{
    if max <= 0 || i < 0 || i >= text.len() || !is_decimal_digit(text[i]) {
        0
    } else {
        1 + digit_count(text, i + 1, max - 1)
    }
}

fn digit_count_exec(text: &[char], i: usize, max: usize) -> (r: usize)
    ensures
        r == digit_count(text@, i as int, max as int),
        r <= max,
        i + r <= text@.len() || r == 0,
{
    let mut n: usize = 0;
    while n < max && i <= text.len() && n < text.len() - i && decimal_digit(text[i + n])
        invariant
            n <= max,
            i + n <= text@.len() || n == 0,
            digit_count(text@, i as int, max as int) == n + digit_count(
                text@,
                i + n,
                max - n,
            ),
        decreases max - n,
    {
        n = n + 1;
    }
    proof {
        if n < max {
            assert(digit_count(text@, i + n, max - n) == 0);
        }
    }
    n
}

/// End of the run of whitespace that starts at `i` (a greedy `\s*`).
pub open spec fn ws_run_end(text: Seq<char>, i: int) -> int
    decreases text.len() - i,
{
    if 0 <= i < text.len() && is_ws(text[i]) {
        ws_run_end(text, i + 1)
    } else {
        i
    }
}

fn ws_run_end_exec(text: &[char], i: usize) -> (r: usize)
    requires
        i <= text@.len(),
    ensures
        r == ws_run_end(text@, i as int),
        i <= r <= text@.len(),
{
    let mut j = i;
    while j < text.len() && char_is_ws(text[j])
        invariant
            i <= j <= text@.len(),
            ws_run_end(text@, i as int) == ws_run_end(text@, j as int),
        decreases text.len() - j,
    {
        j = j + 1;
    }
    j
}

fn char_at_is(text: &[char], i: usize, c: char) -> (r: bool)
    ensures
        r == (0 <= i < text@.len() && text@[i as int] == c),
{
    i < text.len() && text[i] == c
}

// ---------------------------------------------------------------- durations
/// A duration form matched at `s`: `(end, digits start, digits end)`.
/// Forms: 0 `/(\d{1,3})m`, 1 `/(\d{1,2})h`, 2 `(\d{1,3})\s*分钟`, 3 `(\d{1,2})\s*小时`.
pub open spec fn dur_at(text: Seq<char>, s: int, form: int) -> Option<(int, int, int)> {
    if s < 0 || s >= text.len() {
        None
    } else if form == 0 || form == 1 {
        let max = if form == 0 {
            3int
        } else {
            2int
        };
        let unit = if form == 0 {
            'm'
        } else {
            'h'
        };
        let d = digit_count(text, s + 1, max);
        if text[s] == '/' && d >= 1 && s + 1 + d < text.len() && text[s + 1 + d] == unit {
            Some((s + 2 + d, s + 1, s + 1 + d))
        } else {
            None
        }
    } else {
        let max = if form == 2 {
            3int
        } else {
            2int
        };
        let word = if form == 2 {
            "分钟"@
        } else {
            "小时"@
        };
        let d = digit_count(text, s, max);
        let w = ws_run_end(text, s + d);
        if d >= 1 && crate::lexer::occurs_at(text, word, w) {
            Some((w + 2, s, s + d))
        } else {
            None
        }
    }
}

/// The first match of a duration form at or after `p` that stands between
/// whitespace or text ends, trying matches in order and going on after each one
/// (`captures_iter`): `(start, end, digits start, digits end)`.
pub open spec fn dur_scan(text: Seq<char>, p: int, form: int) -> Option<(int, int, int, int)>
    decreases text.len() + 1 - p,
{
    if p < 0 || p > text.len() {
        None
    } else {
        match dur_at(text, p, form) {
            Some((e, ns, ne)) => {
                if token_start(text, p) && token_end(text, e) {
                    Some((p, e, ns, ne))
                } else if p < e <= text.len() {
                    dur_scan(text, e, form)
                } else {
                    dur_scan(text, p + 1, form)
                }
            },
            None => dur_scan(text, p + 1, form),
        }
    }
}

/// The duration the text names: range and minutes, trying the forms in order.
pub open spec fn est_minutes_from(text: Seq<char>, form: int) -> Option<(int, int, int)>
    decreases 4 - form,
{
    if form < 0 || form >= 4 {
        None
    } else {
        match dur_scan(text, 0, form) {
            Some((s, e, ns, ne)) => {
                let n = digits_value(text.subrange(ns, ne));
                Some((s, e, if form == 1 || form == 3 { n * 60 } else { n }))
            },
            None => est_minutes_from(text, form + 1),
        }
    }
}

pub open spec fn est_minutes(text: Seq<char>) -> Option<(int, int, int)> {
    est_minutes_from(text, 0)
}

fn dur_at_exec(text: &[char], s: usize, form: usize) -> (r: Option<(usize, usize, usize)>)
    requires
        form < 4,
    ensures
        match r {
            Some((e, ns, ne)) => dur_at(text@, s as int, form as int) == Some(
                (e as int, ns as int, ne as int),
            ) && s < e <= text@.len() && ns <= ne <= text@.len() && ne - ns <= 3,
            None => dur_at(text@, s as int, form as int) is None,
        },
{
    if s >= text.len() {
        return None;
    }
    if form == 0 || form == 1 {
        let max: usize = if form == 0 {
            3
        } else {
            2
        };
        let unit = if form == 0 {
            'm'
        } else {
            'h'
        };
        let d = digit_count_exec(text, s + 1, max);
        if text[s] == '/' && d >= 1 && char_at_is(text, s + 1 + d, unit) {
            Some((s + 2 + d, s + 1, s + 1 + d))
        } else {
            None
        }
    } else {
        let max: usize = if form == 2 {
            3
        } else {
            2
        };
        let word = if form == 2 {
            chars_of("分钟")
        } else {
            chars_of("小时")
        };
        let d = digit_count_exec(text, s, max);
        if d == 0 {
            return None;
        }
        proof {
            reveal_strlit("分钟");
            reveal_strlit("小时");
        }
        let w = ws_run_end_exec(text, s + d);
        if crate::lexer::occurs_at_exec(text, word.as_slice(), w) {
            Some((w + 2, s, s + d))
        } else {
            None
        }
    }
}

fn dur_scan_exec(text: &[char], form: usize) -> (r: Option<(usize, usize, usize, usize)>)
    requires
        form < 4,
    ensures
        match r {
            Some((s, e, ns, ne)) => dur_scan(text@, 0, form as int) == Some(
                (s as int, e as int, ns as int, ne as int),
            ) && s < e <= text@.len() && ns <= ne <= text@.len() && ne - ns <= 3,
            None => dur_scan(text@, 0, form as int) is None,
        },
{
    let mut p: usize = 0;
    while p <= text.len()
        invariant
            dur_scan(text@, 0, form as int) == dur_scan(text@, p as int, form as int),
            form < 4,
        decreases text.len() + 1 - p,
    {
        match dur_at_exec(text, p, form) {
            Some((e, ns, ne)) => {
                if token_start_exec(text, p) && token_end_exec(text, e) {
                    return Some((p, e, ns, ne));
                }
                p = e;
            },
            None => {
                if p == text.len() {
                    proof {
                        assert(dur_scan(text@, p + 1, form as int) is None);
                    }
                    return None;
                }
                p = p + 1;
            },
        }
    }
    None
}

/// The duration the text names: `(start, end, minutes)`.
fn est_minutes_exec(text: &[char]) -> (r: Option<(usize, usize, i32)>)
    ensures
        match r {
            Some((s, e, n)) => est_minutes(text@) == Some((s as int, e as int, n as int)) && s
                < e <= text@.len(),
            None => est_minutes(text@) is None,
        },
{
    let mut form: usize = 0;
    while form < 4
        invariant
            form <= 4,
            est_minutes(text@) == est_minutes_from(text@, form as int),
        decreases 4 - form,
    {
        match dur_scan_exec(text, form) {
            Some((s, e, ns, ne)) => {
                let n = digits_number(text, ns, ne);
                let minutes = if form == 1 || form == 3 {
                    n * 60
                } else {
                    n
                };
                return Some((s, e, minutes));
            },
            None => {},
        }
        form = form + 1;
    }
    None
}

} // verus!

verus! {

// ---------------------------------------------------------------- times
/// A clock-time form matched at `s`: `(end, hour digits start, hour digits end,
/// minute digits start, minute digits end)`; minute digits are empty where the form
/// has none. Forms: 0 `(\d{1,2})[:：](\d{2})`, 1 `(\d{1,2})\s*点半`,
/// 2 `(\d{1,2})\s*点(\d{1,2})\s*分?`, 3 `(\d{1,2})\s*点`.
pub open spec fn time_at(text: Seq<char>, s: int, form: int) -> Option<(int, int, int, int, int)> {
    let d = digit_count(text, s, 2);
    if s < 0 || s >= text.len() || d < 1 {
        None
    } else if form == 0 {
        let c = s + d;
        if c < text.len() && (text[c] == ':' || text[c] == '：') && digit_count(text, c + 1, 2)
            == 2 {
            Some((c + 3, s, s + d, c + 1, c + 3))
        } else {
            None
        }
    } else {
        let w = ws_run_end(text, s + d);
        if form == 1 {
            if crate::lexer::occurs_at(text, "点半"@, w) {
                Some((w + 2, s, s + d, w + 2, w + 2))
            } else {
                None
            }
        } else if w < text.len() && text[w] == '点' {
            if form == 2 {
                let d2 = digit_count(text, w + 1, 2);
                if d2 >= 1 {
                    let w2 = ws_run_end(text, w + 1 + d2);
                    let e = if w2 < text.len() && text[w2] == '分' {
                        w2 + 1
                    } else {
                        w2
                    };
                    Some((e, s, s + d, w + 1, w + 1 + d2))
                } else {
                    None
                }
            } else {
                Some((w + 1, s, s + d, w + 1, w + 1))
            }
        } else {
            None
        }
    }
}

/// The leftmost match of a clock-time form at or after `p`.
pub open spec fn time_first_from(text: Seq<char>, p: int, form: int) -> Option<
    (int, int, int, int, int, int),
>
    decreases text.len() + 1 - p,
{
    if p < 0 || p >= text.len() {
        None
    } else {
        match time_at(text, p, form) {
            Some((e, hs, he, ms, me)) => Some((p, e, hs, he, ms, me)),
            None => time_first_from(text, p + 1, form),
        }
    }
}

/// Words after which a bare hour below 12 is read as afternoon or evening.
pub open spec fn has_evening_word(text: Seq<char>) -> bool {
    contains_text(text, "下午"@) || contains_text(text, "晚上"@) || contains_text(text, "今晚"@)
        || contains_text(text, "明晚"@)
}

/// The time a match gives: hour and minute, read as `str::parse` reads the digits,
/// twelve hours later after an evening word, then held to 23 and 59.
pub open spec fn time_value(text: Seq<char>, form: int, hs: int, he: int, ms: int, me: int) -> (
    int,
    int,
) {
    let h0 = digits_value(text.subrange(hs, he));
    let m0 = if form == 1 {
        30
    } else if ms < me {
        digits_value(text.subrange(ms, me))
    } else {
        0
    };
    let h1 = if has_evening_word(text) && h0 < 12 {
        h0 + 12
    } else {
        h0
    };
    (if h1 < 23 {
        h1
    } else {
        23
    }, if m0 < 59 {
        m0
    } else {
        59
    })
}

/// The time of day the text names and where: `(hour, minute, start, end)`.
pub open spec fn time_from(text: Seq<char>, form: int) -> Option<(int, int, int, int)>
    decreases 4 - form,
{
    if form < 0 || form >= 4 {
        match (find_first(text, "今晚"@), find_first(text, "晚上"@)) {
            (Some(i), _) => Some((20, 0, i, i + 2)),
            (None, Some(i)) => Some((20, 0, i, i + 2)),
            (None, None) => match (find_first(text, "明早"@), find_first(text, "早上"@)) {
                (Some(i), _) => Some((9, 0, i, i + 2)),
                (None, Some(i)) => Some((9, 0, i, i + 2)),
                (None, None) => None,
            },
        }
    } else {
        match time_first_from(text, 0, form) {
            Some((s, e, hs, he, ms, me)) => {
                let (h, m) = time_value(text, form, hs, he, ms, me);
                Some((h, m, s, e))
            },
            None => time_from(text, form + 1),
        }
    }
}

pub open spec fn time_of(text: Seq<char>) -> Option<(int, int, int, int)> {
    time_from(text, 0)
}

fn time_at_exec(text: &[char], s: usize, form: usize) -> (r: Option<
    (usize, usize, usize, usize, usize),
>)
    requires
        form < 4,
    ensures
        match r {
            Some((e, hs, he, ms, me)) => time_at(text@, s as int, form as int) == Some(
                (e as int, hs as int, he as int, ms as int, me as int),
            ) && s < e <= text@.len() && hs <= he <= text@.len() && he - hs <= 2 && ms <= me
                <= text@.len() && me - ms <= 2,
            None => time_at(text@, s as int, form as int) is None,
        },
{
    if s >= text.len() {
        return None;
    }
    let d = digit_count_exec(text, s, 2);
    if d < 1 {
        return None;
    }
    proof {
        reveal_strlit("点半");
    }
    if form == 0 {
        let c = s + d;
        if c < text.len() && (text[c] == ':' || text[c] == '：') && digit_count_exec(
            text,
            c + 1,
            2,
        ) == 2 {
            Some((c + 3, s, s + d, c + 1, c + 3))
        } else {
            None
        }
    } else {
        let w = ws_run_end_exec(text, s + d);
        if form == 1 {
            let word = chars_of("点半");
            if crate::lexer::occurs_at_exec(text, word.as_slice(), w) {
                Some((w + 2, s, s + d, w + 2, w + 2))
            } else {
                None
            }
        } else if w < text.len() && text[w] == '点' {
            if form == 2 {
                let d2 = digit_count_exec(text, w + 1, 2);
                if d2 >= 1 {
                    let w2 = ws_run_end_exec(text, w + 1 + d2);
                    let e = if w2 < text.len() && text[w2] == '分' {
                        w2 + 1
                    } else {
                        w2
                    };
                    Some((e, s, s + d, w + 1, w + 1 + d2))
                } else {
                    None
                }
            } else {
                Some((w + 1, s, s + d, w + 1, w + 1))
            }
        } else {
            None
        }
    }
}

fn time_first_exec(text: &[char], form: usize) -> (r: Option<
    (usize, usize, usize, usize, usize, usize),
>)
    requires
        form < 4,
    ensures
        match r {
            Some((s, e, hs, he, ms, me)) => time_first_from(text@, 0, form as int) == Some(
                (s as int, e as int, hs as int, he as int, ms as int, me as int),
            ) && s < e <= text@.len() && hs <= he <= text@.len() && he - hs <= 2 && ms <= me
                <= text@.len() && me - ms <= 2,
            None => time_first_from(text@, 0, form as int) is None,
        },
{
    let mut p: usize = 0;
    while p < text.len()
        invariant
            p <= text@.len(),
            form < 4,
            time_first_from(text@, 0, form as int) == time_first_from(text@, p as int, form as int),
        decreases text.len() - p,
    {
        match time_at_exec(text, p, form) {
            Some((e, hs, he, ms, me)) => {
                return Some((p, e, hs, he, ms, me));
            },
            None => {},
        }
        p = p + 1;
    }
    None
}

fn has_evening_word_exec(text: &[char]) -> (r: bool)
    ensures
        r == has_evening_word(text@),
{
    let a = chars_of("下午");
    let b = chars_of("晚上");
    let c = chars_of("今晚");
    let d = chars_of("明晚");
    contains_exec(text, a.as_slice()) || contains_exec(text, b.as_slice()) || contains_exec(
        text,
        c.as_slice(),
    ) || contains_exec(text, d.as_slice())
}

/// The time of day the text names: `(hour, minute, start, end)`.
fn time_of_exec(text: &[char]) -> (r: Option<(u32, u32, usize, usize)>)
    ensures
        match r {
            Some((h, m, s, e)) => time_of(text@) == Some((h as int, m as int, s as int, e as int))
                && s <= e <= text@.len() && h <= 23 && m <= 59,
            None => time_of(text@) is None,
        },
{
    let mut form: usize = 0;
    while form < 4
        invariant
            form <= 4,
            time_of(text@) == time_from(text@, form as int),
        decreases 4 - form,
    {
        match time_first_exec(text, form) {
            Some((s, e, hs, he, ms, me)) => {
                let h0 = digits_number(text, hs, he);
                let m0 = if form == 1 {
                    30
                } else if ms < me {
                    digits_number(text, ms, me)
                } else {
                    0
                };
                let h1 = if has_evening_word_exec(text) && h0 < 12 {
                    h0 + 12
                } else {
                    h0
                };
                let h = if h1 < 23 {
                    h1
                } else {
                    23
                };
                let m = if m0 < 59 {
                    m0
                } else {
                    59
                };
                return Some((h as u32, m as u32, s, e));
            },
            None => {},
        }
        form = form + 1;
    }
    proof {
        reveal_strlit("今晚");
        reveal_strlit("晚上");
        reveal_strlit("明早");
        reveal_strlit("早上");
    }
    let tonight = chars_of("今晚");
    let evening = chars_of("晚上");
    let tmorrow = chars_of("明早");
    let morning = chars_of("早上");
    proof {
        crate::lexer::lemma_find_from_occurs(text@, tonight@, 0);
        crate::lexer::lemma_find_from_occurs(text@, evening@, 0);
        crate::lexer::lemma_find_from_occurs(text@, tmorrow@, 0);
        crate::lexer::lemma_find_from_occurs(text@, morning@, 0);
    }
    proof {
        assert(tonight@.len() == 2);
        assert(evening@.len() == 2);
        assert(tmorrow@.len() == 2);
        assert(morning@.len() == 2);
    }
    if let Some(i) = find_first_exec(text, tonight.as_slice()) {
        proof {
            assert(crate::lexer::occurs_at(text@, tonight@, i as int));
            assert(i + 2 <= text@.len());
            assert(text@.len() == text.len());
        }
        return Some((20, 0, i, i + 2));
    }
    if let Some(i) = find_first_exec(text, evening.as_slice()) {
        proof {
            assert(crate::lexer::occurs_at(text@, evening@, i as int));
            assert(i + 2 <= text@.len());
            assert(text@.len() == text.len());
        }
        return Some((20, 0, i, i + 2));
    }
    if let Some(i) = find_first_exec(text, tmorrow.as_slice()) {
        proof {
            assert(crate::lexer::occurs_at(text@, tmorrow@, i as int));
            assert(i + 2 <= text@.len());
            assert(text@.len() == text.len());
        }
        return Some((9, 0, i, i + 2));
    }
    if let Some(i) = find_first_exec(text, morning.as_slice()) {
        proof {
            assert(crate::lexer::occurs_at(text@, morning@, i as int));
            assert(i + 2 <= text@.len());
            assert(text@.len() == text.len());
        }
        return Some((9, 0, i, i + 2));
    }
    None
}

} // verus!

verus! {

// ---------------------------------------------------------------- dates
/// Local midnight (zone `off` milliseconds east of UTC) of the day that holds `t`;
/// `t` itself where that instant is out of range.
pub open spec fn start_of_day(t: int, off: int) -> int {
    let c = day_index(t, off) * DAY_MS - off;
    if in_range(c) {
        c
    } else {
        t
    }
}

/// The instant at `h:m` local time on the local day that holds `t`; `t` itself where
/// that instant is out of range.
pub open spec fn apply_hm(h: int, m: int, t: int, off: int) -> int {
    let c = day_index(t, off) * DAY_MS - off + h * HOUR_MS + m * MINUTE_MS;
    if in_range(c) {
        c
    } else {
        t
    }
}

/// Same local day.
pub open spec fn same_local_day(a: int, b: int, off: int) -> bool {
    day_index(a, off) == day_index(b, off)
}

/// The next day strictly after the local day of `from` that falls on weekday
/// `target` (0 = Monday .. 6 = Sunday), at local midnight.
pub open spec fn next_weekday(from: int, target: int, off: int) -> int {
    let st = start_of_day(from, off);
    let cur = crate::clock::weekday_from_monday(day_index(st, off));
    let o = target - cur;
    st + (if o <= 0 {
        o + 7
    } else {
        o
    }) * DAY_MS
}

/// Weekday numbering from Sunday = 1 to Saturday = 7.
pub open spec fn apple_weekday(monday_based: int) -> int {
    if monday_based == 6 {
        1
    } else {
        monday_based + 2
    }
}

/// As `next_weekday`, with the target numbered from Sunday = 1.
pub open spec fn next_apple_weekday(from: int, apple: int, off: int) -> int {
    let st = start_of_day(from, off);
    let cur = apple_weekday(crate::clock::weekday_from_monday(day_index(st, off)));
    let o = apple - cur;
    st + (if o <= 0 {
        o + 7
    } else {
        o
    }) * DAY_MS
}

/// Day words with their distance from today: 今天 0, 今晚 0, 明天 1, 明晚 1, 后天 2.
pub open spec fn day_word(k: int) -> Seq<char> {
    if k == 0 {
        "今天"@
    } else if k == 1 {
        "今晚"@
    } else if k == 2 {
        "明天"@
    } else if k == 3 {
        "明晚"@
    } else {
        "后天"@
    }
}

pub open spec fn day_word_shift(k: int) -> int {
    if k <= 1 {
        0
    } else if k <= 3 {
        1
    } else {
        2
    }
}

/// Weekday words from Sunday: 周日, 周一 .. 周六.
pub open spec fn weekday_word(w: int) -> Seq<char> {
    if w == 0 {
        "周日"@
    } else if w == 1 {
        "周一"@
    } else if w == 2 {
        "周二"@
    } else if w == 3 {
        "周三"@
    } else if w == 4 {
        "周四"@
    } else if w == 5 {
        "周五"@
    } else {
        "周六"@
    }
}

/// `每` followed by a weekday word.
pub open spec fn every_weekday_word(w: int) -> Seq<char> {
    "每"@ + weekday_word(w)
}

/// The date the text names and where: `(instant, start, end)`, trying day words,
/// then each weekday (with `每` first, then alone) from Sunday to Saturday.
/// Step `k` 0..=4 tries a day word; steps 5.. try weekday `(k - 5) / 2`.
pub open spec fn date_from(text: Seq<char>, now: int, off: int, k: int) -> Option<(int, int, int)>
    decreases 19 - k,
{
    let sod = start_of_day(now, off);
    if k < 0 || k >= 19 {
        None
    } else if k < 5 {
        match find_first(text, day_word(k)) {
            Some(i) => Some((sod + day_word_shift(k) * DAY_MS, i, i + day_word(k).len())),
            None => date_from(text, now, off, k + 1),
        }
    } else {
        let w = (k - 5) / 2;
        if (k - 5) % 2 == 0 {
            match find_first(text, every_weekday_word(w)) {
                Some(i) => Some(
                    (next_apple_weekday(sod, w + 1, off), i, i + every_weekday_word(w).len()),
                ),
                None => date_from(text, now, off, k + 1),
            }
        } else {
            match find_first(text, weekday_word(w)) {
                Some(i) => Some(
                    (next_weekday(sod, if w == 0 { 6 } else { w - 1 }, off), i, i
                        + weekday_word(w).len()),
                ),
                None => date_from(text, now, off, k + 1),
            }
        }
    }
}

pub open spec fn date_of(text: Seq<char>, now: int, off: int) -> Option<(int, int, int)> {
    date_from(text, now, off, 0)
}

// ---------------------------------------------------------------- repeat words
/// Repeat words in the order tried: 每天, 每日, 每周, 每星期, 每月, 每年.
pub open spec fn repeat_word(k: int) -> Seq<char> {
    if k == 0 {
        "每天"@
    } else if k == 1 {
        "每日"@
    } else if k == 2 {
        "每周"@
    } else if k == 3 {
        "每星期"@
    } else if k == 4 {
        "每月"@
    } else {
        "每年"@
    }
}

pub open spec fn repeat_word_rule(k: int) -> crate::models::TaskRepeatRule {
    if k <= 1 {
        crate::models::TaskRepeatRule::Daily
    } else if k <= 3 {
        crate::models::TaskRepeatRule::Weekly
    } else if k == 4 {
        crate::models::TaskRepeatRule::Monthly
    } else {
        crate::models::TaskRepeatRule::Yearly
    }
}

pub open spec fn repeat_from(text: Seq<char>, k: int) -> Option<
    (crate::models::TaskRepeatRule, int, int),
>
    decreases 6 - k,
{
    if k < 0 || k >= 6 {
        None
    } else {
        match find_first(text, repeat_word(k)) {
            Some(i) => Some((repeat_word_rule(k), i, i + repeat_word(k).len())),
            None => repeat_from(text, k + 1),
        }
    }
}

pub open spec fn repeat_of(text: Seq<char>) -> Option<(crate::models::TaskRepeatRule, int, int)> {
    repeat_from(text, 0)
}

// ---------------------------------------------------------------- title
/// Every run of whitespace replaced by one space.
pub open spec fn collapse_ws(s: Seq<char>) -> Seq<char>
    decreases s.len(),
{
    if s.len() == 0 {
        seq![]
    } else {
        let p = collapse_ws(s.drop_last());
        if is_ws(s.last()) {
            if s.len() >= 2 && is_ws(s[s.len() - 2]) {
                p
            } else {
                p.push(' ')
            }
        } else {
            p.push(s.last())
        }
    }
}

/// The title form of a text: trimmed, whitespace runs made single spaces.
pub open spec fn normalized_title(s: Seq<char>) -> Seq<char> {
    trim(collapse_ws(trim(s)))
}

/// Collapsing whitespace runs keeps a text all whitespace, or not.
proof fn lemma_collapse_blank(s: Seq<char>)
    ensures
        all_ws(collapse_ws(s)) == all_ws(s),
    decreases s.len(),
{
    if s.len() > 0 {
        let p = s.drop_last();
        lemma_collapse_blank(p);
        let c = collapse_ws(s);
        let cp = collapse_ws(p);
        assert(all_ws(s) == (all_ws(p) && is_ws(s.last()))) by {
            if all_ws(s) {
                assert forall|i: int| 0 <= i < p.len() implies is_ws(#[trigger] p[i]) by {
                    assert(p[i] == s[i]);
                }
                assert(is_ws(s[s.len() - 1]));
            }
            if all_ws(p) && is_ws(s.last()) {
                assert forall|i: int| 0 <= i < s.len() implies is_ws(#[trigger] s[i]) by {
                    if i < p.len() {
                        assert(p[i] == s[i]);
                    }
                }
            }
        }
        if is_ws(s.last()) {
            if s.len() >= 2 && is_ws(s[s.len() - 2]) {
            } else {
                assert(is_ws(' '));
                assert(all_ws(cp.push(' ')) == all_ws(cp)) by {
                    let q = cp.push(' ');
                    if all_ws(cp) {
                        assert forall|i: int| 0 <= i < q.len() implies is_ws(#[trigger] q[i]) by {
                            if i < cp.len() {
                                assert(q[i] == cp[i]);
                            }
                        }
                    }
                    if all_ws(q) {
                        assert forall|i: int| 0 <= i < cp.len() implies is_ws(#[trigger] cp[i]) by {
                            assert(q[i] == cp[i]);
                        }
                    }
                }
            }
        } else {
            let q = cp.push(s.last());
            assert(!is_ws(q[q.len() - 1]));
            assert(!all_ws(q));
        }
    }
}

/// A title form is empty exactly when the text is all whitespace.
pub proof fn lemma_normalized_title_blank(s: Seq<char>)
    ensures
        (normalized_title(s).len() == 0) == all_ws(s),
{
    lemma_trim_blank(s);
    lemma_collapse_blank(trim(s));
    lemma_trim_blank(collapse_ws(trim(s)));
}

/// Dropping the characters that ranges cover keeps a text all whitespace.
proof fn lemma_keep_outside_blank(text: Seq<char>, rs: Seq<(int, int)>)
    requires
        all_ws(text),
    ensures
        all_ws(keep_outside(text, rs)),
    decreases text.len(),
{
    if text.len() > 0 {
        let p = text.drop_last();
        assert forall|i: int| 0 <= i < p.len() implies is_ws(#[trigger] p[i]) by {
            assert(p[i] == text[i]);
        }
        lemma_keep_outside_blank(p, rs);
        let k = keep_outside(p, rs);
        assert(is_ws(text[text.len() - 1]));
        let q = k.push(text.last());
        assert forall|i: int| 0 <= i < q.len() implies is_ws(#[trigger] q[i]) by {
            if i < k.len() {
                assert(q[i] == k[i]);
            }
        }
    }
}

/// Cutting a piece out of a text keeps it all whitespace.
proof fn lemma_cut_blank(text: Seq<char>, a: int, b: int)
    requires
        all_ws(text),
        0 <= a <= b <= text.len(),
    ensures
        all_ws(cut(text, a, b)),
        cut(text, a, b).len() == text.len() - (b - a),
{
    let c = cut(text, a, b);
    assert forall|i: int| 0 <= i < c.len() implies is_ws(#[trigger] c[i]) by {
        if i < a {
            assert(c[i] == text[i]);
        } else {
            assert(c[i] == text[i - a + b]);
        }
    }
}

/// Cutting ordered ranges out of a text keeps it all whitespace.
proof fn lemma_cut_rev_blank(text: Seq<char>, rs: Seq<(int, int)>)
    requires
        all_ws(text),
        ordered_ranges(rs, text.len() as int),
    ensures
        all_ws(cut_rev(text, rs)),
    decreases rs.len(),
{
    if rs.len() > 0 {
        let l = rs.last();
        assert(rs[rs.len() - 1] == l);
        lemma_cut_blank(text, l.0, l.1);
        let t = cut(text, l.0, l.1);
        let r1 = rs.drop_last();
        assert(ordered_ranges(r1, t.len() as int)) by {
            assert forall|k: int| 0 <= k < r1.len() implies 0 <= (#[trigger] r1[k]).0 <= r1[k].1 <= t.len() by {
                assert(r1[k] == rs[k]);
                lemma_ordered_step(rs, text.len() as int, k, rs.len() - 2);
                assert(rs[k].1 <= rs[rs.len() - 1].0);
            }
            assert forall|k: int| 0 <= k < r1.len() - 1 implies (#[trigger] r1[k]).1 <= r1[k + 1].0 by {
                assert(r1[k] == rs[k]);
                assert(r1[k + 1] == rs[k + 1]);
            }
        }
        lemma_cut_rev_blank(t, r1);
    }
}

proof fn lemma_ordered_step(rs: Seq<(int, int)>, n: int, k: int, m: int)
    requires
        ordered_ranges(rs, n),
        0 <= k <= m < rs.len() - 1,
    ensures
        rs[k].1 <= rs[m + 1].0,
    decreases m - k,
{
    if k < m {
        lemma_ordered_step(rs, n, k, m - 1);
        assert(rs[m].0 <= rs[m].1);
    }
}

// ---------------------------------------------------------------- ranges
pub open spec fn overlaps(a: (int, int), b: (int, int)) -> bool {
    a.0 < b.1 && b.0 < a.1
}

/// Adds a range unless it overlaps one already taken.
pub open spec fn accept_range(acc: Seq<(int, int)>, r: (int, int)) -> Seq<(int, int)> {
    if exists|k: int| 0 <= k < acc.len() && overlaps(#[trigger] acc[k], r) {
        acc
    } else {
        acc.push(r)
    }
}

pub open spec fn covered(rs: Seq<(int, int)>, i: int) -> bool {
    exists|k: int| 0 <= k < rs.len() && (#[trigger] rs[k]).0 <= i < rs[k].1
}

/// The characters of `text` that no range covers, in order.
pub open spec fn keep_outside(text: Seq<char>, rs: Seq<(int, int)>) -> Seq<char>
    decreases text.len(),
{
    if text.len() == 0 {
        seq![]
    } else {
        let p = keep_outside(text.drop_last(), rs);
        if covered(rs, text.len() - 1) {
            p
        } else {
            p.push(text.last())
        }
    }
}

} // verus!

verus! {

fn start_of_day_exec(t: i64, off: i64) -> (r: i64)
    requires
        in_range(t as int),
        -DAY_MS < off < DAY_MS,
    ensures
        r == start_of_day(t as int, off as int),
        in_range(r as int),
{
    let d = crate::clock::day_index_exec(t, off);
    let c: i128 = d as i128 * 86_400_000 - off as i128;
    if crate::clock::in_range_exec(c) {
        c as i64
    } else {
        t
    }
}

fn apply_hm_exec(h: u32, m: u32, t: i64, off: i64) -> (r: i64)
    requires
        in_range(t as int),
        -DAY_MS < off < DAY_MS,
        h <= 23,
        m <= 59,
    ensures
        r == apply_hm(h as int, m as int, t as int, off as int),
        in_range(r as int),
{
    let d = crate::clock::day_index_exec(t, off);
    let c: i128 = d as i128 * 86_400_000 - off as i128 + h as i128 * 3_600_000 + m as i128
        * 60_000;
    if crate::clock::in_range_exec(c) {
        c as i64
    } else {
        t
    }
}

fn weekday_exec(day: i64) -> (r: i64)
    requires
        -100_000_000 < day < 100_000_000,
    ensures
        r == crate::clock::weekday_from_monday(day as int),
        0 <= r < 7,
{
    let x: i64 = day + 3 + 700_000_000;
    proof {
        assert((day + 3 + 7 * 100_000_000) % 7 == (day + 3) % 7) by (nonlinear_arith);
    }
    x % 7
}

fn next_weekday_exec(from: i64, target: i64, off: i64) -> (r: i128)
    requires
        in_range(from as int),
        -DAY_MS < off < DAY_MS,
        0 <= target < 7,
    ensures
        r == next_weekday(from as int, target as int, off as int),
{
    let st = start_of_day_exec(from, off);
    let cur = weekday_exec(crate::clock::day_index_exec(st, off));
    let o = target - cur;
    let o2 = if o <= 0 {
        o + 7
    } else {
        o
    };
    st as i128 + o2 as i128 * 86_400_000
}

fn next_apple_weekday_exec(from: i64, apple: i64, off: i64) -> (r: i128)
    requires
        in_range(from as int),
        -DAY_MS < off < DAY_MS,
        1 <= apple <= 7,
    ensures
        r == next_apple_weekday(from as int, apple as int, off as int),
{
    let st = start_of_day_exec(from, off);
    let wd = weekday_exec(crate::clock::day_index_exec(st, off));
    let cur = if wd == 6 {
        1
    } else {
        wd + 2
    };
    let o = apple - cur;
    let o2 = if o <= 0 {
        o + 7
    } else {
        o
    };
    st as i128 + o2 as i128 * 86_400_000
}

fn day_word_exec(k: usize) -> (r: Vec<char>)
    ensures
        r@ == day_word(k as int),
{
    let s = if k == 0 {
        "今天"
    } else if k == 1 {
        "今晚"
    } else if k == 2 {
        "明天"
    } else if k == 3 {
        "明晚"
    } else {
        "后天"
    };
    chars_of(s)
}

fn weekday_word_exec(w: usize) -> (r: Vec<char>)
    ensures
        r@ == weekday_word(w as int),
{
    let s = if w == 0 {
        "周日"
    } else if w == 1 {
        "周一"
    } else if w == 2 {
        "周二"
    } else if w == 3 {
        "周三"
    } else if w == 4 {
        "周四"
    } else if w == 5 {
        "周五"
    } else {
        "周六"
    };
    chars_of(s)
}

fn every_weekday_word_exec(w: usize) -> (r: Vec<char>)
    ensures
        r@ == every_weekday_word(w as int),
{
    let mut v = chars_of("每");
    let t = weekday_word_exec(w);
    let mut i: usize = 0;
    let ghost base = v@;
    while i < t.len()
        invariant
            i <= t@.len(),
            base == "每"@,
            v@ == base + t@.take(i as int),
        decreases t.len() - i,
    {
        v.push(t[i]);
        i = i + 1;
        proof {
            assert(v@ =~= base + t@.take(i as int));
        }
    }
    proof {
        assert(t@.take(t@.len() as int) =~= t@);
    }
    v
}

/// The date the text names: `(instant, start, end)`.
fn date_of_exec(text: &[char], now: i64, off: i64) -> (r: Option<(i128, usize, usize)>)
    requires
        in_range(now as int),
        -DAY_MS < off < DAY_MS,
    ensures
        match r {
            Some((d, s, e)) => date_of(text@, now as int, off as int) == Some(
                (d as int, s as int, e as int),
            ) && s <= e <= text@.len(),
            None => date_of(text@, now as int, off as int) is None,
        },
{
    let sod = start_of_day_exec(now, off);
    let mut k: usize = 0;
    while k < 19
        invariant
            k <= 19,
            sod == start_of_day(now as int, off as int),
            in_range(sod as int),
            -DAY_MS < off < DAY_MS,
            date_of(text@, now as int, off as int) == date_from(
                text@,
                now as int,
                off as int,
                k as int,
            ),
        decreases 19 - k,
    {
        if k < 5 {
            let tok = day_word_exec(k);
            proof {
                crate::lexer::lemma_find_from_occurs(text@, tok@, 0);
            }
            if let Some(i) = find_first_exec(text, tok.as_slice()) {
                proof {
                    assert(text@.len() == text.len());
                }
                let shift: i128 = if k <= 1 {
                    0
                } else if k <= 3 {
                    1
                } else {
                    2
                };
                return Some((sod as i128 + shift * 86_400_000, i, i + tok.len()));
            }
        } else {
            let w = (k - 5) / 2;
            proof {
                assert(w <= 6) by (nonlinear_arith)
                    requires
                        w == (k - 5) / 2,
                        5 <= k < 19,
                ;
            }
            if (k - 5) % 2 == 0 {
                let tok = every_weekday_word_exec(w);
                proof {
                    crate::lexer::lemma_find_from_occurs(text@, tok@, 0);
                }
                if let Some(i) = find_first_exec(text, tok.as_slice()) {
                    proof {
                        assert(text@.len() == text.len());
                    }
                    let d = next_apple_weekday_exec(sod, (w + 1) as i64, off);
                    return Some((d, i, i + tok.len()));
                }
            } else {
                let tok = weekday_word_exec(w);
                proof {
                    crate::lexer::lemma_find_from_occurs(text@, tok@, 0);
                }
                if let Some(i) = find_first_exec(text, tok.as_slice()) {
                    proof {
                        assert(text@.len() == text.len());
                    }
                    let target: i64 = if w == 0 {
                        6
                    } else {
                        (w - 1) as i64
                    };
                    let d = next_weekday_exec(sod, target, off);
                    return Some((d, i, i + tok.len()));
                }
            }
        }
        k = k + 1;
    }
    None
}

fn repeat_word_exec(k: usize) -> (r: Vec<char>)
    ensures
        r@ == repeat_word(k as int),
{
    let s = if k == 0 {
        "每天"
    } else if k == 1 {
        "每日"
    } else if k == 2 {
        "每周"
    } else if k == 3 {
        "每星期"
    } else if k == 4 {
        "每月"
    } else {
        "每年"
    };
    chars_of(s)
}

fn repeat_of_exec(text: &[char]) -> (r: Option<(crate::models::TaskRepeatRule, usize, usize)>)
    ensures
        match r {
            Some((rule, s, e)) => repeat_of(text@) == Some((rule, s as int, e as int)) && s <= e
                <= text@.len(),
            None => repeat_of(text@) is None,
        },
{
    let mut k: usize = 0;
    while k < 6
        invariant
            k <= 6,
            repeat_of(text@) == repeat_from(text@, k as int),
        decreases 6 - k,
    {
        let tok = repeat_word_exec(k);
        proof {
            crate::lexer::lemma_find_from_occurs(text@, tok@, 0);
        }
        if let Some(i) = find_first_exec(text, tok.as_slice()) {
            proof {
                assert(text@.len() == text.len());
            }
            let rule = if k <= 1 {
                crate::models::TaskRepeatRule::Daily
            } else if k <= 3 {
                crate::models::TaskRepeatRule::Weekly
            } else if k == 4 {
                crate::models::TaskRepeatRule::Monthly
            } else {
                crate::models::TaskRepeatRule::Yearly
            };
            return Some((rule, i, i + tok.len()));
        }
        k = k + 1;
    }
    None
}

fn collapse_ws_exec(s: &[char]) -> (r: Vec<char>)
    ensures
        r@ == collapse_ws(s@),
{
    let mut out: Vec<char> = Vec::new();
    let mut i: usize = 0;
    while i < s.len()
        invariant
            i <= s@.len(),
            out@ == collapse_ws(s@.take(i as int)),
        decreases s.len() - i,
    {
        proof {
            let t = s@.take(i + 1);
            assert(t.drop_last() =~= s@.take(i as int));
            assert(t.last() == s@[i as int]);
            if i >= 1 {
                assert(t[t.len() - 2] == s@[i - 1]);
            }
        }
        let c = s[i];
        if char_is_ws(c) {
            if i >= 1 && char_is_ws(s[i - 1]) {
            } else {
                out.push(' ');
            }
        } else {
            out.push(c);
        }
        i = i + 1;
    }
    proof {
        assert(s@.take(s@.len() as int) =~= s@);
    }
    out
}

fn normalized_title_exec(s: &[char]) -> (r: Vec<char>)
    ensures
        r@ == normalized_title(s@),
{
    let t = crate::text::trim_vec(s);
    let c = collapse_ws_exec(t.as_slice());
    crate::text::trim_vec(c.as_slice())
}

fn accept_range_exec(acc: &mut Vec<(usize, usize)>, r: (usize, usize))
    ensures
        pairs(final(acc)@) == accept_range(pairs(old(acc)@), (r.0 as int, r.1 as int)),
{
    let mut k: usize = 0;
    while k < acc.len()
        invariant
            k <= acc@.len(),
            forall|j: int| 0 <= j < k ==> !overlaps(#[trigger] pairs(acc@)[j], (r.0 as int, r.1 as int)),
        decreases acc.len() - k,
    {
        let (a, b) = acc[k];
        if a < r.1 && r.0 < b {
            proof {
                assert(overlaps(pairs(acc@)[k as int], (r.0 as int, r.1 as int)));
            }
            return;
        }
        k = k + 1;
    }
    let ghost before = acc@;
    acc.push(r);
    proof {
        assert(pairs(acc@) =~= pairs(before).push((r.0 as int, r.1 as int)));
    }
}

fn keep_outside_exec(text: &[char], rs: &Vec<(usize, usize)>) -> (r: Vec<char>)
    ensures
        r@ == keep_outside(text@, pairs(rs@)),
{
    let mut out: Vec<char> = Vec::new();
    let mut i: usize = 0;
    while i < text.len()
        invariant
            i <= text@.len(),
            out@ == keep_outside(text@.take(i as int), pairs(rs@)),
        decreases text.len() - i,
    {
        let mut cov = false;
        let mut k: usize = 0;
        while k < rs.len()
            invariant
                k <= rs@.len(),
                cov == exists|j: int| 0 <= j < k && (#[trigger] pairs(rs@)[j]).0 <= i < pairs(rs@)[j].1,
            decreases rs.len() - k,
        {
            let (a, b) = rs[k];
            if a <= i && i < b {
                cov = true;
            }
            proof {
                if a <= i && i < b {
                    assert(pairs(rs@)[k as int].0 <= i < pairs(rs@)[k as int].1);
                }
            }
            k = k + 1;
        }
        proof {
            let t = text@.take(i + 1);
            assert(t.drop_last() =~= text@.take(i as int));
            assert(t.last() == text@[i as int]);
            assert(cov == covered(pairs(rs@), t.len() - 1));
        }
        if !cov {
            out.push(text[i]);
        }
        i = i + 1;
    }
    proof {
        assert(text@.take(text@.len() as int) =~= text@);
    }
    out
}

} // verus!

verus! {

// ---------------------------------------------------------------- the whole input
/// What the grammar reads out of a quick-add text.
pub struct ParsedTaskInput {
    pub title: String,
    pub priority: TaskPriority,
    pub due_at: Option<i64>,
    pub reminder_at: Option<i64>,
    pub repeat_rule: Option<crate::models::TaskRepeatRule>,
    pub tags: Vec<String>,
    pub project_name: Option<String>,
    pub estimated_minutes: Option<i32>,
    pub is_today: bool,
}

pub struct ParsedView {
    pub title: Seq<char>,
    pub priority: TaskPriority,
    pub due_at: Option<int>,
    pub reminder_at: Option<int>,
    pub repeat_rule: Option<crate::models::TaskRepeatRule>,
    pub tags: Seq<Seq<char>>,
    pub project_name: Option<Seq<char>>,
    pub estimated_minutes: Option<int>,
    pub is_today: bool,
}

pub open spec fn opt_int(o: Option<i64>) -> Option<int> {
    match o {
        Some(v) => Some(v as int),
        None => None,
    }
}

pub open spec fn opt_int32(o: Option<i32>) -> Option<int> {
    match o {
        Some(v) => Some(v as int),
        None => None,
    }
}

impl View for ParsedTaskInput {
    type V = ParsedView;

    open spec fn view(&self) -> ParsedView {
        ParsedView {
            title: self.title@,
            priority: self.priority,
            due_at: opt_int(self.due_at),
            reminder_at: opt_int(self.reminder_at),
            repeat_rule: self.repeat_rule,
            tags: crate::text::texts(self.tags@),
            project_name: crate::models::opt_text(self.project_name),
            estimated_minutes: opt_int32(self.estimated_minutes),
            is_today: self.is_today,
        }
    }
}

/// The text once the priority marks are out: every character that a mark covers
/// is dropped (marks stand between whitespace, so they never overlap).
pub open spec fn stage1(raw: Seq<char>) -> Seq<char> {
    keep_outside(raw, prio_ranges(raw))
}

/// The text once the `#tags` are out.
pub open spec fn stage2(w: Seq<char>) -> Seq<char> {
    cut_rev(w, hash_tags_from(w, 0))
}

/// The text once the `+project` is out.
pub open spec fn stage3(w: Seq<char>) -> Seq<char> {
    match plus_project_from(w, 0) {
        Some((a, b)) => cut(w, a, b),
        None => w,
    }
}

/// The text once the duration is out.
pub open spec fn stage4(w: Seq<char>) -> Seq<char> {
    match est_minutes(w) {
        Some((s, e, _)) => cut(w, s, e),
        None => w,
    }
}

/// The text that dates, times and repeat words are read from.
pub open spec fn body_text(raw: Seq<char>) -> Seq<char> {
    stage4(stage3(stage2(stage1(raw))))
}

/// Inputs that can be read: the named date stays within chrono's range.
pub open spec fn parse_ok(raw: Seq<char>, now: int, off: int) -> bool {
    date_of(body_text(raw), now, off) matches Some((d, _, _)) ==> in_range(d)
}

/// The ranges of date, time and repeat word that come out of the title: each in
/// that order unless it overlaps one already taken.
pub open spec fn meta_ranges(w: Seq<char>, now: int, off: int) -> Seq<(int, int)> {
    let a1 = match date_of(w, now, off) {
        Some((_, s, e)) => seq![(s, e)],
        None => seq![],
    };
    let a2 = match time_of(w) {
        Some((_, _, s, e)) => accept_range(a1, (s, e)),
        None => a1,
    };
    match repeat_of(w) {
        Some((_, s, e)) => accept_range(a2, (s, e)),
        None => a2,
    }
}

/// The due instant that date and time name.
pub open spec fn due_of(w: Seq<char>, now: int, off: int) -> Option<int> {
    match date_of(w, now, off) {
        Some((d, _, _)) => Some(
            match time_of(w) {
                Some((h, m, _, _)) => apply_hm(h, m, d, off),
                None => d,
            },
        ),
        None => match time_of(w) {
            Some((h, m, _, _)) => Some(apply_hm(h, m, start_of_day(now, off), off)),
            None => None,
        },
    }
}

/// What a quick-add text means, read at instant `now` in a zone `off`
/// milliseconds east of UTC.
pub open spec fn parse_spec(raw: Seq<char>, fallback: TaskPriority, now: int, off: int) -> ParsedView {
    let w1 = stage1(raw);
    let w2 = stage2(w1);
    let w3 = stage3(w2);
    let w4 = stage4(w3);
    let due = due_of(w4, now, off);
    let is_today = (match date_of(w4, now, off) {
        Some(_) => same_local_day(due.unwrap(), now, off),
        None => time_of(w4) is Some,
    }) || contains_text(w4, "今天"@);
    let title = normalized_title(keep_outside(w4, meta_ranges(w4, now, off)));
    ParsedView {
        title: if title.len() == 0 {
            normalized_title(raw)
        } else {
            title
        },
        priority: prio_of(raw, fallback),
        due_at: due,
        reminder_at: due,
        repeat_rule: match repeat_of(w4) {
            Some((r, _, _)) => Some(r),
            None => None,
        },
        tags: collect_tags(w1, hash_tags_from(w1, 0)),
        project_name: match plus_project_from(w2, 0) {
            Some((a, b)) => Some(w2.subrange(a + 1, b)),
            None => None,
        },
        estimated_minutes: match est_minutes(w3) {
            Some((_, _, n)) => Some(n),
            None => None,
        },
        is_today,
    }
}

/// Takes priority marks, `#tags`, `+project` and duration out of the text.
fn strip_marks(raw: &Vec<char>, fallback: TaskPriority) -> (r: (
    TaskPriority,
    Vec<String>,
    Option<String>,
    Option<i32>,
    Vec<char>,
))
    ensures
        ({
            let (p, tags, project, minutes, w4) = r;
            let pv = parse_spec(raw@, fallback, 0, 0);
            &&& p == pv.priority
            &&& crate::text::texts(tags@) == pv.tags
            &&& crate::models::opt_text(project) == pv.project_name
            &&& opt_int32(minutes) == pv.estimated_minutes
            &&& w4@ == body_text(raw@)
            &&& all_ws(raw@) ==> all_ws(w4@)
        }),
{
    let (priority, ranges) = scan_priority(raw.as_slice(), fallback);
    let w1 = keep_outside_exec(raw.as_slice(), &ranges);
    proof {
        if all_ws(raw@) {
            lemma_keep_outside_blank(raw@, pairs(ranges@));
        }
    }
    let tag_ranges = hash_tag_ranges(w1.as_slice());
    let tags_chars = collect_tags_exec(w1.as_slice(), &tag_ranges);
    let tags = crate::text::strings_of(&tags_chars);
    let w2 = cut_rev_exec(w1.as_slice(), &tag_ranges);
    proof {
        if all_ws(raw@) {
            lemma_cut_rev_blank(w1@, pairs(tag_ranges@));
        }
    }
    let (project_name, w3) = match plus_project_exec(w2.as_slice()) {
        Some((a, b)) => {
            let name = crate::text::slice_to_vec(w2.as_slice(), a + 1, b);
            proof {
                if all_ws(raw@) {
                    lemma_cut_blank(w2@, a as int, b as int);
                }
            }
            (Some(crate::text::string_of(name.as_slice())), cut_exec(w2.as_slice(), a, b))
        },
        None => (None, crate::text::slice_to_vec(w2.as_slice(), 0, w2.len())),
    };
    proof {
        assert(w2@.subrange(0, w2@.len() as int) =~= w2@);
    }
    let (estimated_minutes, w4) = match est_minutes_exec(w3.as_slice()) {
        Some((s, e, n)) => {
            proof {
                if all_ws(raw@) {
                    lemma_cut_blank(w3@, s as int, e as int);
                }
            }
            (Some(n), cut_exec(w3.as_slice(), s, e))
        },
        None => (None, crate::text::slice_to_vec(w3.as_slice(), 0, w3.len())),
    };
    proof {
        assert(w3@.subrange(0, w3@.len() as int) =~= w3@);
    }
    (priority, tags, project_name, estimated_minutes, w4)
}

/// Reads date, time and repeat word out of the text: due instant, whether it is
/// for today, repeat rule and the text left for the title; `None` where the named
/// date is out of range.
fn read_when(w4: &Vec<char>, now: i64, off: i64) -> (r: Option<
    (Option<i64>, bool, Option<crate::models::TaskRepeatRule>, Vec<char>),
>)
    requires
        in_range(now as int),
        -DAY_MS < off < DAY_MS,
    ensures
        r is Some <==> (date_of(w4@, now as int, off as int) matches Some((d, _, _)) ==> in_range(
            d,
        )),
        r matches Some((due, today, rule, rest)) ==> {
            &&& opt_int(due) == due_of(w4@, now as int, off as int)
            &&& today == ((match date_of(w4@, now as int, off as int) {
                Some(_) => same_local_day(due_of(w4@, now as int, off as int).unwrap(), now as int, off as int),
                None => time_of(w4@) is Some,
            }) || contains_text(w4@, "今天"@))
            &&& rule == (match repeat_of(w4@) {
                Some((r, _, _)) => Some(r),
                None => None,
            })
            &&& rest@ == keep_outside(w4@, meta_ranges(w4@, now as int, off as int))
        },
{
    let date = date_of_exec(w4.as_slice(), now, off);
    let time = time_of_exec(w4.as_slice());
    let rep = repeat_of_exec(w4.as_slice());
    let date_at: Option<i64> = match date {
        Some((d, _, _)) => {
            if !crate::clock::in_range_exec(d) {
                return None;
            }
            Some(d as i64)
        },
        None => None,
    };
    let due_at: Option<i64> = match date_at {
        Some(d) => Some(
            match time {
                Some((h, m, _, _)) => apply_hm_exec(h, m, d, off),
                None => d,
            },
        ),
        None => match time {
            Some((h, m, _, _)) => Some(apply_hm_exec(h, m, start_of_day_exec(now, off), off)),
            None => None,
        },
    };
    let mut is_today = match date_at {
        Some(_) => {
            let d = due_at.unwrap();
            crate::clock::day_index_exec(d, off) == crate::clock::day_index_exec(now, off)
        },
        None => time.is_some(),
    };
    let today_word = chars_of("今天");
    if contains_exec(w4.as_slice(), today_word.as_slice()) {
        is_today = true;
    }
    let mut meta: Vec<(usize, usize)> = Vec::new();
    if let Some((_, s, e)) = date {
        meta.push((s, e));
    }
    if let Some((_, _, s, e)) = time {
        accept_range_exec(&mut meta, (s, e));
    }
    if let Some((_, s, e)) = rep {
        accept_range_exec(&mut meta, (s, e));
    }
    proof {
        let a1 = match date_of(w4@, now as int, off as int) {
            Some((_, s, e)) => seq![(s, e)],
            None => Seq::<(int, int)>::empty(),
        };
        if date is Some {
            assert(pairs(seq![(date.unwrap().1, date.unwrap().2)]) =~= a1);
        } else {
            assert(pairs(Seq::<(usize, usize)>::empty()) =~= a1);
        }
    }
    let rest = keep_outside_exec(w4.as_slice(), &meta);
    let rule = match rep {
        Some((r, _, _)) => Some(r),
        None => None,
    };
    Some((due_at, is_today, rule, rest))
}

/// Reads a quick-add text at instant `now` in a zone `offset_secs` seconds east of
/// UTC; `None` exactly where the reading cannot be done (see `parse_ok`).
fn read_input(
    raw_input: &str,
    fallback_priority: TaskPriority,
    now: i64,
    offset_secs: i32,
) -> (r: Option<ParsedTaskInput>)
    requires
        in_range(now as int),
        -86_400 < offset_secs < 86_400,
    ensures
        r is Some <==> parse_ok(raw_input@, now as int, offset_secs as int * 1000),
        r matches Some(p) ==> p@ == parse_spec(
            raw_input@,
            fallback_priority,
            now as int,
            offset_secs as int * 1000,
        ),
        r matches Some(p) ==> ((p.title@.len() == 0) == (trim(raw_input@).len() == 0)),
{
    let off: i64 = offset_secs as i64 * 1000;
    let raw = chars_of(raw_input);
    let (priority, tags, project_name, estimated_minutes, w4) = strip_marks(&raw, fallback_priority);
    let (due_at, is_today, repeat_rule, rest) = match read_when(&w4, now, off) {
        Some(x) => x,
        None => {
            return None;
        },
    };
    let title_chars = normalized_title_exec(rest.as_slice());
    proof {
        lemma_trim_blank(raw@);
        lemma_normalized_title_blank(raw@);
        if all_ws(raw@) {
            lemma_keep_outside_blank(w4@, meta_ranges(w4@, now as int, off as int));
            lemma_normalized_title_blank(rest@);
        }
    }
    let title = if title_chars.len() == 0 {
        crate::text::string_of(normalized_title_exec(raw.as_slice()).as_slice())
    } else {
        crate::text::string_of(title_chars.as_slice())
    };
    let r = ParsedTaskInput {
        title,
        priority,
        due_at,
        reminder_at: due_at,
        repeat_rule,
        tags,
        project_name,
        estimated_minutes,
        is_today,
    };
    proof {
        let pv = parse_spec(raw@, fallback_priority, now as int, off as int);
        let p0 = parse_spec(raw@, fallback_priority, 0, 0);
        assert(pv.tags == p0.tags);
        assert(pv.priority == p0.priority);
        assert(pv.project_name == p0.project_name);
        assert(pv.estimated_minutes == p0.estimated_minutes);
        assert(r@ == pv);
    }
    Some(r)
}

/// Reads a quick-add text at instant `now` in a zone `offset_secs` seconds east of UTC.
pub fn parse_with_offset(
    raw_input: &str,
    fallback_priority: TaskPriority,
    now: i64,
    offset_secs: i32,
) -> (r: ParsedTaskInput)
    requires
        in_range(now as int),
        -86_400 < offset_secs < 86_400,
        parse_ok(raw_input@, now as int, offset_secs as int * 1000),
    ensures
        r@ == parse_spec(raw_input@, fallback_priority, now as int, offset_secs as int * 1000),
        (r.title@.len() == 0) == (trim(raw_input@).len() == 0),
{
    read_input(raw_input, fallback_priority, now, offset_secs).unwrap()
}

/// `parse_with_offset` where the reading can be done; `None` exactly where it cannot
/// (the named date leaves chrono's range).
pub fn try_parse_with_offset(
    raw_input: &str,
    fallback_priority: TaskPriority,
    now: i64,
    offset_secs: i32,
) -> (r: Option<ParsedTaskInput>)
    requires
        in_range(now as int),
        -86_400 < offset_secs < 86_400,
    ensures
        r is Some <==> parse_ok(raw_input@, now as int, offset_secs as int * 1000),
        r matches Some(p) ==> p@ == parse_spec(
            raw_input@,
            fallback_priority,
            now as int,
            offset_secs as int * 1000,
        ),
        r matches Some(p) ==> ((p.title@.len() == 0) == (trim(raw_input@).len() == 0)),
{
    if read_input(raw_input, fallback_priority, now, offset_secs).is_some() {
        Some(parse_with_offset(raw_input, fallback_priority, now, offset_secs))
    } else {
        None
    }
}

/// Reads a quick-add text at instant `now` in the machine's local time zone; `None`
/// where the reading cannot be done.
pub fn parse(raw_input: &str, fallback_priority: TaskPriority, now: i64) -> (r: Option<ParsedTaskInput>)
    requires
        in_range(now as int),
    ensures
        exists|off: int|
            #![trigger parse_spec(raw_input@, fallback_priority, now as int, off)]
            -86_400_000 < off < 86_400_000 && (r is Some <==> parse_ok(raw_input@, now as int, off))
                && (r matches Some(p) ==> p@ == parse_spec(raw_input@, fallback_priority, now as int, off)),
        r matches Some(p) ==> ((p.title@.len() == 0) == (trim(raw_input@).len() == 0)),
{
    let offset = crate::clock::local_offset_secs(now);
    let r = try_parse_with_offset(raw_input, fallback_priority, now, offset);
    proof {
        let off = offset as int * 1000;
        assert(-86_400_000 < off < 86_400_000);
        let _ = parse_spec(raw_input@, fallback_priority, now as int, off);
    }
    r
}

} // verus!
