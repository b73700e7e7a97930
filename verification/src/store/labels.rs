//! Tag and project lists across all tasks.

use super::order::{lex, rank_int};
use super::TaskStore;
use crate::models::TaskView;
use crate::text::{lower_text, texts, trim};
use vstd::prelude::*;

verus! {

/// Code-point order of two texts (`str` ordering), -1, 0 or 1.
pub open spec fn text_rank(a: Seq<char>, b: Seq<char>) -> int
    decreases a.len(),
{
    if a.len() == 0 {
        if b.len() == 0 {
            0
        } else {
            -1
        }
    } else if b.len() == 0 {
        1
    } else if a[0] != b[0] {
        if a[0] < b[0] {
            -1
        } else {
            1
        }
    } else {
        text_rank(a.drop_first(), b.drop_first())
    }
}

pub fn text_rank_exec(a: &[char], b: &[char]) -> (r: i8)
    ensures
        r == text_rank(a@, b@),
{
    let mut i: usize = 0;
    proof {
        assert(a@.skip(0) =~= a@);
        assert(b@.skip(0) =~= b@);
    }
    while i < a.len() && i < b.len() && a[i] == b[i]
        invariant
            i <= a@.len(),
            i <= b@.len(),
            text_rank(a@, b@) == text_rank(a@.skip(i as int), b@.skip(i as int)),
        decreases a.len() - i,
    {
        proof {
            assert(a@.skip(i as int).drop_first() =~= a@.skip(i + 1));
            assert(b@.skip(i as int).drop_first() =~= b@.skip(i + 1));
        }
        i = i + 1;
    }
    proof {
        let x = a@.skip(i as int);
        let y = b@.skip(i as int);
        assert(x.len() == a@.len() - i);
        assert(y.len() == b@.len() - i);
        if i < a.len() && i < b.len() {
            assert(x[0] == a@[i as int]);
            assert(y[0] == b@[i as int]);
        }
    }
    let ghost x = a@.skip(i as int);
    let ghost y = b@.skip(i as int);
    if i == a.len() {
        if i == b.len() {
            proof {
                assert(text_rank(x, y) == 0);
            }
            0
        } else {
            proof {
                assert(text_rank(x, y) == -1);
            }
            -1
        }
    } else if i == b.len() {
        proof {
            assert(text_rank(x, y) == 1);
        }
        1
    } else {
        proof {
            assert(x[0] == a@[i as int]);
            assert(y[0] == b@[i as int]);
            assert(x[0] != y[0]);
        }
        if a[i] < b[i] {
            -1
        } else {
            1
        }
    }
}

/// A label with its sort key (its lower-cased text) and how often it occurs.
pub struct LabelEntry {
    pub label: String,
    pub key: String,
    pub count: usize,
}

pub struct LabelView {
    pub label: Seq<char>,
    pub key: Seq<char>,
    pub count: int,
}

impl View for LabelEntry {
    type V = LabelView;

    open spec fn view(&self) -> LabelView {
        LabelView { label: self.label@, key: self.key@, count: self.count as int }
    }
}

pub open spec fn label_views(v: Seq<LabelEntry>) -> Seq<LabelView> {
    v.map_values(|e: LabelEntry| e@)
}

/// Most frequent first, then by key.
pub open spec fn label_rank(a: LabelView, b: LabelView) -> int {
    lex(rank_int(b.count, a.count), text_rank(a.key, b.key))
}

pub open spec fn label_ins(s: Seq<LabelView>, x: LabelView, n: int) -> int
    decreases n,
{
    if n <= 0 {
        0
    } else if label_rank(x, s[n - 1]) < 0 {
        label_ins(s, x, n - 1)
    } else {
        n
    }
}

/// Stable insertion sort of labels.
pub open spec fn label_sort(s: Seq<LabelView>) -> Seq<LabelView>
    decreases s.len(),
{
    if s.len() == 0 {
        seq![]
    } else {
        let r = label_sort(s.drop_last());
        r.insert(label_ins(r, s.last(), r.len() as int), s.last())
    }
}

proof fn lemma_label_ins_bound(s: Seq<LabelView>, x: LabelView, n: int)
    requires
        0 <= n,
    ensures
        0 <= label_ins(s, x, n) <= n,
    decreases n,
{
    if n > 0 && label_rank(x, s[n - 1]) < 0 {
        lemma_label_ins_bound(s, x, n - 1);
    }
}

proof fn lemma_label_sort_len(s: Seq<LabelView>)
    ensures
        label_sort(s).len() == s.len(),
    decreases s.len(),
{
    if s.len() > 0 {
        lemma_label_sort_len(s.drop_last());
        let r = label_sort(s.drop_last());
        lemma_label_ins_bound(r, s.last(), r.len() as int);
    }
}

fn label_rank_exec(a: &LabelEntry, b: &LabelEntry) -> (r: i8)
    ensures
        r == label_rank(a@, b@),
{
    let c: i8 = if b.count < a.count {
        -1
    } else if b.count == a.count {
        0
    } else {
        1
    };
    if c != 0 {
        c
    } else {
        let ka = crate::text::chars_of(a.key.as_str());
        let kb = crate::text::chars_of(b.key.as_str());
        text_rank_exec(ka.as_slice(), kb.as_slice())
    }
}

fn sort_labels(v: Vec<LabelEntry>) -> (r: Vec<LabelEntry>)
    ensures
        label_views(r@) == label_sort(label_views(v@)),
{
    let mut r: Vec<LabelEntry> = Vec::new();
    let mut i: usize = 0;
    while i < v.len()
        invariant
            i <= v@.len(),
            label_views(r@) == label_sort(label_views(v@).take(i as int)),
        decreases v.len() - i,
    {
        let x = LabelEntry {
            label: String::from_str(v[i].label.as_str()),
            key: String::from_str(v[i].key.as_str()),
            count: v[i].count,
        };
        proof {
            lemma_label_sort_len(label_views(v@).take(i as int));
        }
        let n = r.len();
        let mut j = n;
        while j > 0 && label_rank_exec(&x, &r[j - 1]) < 0
            invariant
                j <= n,
                n == r@.len(),
                label_ins(label_views(r@), x@, j as int) == label_ins(label_views(r@), x@, n as int),
            decreases j,
        {
            j = j - 1;
        }
        let ghost before = r@;
        r.insert(j, x);
        proof {
            let s = label_views(v@).take(i + 1);
            assert(s.drop_last() =~= label_views(v@).take(i as int));
            assert(s.last() == v@[i as int]@);
            assert(label_views(r@) =~= label_views(before).insert(j as int, x@));
        }
        i = i + 1;
    }
    proof {
        assert(label_views(v@).take(v@.len() as int) =~= label_views(v@));
    }
    r
}

/// Every tag of every task, in list order.
pub open spec fn all_tag_texts(s: Seq<TaskView>) -> Seq<Seq<char>>
    decreases s.len(),
{
    if s.len() == 0 {
        seq![]
    } else {
        all_tag_texts(s.drop_last()) + s.last().tags()
    }
}

/// Distinct tags in order of first appearance, each with its number of occurrences.
pub open spec fn tally_tags(tags: Seq<Seq<char>>) -> Seq<(Seq<char>, int)>
    decreases tags.len(),
{
    if tags.len() == 0 {
        seq![]
    } else {
        let r = tally_tags(tags.drop_last());
        let t = tags.last();
        if exists|k: int| 0 <= k < r.len() && r[k].0 == t {
            let k = choose|k: int| 0 <= k < r.len() && r[k].0 == t;
            r.update(k, (t, r[k].1 + 1))
        } else {
            r.push((t, 1))
        }
    }
}

pub open spec fn entries_of(t: Seq<(Seq<char>, int)>) -> Seq<LabelView> {
    Seq::new(t.len(), |k: int| LabelView { label: t[k].0, key: lower_text(t[k].0), count: t[k].1 })
}

pub open spec fn labels_of(s: Seq<LabelView>) -> Seq<Seq<char>> {
    s.map_values(|e: LabelView| e.label)
}

/// Tags by how many tasks use them (most first), then by lower-cased text; tags
/// that tie on both keep the order in which they first appear.
pub open spec fn tag_suggestions(s: Seq<TaskView>) -> Seq<Seq<char>> {
    labels_of(label_sort(entries_of(tally_tags(all_tag_texts(s)))))
}

/// Trimmed, non-blank project names, in list order.
pub open spec fn project_names(s: Seq<TaskView>) -> Seq<Seq<char>>
    decreases s.len(),
{
    if s.len() == 0 {
        seq![]
    } else {
        let r = project_names(s.drop_last());
        match s.last().project_name {
            Some(p) => if trim(p).len() > 0 {
                r.push(trim(p))
            } else {
                r
            },
            None => r,
        }
    }
}

/// Adjacent equal names collapse into one (`Vec::dedup`).
pub open spec fn dedup(s: Seq<Seq<char>>) -> Seq<Seq<char>>
    decreases s.len(),
{
    if s.len() == 0 {
        seq![]
    } else {
        let r = dedup(s.drop_last());
        if s.len() >= 2 && s[s.len() - 2] == s.last() {
            r
        } else {
            r.push(s.last())
        }
    }
}

/// Project names sorted by lower-cased text (stable), adjacent duplicates removed.
pub open spec fn project_list(s: Seq<TaskView>) -> Seq<Seq<char>> {
    let names = project_names(s);
    dedup(
        labels_of(
            label_sort(
                Seq::new(
                    names.len(),
                    |k: int| LabelView { label: names[k], key: lower_text(names[k]), count: 0 },
                ),
            ),
        ),
    )
}

fn labels_exec(v: &Vec<LabelEntry>) -> (r: Vec<String>)
    ensures
        texts(r@) == labels_of(label_views(v@)),
{
    let mut r: Vec<String> = Vec::new();
    let mut i: usize = 0;
    while i < v.len()
        invariant
            i <= v@.len(),
            texts(r@) == labels_of(label_views(v@)).take(i as int),
        decreases v.len() - i,
    {
        let s = String::from_str(v[i].label.as_str());
        let ghost before = r@;
        r.push(s);
        proof {
            assert(texts(r@) =~= texts(before).push(s@));
            assert(labels_of(label_views(v@)).take(i + 1) =~= labels_of(label_views(v@)).take(
                i as int,
            ).push(v@[i as int].label@));
        }
        i = i + 1;
    }
    proof {
        assert(labels_of(label_views(v@)).take(v@.len() as int) =~= labels_of(label_views(v@)));
    }
    r
}

fn dedup_exec(v: &Vec<String>) -> (r: Vec<String>)
    ensures
        texts(r@) == dedup(texts(v@)),
{
    let mut r: Vec<String> = Vec::new();
    let mut i: usize = 0;
    while i < v.len()
        invariant
            i <= v@.len(),
            texts(r@) == dedup(texts(v@).take(i as int)),
        decreases v.len() - i,
    {
        proof {
            let s = texts(v@).take(i + 1);
            assert(s.drop_last() =~= texts(v@).take(i as int));
        }
        let same = i >= 1 && v[i - 1] == v[i];
        if !same {
            let s = String::from_str(v[i].as_str());
            let ghost before = r@;
            r.push(s);
            proof {
                assert(texts(r@) =~= texts(before).push(s@));
            }
        }
        i = i + 1;
    }
    proof {
        assert(texts(v@).take(v@.len() as int) =~= texts(v@));
    }
    r
}

impl TaskStore {
    fn tag_texts(&self) -> (r: Vec<String>)
        ensures
            texts(r@) == all_tag_texts(self@.tasks),
    {
        let mut r: Vec<String> = Vec::new();
        let mut i: usize = 0;
        while i < self.tasks.len()
            invariant
                i <= self.tasks@.len(),
                texts(r@) == all_tag_texts(self@.tasks.take(i as int)),
            decreases self.tasks.len() - i,
        {
            proof {
                let s = self@.tasks.take(i + 1);
                assert(s.drop_last() =~= self@.tasks.take(i as int));
            }
            let tags = self.tasks[i].tags();
            let mut k: usize = 0;
            let ghost base = texts(r@);
            while k < tags.len()
                invariant
                    k <= tags@.len(),
                    texts(r@) == base + texts(tags@).take(k as int),
                decreases tags.len() - k,
            {
                let s = String::from_str(tags[k].as_str());
                let ghost before = r@;
                r.push(s);
                proof {
                    assert(texts(r@) =~= texts(before).push(s@));
                    assert(texts(tags@).take(k + 1) =~= texts(tags@).take(k as int).push(tags@[k as int]@));
                    assert(base + texts(tags@).take(k + 1) =~= (base + texts(tags@).take(k as int)).push(tags@[k as int]@));
                }
                k = k + 1;
            }
            proof {
                assert(texts(tags@).take(tags@.len() as int) =~= texts(tags@));
            }
            i = i + 1;
        }
        proof {
            assert(self@.tasks.take(self@.tasks.len() as int) =~= self@.tasks);
        }
        r
    }

    /// Tags by use, most used first, then by lower-cased text.
    pub fn all_tag_suggestions(&self) -> (r: Vec<String>)
        ensures
            texts(r@) == tag_suggestions(self@.tasks),
    {
        let all = self.tag_texts();
        let ghost tv = texts(all@);
        let mut entries: Vec<LabelEntry> = Vec::new();
        let mut i: usize = 0;
        while i < all.len()
            invariant
                i <= all@.len(),
                tv == texts(all@),
                entries@.len() == tally_tags(tv.take(i as int)).len(),
                forall|k: int|
                    0 <= k < entries@.len() ==> entries@[k].label@ == tally_tags(tv.take(i as int))[k].0
                        && entries@[k].count as int == tally_tags(tv.take(i as int))[k].1
                        && entries@[k].key@ == lower_text(entries@[k].label@),
                forall|k: int| 0 <= k < entries@.len() ==> entries@[k].count <= i,
            decreases all.len() - i,
        {
            proof {
                let s = tv.take(i + 1);
                assert(s.drop_last() =~= tv.take(i as int));
                assert(s.last() == all@[i as int]@);
            }
            let ghost t = tally_tags(tv.take(i as int));
            let ghost name = all@[i as int]@;
            let ghost prev = entries@;
            let mut k: usize = 0;
            while k < entries.len() && entries[k].label != all[i]
                invariant
                    i < all@.len(),
                    k <= entries@.len(),
                    forall|j: int| 0 <= j < k ==> entries@[j].label@ != all@[i as int]@,
                decreases entries.len() - k,
            {
                k = k + 1;
            }
            if k < entries.len() {
                proof {
                    assert(t[k as int].0 == name);
                    lemma_tally_distinct(tv.take(i as int));
                    let c = choose|c: int| 0 <= c < t.len() && t[c].0 == name;
                    if c != k {
                        if c < k {
                            assert(t[c].0 != t[k as int].0);
                        } else {
                            assert(t[k as int].0 != t[c].0);
                        }
                    }
                    assert(tally_tags(tv.take(i + 1)) == t.update(k as int, (name, t[k as int].1 + 1)));
                }
                let c = entries[k].count + 1;
                entries[k].count = c;
                proof {
                    let u = tally_tags(tv.take(i + 1));
                    assert forall|j: int| 0 <= j < entries@.len() implies entries@[j].label@ == u[j].0
                        && entries@[j].count as int == u[j].1 && entries@[j].key@ == lower_text(
                        entries@[j].label@,
                    ) by {
                        if j != k {
                            assert(entries@[j] == prev[j]);
                        }
                    }
                }
            } else {
                proof {
                    assert forall|c: int| 0 <= c < t.len() implies t[c].0 != name by {
                        assert(entries@[c].label@ != all@[i as int]@);
                    }
                    assert(tally_tags(tv.take(i + 1)) == t.push((name, 1)));
                }
                let label = String::from_str(all[i].as_str());
                let key = crate::text::to_lower(all[i].as_str());
                entries.push(LabelEntry { label, key, count: 1 });
                proof {
                    let u = tally_tags(tv.take(i + 1));
                    assert forall|j: int| 0 <= j < entries@.len() implies entries@[j].label@ == u[j].0
                        && entries@[j].count as int == u[j].1 && entries@[j].key@ == lower_text(
                        entries@[j].label@,
                    ) by {
                        if j < prev.len() {
                            assert(entries@[j] == prev[j]);
                        }
                    }
                }
            }
            i = i + 1;
        }
        proof {
            assert(tv.take(all@.len() as int) =~= tv);
            assert(label_views(entries@) =~= entries_of(tally_tags(tv)));
        }
        let sorted = sort_labels(entries);
        labels_exec(&sorted)
    }

    /// The ten most used tags (see `all_tag_suggestions`).
    pub fn all_tags(&self) -> (r: Vec<String>)
        ensures
            texts(r@) == (if tag_suggestions(self@.tasks).len() > 10 {
                tag_suggestions(self@.tasks).take(10)
            } else {
                tag_suggestions(self@.tasks)
            }),
    {
        let mut tags = self.all_tag_suggestions();
        let ghost before = tags@;
        tags.truncate(10);
        proof {
            if before.len() > 10 {
                assert(texts(tags@) =~= texts(before).take(10));
            }
        }
        tags
    }

    /// Project names, sorted by lower-cased text, without adjacent duplicates.
    pub fn all_projects(&self) -> (r: Vec<String>)
        ensures
            texts(r@) == project_list(self@.tasks),
    {
        let mut entries: Vec<LabelEntry> = Vec::new();
        let mut i: usize = 0;
        while i < self.tasks.len()
            invariant
                i <= self.tasks@.len(),
                label_views(entries@) == ({
                    let names = project_names(self@.tasks.take(i as int));
                    Seq::new(
                        names.len(),
                        |k: int| LabelView { label: names[k], key: lower_text(names[k]), count: 0 },
                    )
                }),
            decreases self.tasks.len() - i,
        {
            proof {
                let s = self@.tasks.take(i + 1);
                assert(s.drop_last() =~= self@.tasks.take(i as int));
            }
            match &self.tasks[i].project_name {
                Some(p) => {
                    let t = crate::text::trimmed(p.as_str());
                    if crate::text::chars_of(t.as_str()).len() > 0 {
                        let key = crate::text::to_lower(t.as_str());
                        let ghost before = entries@;
                        let e = LabelEntry { label: t, key, count: 0 };
                        entries.push(e);
                        proof {
                            assert(label_views(entries@) =~= label_views(before).push(e@));
                        }
                    }
                },
                None => {},
            }
            proof {
                let names = project_names(self@.tasks.take(i + 1));
                assert(label_views(entries@) =~= Seq::new(
                    names.len(),
                    |k: int| LabelView { label: names[k], key: lower_text(names[k]), count: 0 },
                ));
            }
            i = i + 1;
        }
        proof {
            assert(self@.tasks.take(self@.tasks.len() as int) =~= self@.tasks);
        }
        let sorted = sort_labels(entries);
        let names = labels_exec(&sorted);
        dedup_exec(&names)
    }
}

/// No tag appears twice in a tally.
pub proof fn lemma_tally_distinct(tags: Seq<Seq<char>>)
    ensures
        forall|a: int, b: int|
            0 <= a < b < tally_tags(tags).len() ==> tally_tags(tags)[a].0 != tally_tags(tags)[b].0,
    decreases tags.len(),
{
    if tags.len() > 0 {
        lemma_tally_distinct(tags.drop_last());
        let r = tally_tags(tags.drop_last());
        let t = tags.last();
        let u = tally_tags(tags);
        if exists|k: int| 0 <= k < r.len() && r[k].0 == t {
            let k = choose|k: int| 0 <= k < r.len() && r[k].0 == t;
            assert(u == r.update(k, (t, r[k].1 + 1)));
            assert forall|a: int, b: int| 0 <= a < b < u.len() implies u[a].0 != u[b].0 by {
                assert(r[a].0 != r[b].0);
            }
        } else {
            assert(u == r.push((t, 1)));
            assert forall|a: int, b: int| 0 <= a < b < u.len() implies u[a].0 != u[b].0 by {
                if b < r.len() {
                    assert(r[a].0 != r[b].0);
                } else {
                    assert(r[a].0 != t);
                }
            }
        }
    }
}

} // verus!
