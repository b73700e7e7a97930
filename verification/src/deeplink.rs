//! `taskcap://` links: what a link asks for, and what the application does for it.
//! Reading the URL itself is left to the `url` crate.

use crate::models::TaskPriority;
use crate::store::queries::{current_of, first, incomplete};
use crate::store::TaskStore;
use crate::text::{lower_text, trim};
use vstd::prelude::*;

verus! {

/// The parts of a URL that links are read from: scheme, host, path and the
/// decoded query pairs in order.
pub struct UrlParts {
    pub scheme: String,
    pub host: Option<String>,
    pub path: String,
    pub query: Vec<(String, String)>,
}

pub struct UrlPartsView {
    pub scheme: Seq<char>,
    pub host: Option<Seq<char>>,
    pub path: Seq<char>,
    pub query: Seq<(Seq<char>, Seq<char>)>,
}

impl View for UrlParts {
    type V = UrlPartsView;

    open spec fn view(&self) -> UrlPartsView {
        UrlPartsView {
            scheme: self.scheme@,
            host: crate::models::opt_text(self.host),
            path: self.path@,
            query: crate::csv::pairs_view(self.query@),
        }
    }
}

pub open spec fn url_result_view(r: Result<UrlParts, String>) -> Result<UrlPartsView, Seq<char>> {
    match r {
        Ok(p) => Ok(p@),
        Err(e) => Err(e@),
    }
}

/// What `url::Url::parse` makes of a text: its parts, or the text of its error.
pub uninterp spec fn url_reading(raw: Seq<char>) -> Result<UrlPartsView, Seq<char>>;

/// Calls `url::Url::parse` and reads `scheme`, `host_str`, `path` and `query_pairs`
/// of the result; both outcomes are named by `url_reading`.
#[verifier::external_body]
fn read_url(raw: &str) -> (r: Result<UrlParts, String>)
    ensures
        url_result_view(r) == url_reading(raw@),
{
    match url::Url::parse(raw) {
        Ok(u) => Ok(UrlParts {
            scheme: u.scheme().to_string(),
            host: u.host_str().map(|h| h.to_string()),
            path: u.path().to_string(),
            query: u.query_pairs().map(|(k, v)| (k.to_string(), v.to_string())).collect(),
        }),
        Err(e) => Err(e.to_string()),
    }
}

pub enum DeepLinkAction {
    Add { title: String, notes: String, priority: TaskPriority },
    Focus,
    Complete,
    Show,
}

pub enum ActionView {
    Add { title: Seq<char>, notes: Seq<char>, priority: TaskPriority },
    Focus,
    Complete,
    Show,
}

impl View for DeepLinkAction {
    type V = ActionView;

    open spec fn view(&self) -> ActionView {
        match self {
            DeepLinkAction::Add { title, notes, priority } => ActionView::Add {
                title: title@,
                notes: notes@,
                priority: *priority,
            },
            DeepLinkAction::Focus => ActionView::Focus,
            DeepLinkAction::Complete => ActionView::Complete,
            DeepLinkAction::Show => ActionView::Show,
        }
    }
}

/// The priority a link names (lower-cased): high, p1, 高 or 0 is high; low, p3, 低
/// or 2 is low; anything else medium.
pub open spec fn priority_word(n: Seq<char>) -> TaskPriority {
    if n == "high"@ || n == "p1"@ || n == "高"@ || n == "0"@ {
        TaskPriority::High
    } else if n == "low"@ || n == "p3"@ || n == "低"@ || n == "2"@ {
        TaskPriority::Low
    } else {
        TaskPriority::Medium
    }
}

fn is_text(a: &String, b: &str) -> (r: bool)
    ensures
        r == (a@ == b@),
{
    *a == String::from_str(b)
}

pub fn parse_priority(raw: &str) -> (r: TaskPriority)
    ensures
        r == priority_word(lower_text(raw@)),
{
    let n = crate::text::to_lower(raw);
    if is_text(&n, "high") || is_text(&n, "p1") || is_text(&n, "高") || is_text(&n, "0") {
        TaskPriority::High
    } else if is_text(&n, "low") || is_text(&n, "p3") || is_text(&n, "低") || is_text(&n, "2") {
        TaskPriority::Low
    } else {
        TaskPriority::Medium
    }
}

pub open spec fn lead_slashes(s: Seq<char>) -> nat
    decreases s.len(),
{
    if s.len() > 0 && s[0] == '/' {
        1 + lead_slashes(s.drop_first())
    } else {
        0
    }
}

pub open spec fn trail_slashes(s: Seq<char>) -> nat
    decreases s.len(),
{
    if s.len() > 0 && s.last() == '/' {
        1 + trail_slashes(s.drop_last())
    } else {
        0
    }
}

/// `str::trim_matches('/')`.
pub open spec fn strip_slashes(s: Seq<char>) -> Seq<char> {
    let a = s.subrange(lead_slashes(s) as int, s.len() as int);
    a.subrange(0, a.len() - trail_slashes(a))
}

proof fn lemma_lead_slashes(s: Seq<char>)
    ensures
        lead_slashes(s) <= s.len(),
        forall|k: int| 0 <= k < lead_slashes(s) ==> s[k] == '/',
        lead_slashes(s) < s.len() ==> s[lead_slashes(s) as int] != '/',
    decreases s.len(),
{
    if s.len() > 0 && s[0] == '/' {
        lemma_lead_slashes(s.drop_first());
        assert forall|k: int| 0 <= k < lead_slashes(s) implies s[k] == '/' by {
            if k > 0 {
                assert(s.drop_first()[k - 1] == s[k]);
            }
        }
    }
}

proof fn lemma_trail_slashes(s: Seq<char>)
    ensures
        trail_slashes(s) <= s.len(),
        forall|k: int| s.len() - trail_slashes(s) <= k < s.len() ==> s[k] == '/',
        trail_slashes(s) < s.len() ==> s[s.len() - 1 - trail_slashes(s)] != '/',
    decreases s.len(),
{
    if s.len() > 0 && s.last() == '/' {
        lemma_trail_slashes(s.drop_last());
        assert forall|k: int| s.len() - trail_slashes(s) <= k < s.len() implies s[k] == '/' by {
            if k < s.len() - 1 {
                assert(s.drop_last()[k] == s[k]);
            }
        }
    }
}

fn strip_slashes_exec(s: &[char]) -> (r: Vec<char>)
    ensures
        r@ == strip_slashes(s@),
{
    proof {
        lemma_lead_slashes(s@);
    }
    let mut a: usize = 0;
    while a < s.len() && s[a] == '/'
        invariant
            a <= s@.len(),
            a <= lead_slashes(s@),
            lead_slashes(s@) <= s@.len(),
            lead_slashes(s@) < s@.len() ==> s@[lead_slashes(s@) as int] != '/',
            forall|k: int| 0 <= k < a ==> s@[k] == '/',
        decreases s.len() - a,
    {
        a = a + 1;
    }
    proof {
        if a < lead_slashes(s@) {
            assert(s@[a as int] == '/');
        }
        assert(a == lead_slashes(s@));
    }
    let ghost rest = s@.subrange(a as int, s@.len() as int);
    proof {
        lemma_trail_slashes(rest);
    }
    let mut b: usize = s.len();
    while b > a && s[b - 1] == '/'
        invariant
            a <= b <= s@.len(),
            rest == s@.subrange(a as int, s@.len() as int),
            s@.len() - b <= trail_slashes(rest),
            trail_slashes(rest) <= rest.len(),
            trail_slashes(rest) < rest.len() ==> rest[rest.len() - 1 - trail_slashes(rest)] != '/',
            forall|k: int| b <= k < s@.len() ==> s@[k] == '/',
        decreases b,
    {
        proof {
            assert(rest[b - 1 - a] == s@[b - 1]);
        }
        b = b - 1;
    }
    proof {
        if s@.len() - b < trail_slashes(rest) {
            assert(rest[rest.len() - 1 - (s@.len() - b)] == '/');
            assert(rest[b - 1 - a] == s@[b - 1]);
        }
        assert(s@.len() - b == trail_slashes(rest));
    }
    let r = crate::text::slice_to_vec(s, a, b);
    proof {
        assert(r@ =~= strip_slashes(s@));
    }
    r
}

/// The action a link names: its host lower-cased, else its path without leading
/// and trailing slashes, lower-cased; none when both are empty.
pub open spec fn action_name(v: UrlPartsView) -> Option<Seq<char>> {
    let from_host = match v.host {
        Some(h) => if lower_text(h).len() > 0 {
            Some(lower_text(h))
        } else {
            None
        },
        None => None,
    };
    match from_host {
        Some(a) => Some(a),
        None => if strip_slashes(v.path).len() == 0 {
            None
        } else {
            Some(lower_text(strip_slashes(v.path)))
        },
    }
}

/// The value of the first query pair named `key`.
pub open spec fn query_value(q: Seq<(Seq<char>, Seq<char>)>, key: Seq<char>) -> Option<Seq<char>>
    decreases q.len(),
{
    if q.len() == 0 {
        None
    } else if q[0].0 == key {
        Some(q[0].1)
    } else {
        query_value(q.drop_first(), key)
    }
}

/// What a read link asks for, or why it cannot be acted on.
pub open spec fn action_spec(v: UrlPartsView) -> Result<ActionView, Seq<char>> {
    if v.scheme != "taskcap"@ {
        Err("unsupported url scheme"@)
    } else {
        match action_name(v) {
            None => Err("missing action"@),
            Some(a) => if a == "add"@ || a == "new"@ {
                Ok(
                    ActionView::Add {
                        title: crate::models::text_or_empty(query_value(v.query, "title"@)),
                        notes: crate::models::text_or_empty(query_value(v.query, "notes"@)),
                        priority: match query_value(v.query, "priority"@) {
                            Some(p) => priority_word(lower_text(p)),
                            None => TaskPriority::Medium,
                        },
                    },
                )
            } else if a == "focus"@ || a == "start"@ {
                Ok(ActionView::Focus)
            } else if a == "complete"@ || a == "done"@ {
                Ok(ActionView::Complete)
            } else if a == "show"@ {
                Ok(ActionView::Show)
            } else {
                Err("unknown action: "@ + a)
            },
        }
    }
}

pub open spec fn action_result_view(r: Result<DeepLinkAction, String>) -> Result<ActionView, Seq<char>> {
    match r {
        Ok(a) => Ok(a@),
        Err(e) => Err(e@),
    }
}

fn query_lookup(q: &Vec<(String, String)>, key: &str) -> (r: Option<String>)
    ensures
        crate::models::opt_text(r) == query_value(crate::csv::pairs_view(q@), key@),
{
    let ghost qv = crate::csv::pairs_view(q@);
    let mut i: usize = 0;
    proof {
        assert(qv.skip(0) =~= qv);
    }
    while i < q.len()
        invariant
            i <= q@.len(),
            qv == crate::csv::pairs_view(q@),
            query_value(qv, key@) == query_value(qv.skip(i as int), key@),
        decreases q.len() - i,
    {
        proof {
            assert(qv.skip(i as int)[0] == (q@[i as int].0@, q@[i as int].1@));
            assert(qv.skip(i as int).drop_first() =~= qv.skip(i + 1));
        }
        if is_text(&q[i].0, key) {
            return Some(String::from_str(q[i].1.as_str()));
        }
        i = i + 1;
    }
    None
}

/// What a read link asks for (see `action_spec`).
pub fn action_from_url(parts: &UrlParts) -> (r: Result<DeepLinkAction, String>)
    ensures
        action_result_view(r) == action_spec(parts@),
{
    if !is_text(&parts.scheme, "taskcap") {
        return Err(String::from_str("unsupported url scheme"));
    }
    let from_host = match &parts.host {
        Some(h) => {
            let l = crate::text::to_lower(h.as_str());
            if crate::text::chars_of(l.as_str()).len() > 0 {
                Some(l)
            } else {
                None
            }
        },
        None => None,
    };
    let action = match from_host {
        Some(a) => a,
        None => {
            let p = strip_slashes_exec(crate::text::chars_of(parts.path.as_str()).as_slice());
            if p.len() == 0 {
                return Err(String::from_str("missing action"));
            }
            crate::text::to_lower(crate::text::string_of(p.as_slice()).as_str())
        },
    };
    if is_text(&action, "add") || is_text(&action, "new") {
        let title = match query_lookup(&parts.query, "title") {
            Some(t) => t,
            None => String::new(),
        };
        let notes = match query_lookup(&parts.query, "notes") {
            Some(t) => t,
            None => String::new(),
        };
        let priority = match query_lookup(&parts.query, "priority") {
            Some(p) => parse_priority(p.as_str()),
            None => TaskPriority::Medium,
        };
        Ok(DeepLinkAction::Add { title, notes, priority })
    } else if is_text(&action, "focus") || is_text(&action, "start") {
        Ok(DeepLinkAction::Focus)
    } else if is_text(&action, "complete") || is_text(&action, "done") {
        Ok(DeepLinkAction::Complete)
    } else if is_text(&action, "show") {
        Ok(DeepLinkAction::Show)
    } else {
        let mut msg = crate::text::chars_of("unknown action: ");
        let a = crate::text::chars_of(action.as_str());
        let mut k: usize = 0;
        let ghost base = msg@;
        while k < a.len()
            invariant
                k <= a@.len(),
                msg@ == base + a@.take(k as int),
            decreases a.len() - k,
        {
            msg.push(a[k]);
            proof {
                assert(a@.take(k + 1) =~= a@.take(k as int).push(a@[k as int]));
                assert(msg@ =~= base + a@.take(k + 1));
            }
            k = k + 1;
        }
        proof {
            assert(a@.take(a@.len() as int) =~= a@);
        }
        Err(crate::text::string_of(msg.as_slice()))
    }
}

/// Reads a `taskcap://` link: the URL's own error, or what the link asks for.
pub fn parse_taskcap_url(raw: &str) -> (r: Result<DeepLinkAction, String>)
    ensures
        action_result_view(r) == (match url_reading(raw@) {
            Ok(v) => action_spec(v),
            Err(e) => Err(e),
        }),
{
    match read_url(raw) {
        Ok(parts) => action_from_url(&parts),
        Err(e) => Err(e),
    }
}

/// What the application does for a link.
pub enum DeepLinkPlan {
    /// Open the quick-add window (an add link without a title).
    ShowQuickAdd,
    /// Add a task from quick-add text.
    AddTask { title: String, notes: String, priority: TaskPriority },
    /// Start focus on the task.
    StartFocus(u128),
    /// Complete the task.
    CompleteTask(u128),
    /// Show the main panel.
    ShowPanel,
    /// Nothing to do (no open task to act on).
    Nothing,
}

/// The task a focus or complete link acts on: the current task, else the first
/// open task.
pub open spec fn link_target(s: Seq<crate::models::TaskView>) -> Option<u128> {
    match current_of(s) {
        Some(t) => Some(t.id),
        None => match first(incomplete(s)) {
            Some(t) => Some(t.id),
            None => None,
        },
    }
}

impl TaskStore {
    /// The task a focus or complete link acts on (see `link_target`).
    pub fn link_target_id(&self) -> (r: Option<u128>)
        ensures
            r == link_target(self@.tasks),
    {
        match self.current_task() {
            Some(t) => Some(t.id),
            None => {
                let open = self.incomplete_tasks();
                if open.len() > 0 {
                    Some(open[0].id)
                } else {
                    None
                }
            },
        }
    }
}

/// What `handle_deep_link` does for an action, given the list.
pub fn deep_link_plan(store: &TaskStore, action: DeepLinkAction) -> (r: DeepLinkPlan)
    ensures
        match action@ {
            ActionView::Add { title, notes, priority } => if trim(title).len() == 0 {
                r is ShowQuickAdd
            } else {
                r matches DeepLinkPlan::AddTask { title: t, notes: n, priority: p } && t@ == title
                    && n@ == notes && p == priority
            },
            ActionView::Focus => match link_target(store@.tasks) {
                Some(id) => r == DeepLinkPlan::StartFocus(id),
                None => r is Nothing,
            },
            ActionView::Complete => match link_target(store@.tasks) {
                Some(id) => r == DeepLinkPlan::CompleteTask(id),
                None => r is Nothing,
            },
            ActionView::Show => r is ShowPanel,
        },
{
    match action {
        DeepLinkAction::Add { title, notes, priority } => {
            let t = crate::text::trim_vec(crate::text::chars_of(title.as_str()).as_slice());
            if t.len() == 0 {
                DeepLinkPlan::ShowQuickAdd
            } else {
                DeepLinkPlan::AddTask { title, notes, priority }
            }
        },
        DeepLinkAction::Focus => match store.link_target_id() {
            Some(id) => DeepLinkPlan::StartFocus(id),
            None => DeepLinkPlan::Nothing,
        },
        DeepLinkAction::Complete => match store.link_target_id() {
            Some(id) => DeepLinkPlan::CompleteTask(id),
            None => DeepLinkPlan::Nothing,
        },
        DeepLinkAction::Show => DeepLinkPlan::ShowPanel,
    }
}

} // verus!
