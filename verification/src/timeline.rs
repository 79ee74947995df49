//! The event log as it is read: filters, sessions and groups.
use crate::events::{opt_is, Event, EventAction, EventView};
use crate::filter::{
    cut, filtering_keeps_what_passes, keep, limit_keeps_the_front, limited, Test,
};
use crate::issue::contains_text;
use crate::sort::{
    inserted, is_total, is_transitive, sorting_keeps_each, sorting_orders, stable_sort,
    stable_sorted, Order,
};
use crate::text::{lemma_filter_push, same_text};
use crate::time::Timestamp;
use vstd::prelude::*;

verus! {

// --------------------------------------------------------------------- filters

/// Which events are asked for.
pub struct EventQuery {
    pub issue: Option<String>,
    pub session: Option<String>,
    pub user: Option<String>,
    pub action: Option<EventAction>,
    pub since: Option<Timestamp>,
    pub until: Option<Timestamp>,
    pub limit: Option<usize>,
}

/// `a` is no older than `b`.
pub open spec fn newer_first(a: EventView, b: EventView) -> bool {
    b.timestamp.le(a.timestamp)
}

/// `a` is no newer than `b`.
pub open spec fn older_first(a: EventView, b: EventView) -> bool {
    a.timestamp.le(b.timestamp)
}

impl EventQuery {
    /// Whether an event passes every filter.
    pub open spec fn admits(self, e: EventView) -> bool {
        &&& self.issue is Some ==> e.issue_id == self.issue->0@
        &&& self.session is Some ==> e.in_session(self.session->0@)
        &&& self.user is Some ==> e.user_id == Some(self.user->0@)
        &&& self.action is Some ==> e.action == self.action->0
        &&& self.since is Some ==> self.since->0.le(e.timestamp)
        &&& self.until is Some ==> e.timestamp.le(self.until->0)
    }

    /// The events that are asked for, newest first.
    pub open spec fn result(self, events: Seq<EventView>) -> Seq<EventView> {
        limited(
            stable_sorted(
                events.filter(|e: EventView| self.admits(e)),
                |a: EventView, b: EventView| newer_first(a, b),
            ),
            self.limit,
        )
    }

    /// A query that asks for everything.
    pub fn everything() -> (r: EventQuery)
        ensures
            forall|e: EventView| #[trigger] r.admits(e),
            r.limit is None,
    {
        EventQuery {
            issue: None,
            session: None,
            user: None,
            action: None,
            since: None,
            until: None,
            limit: None,
        }
    }
}

impl Test<Event> for EventQuery {
    open spec fn holds(&self, v: EventView) -> bool {
        self.admits(v)
    }

    fn test(&self, x: &Event) -> (r: bool) {
        match &self.issue {
            Some(id) => if !same_text(&x.issue_id, id) {
                return false;
            },
            None => {},
        }
        match &self.session {
            Some(s) => if !x.matches_session(s) {
                return false;
            },
            None => {},
        }
        match &self.user {
            Some(u) => if !opt_is(&x.user_id, u) {
                return false;
            },
            None => {},
        }
        match self.action {
            Some(a) => if x.action != a {
                return false;
            },
            None => {},
        }
        match &self.since {
            Some(t) => if !t.at_most(&x.timestamp) {
                return false;
            },
            None => {},
        }
        match &self.until {
            Some(t) => if !x.timestamp.at_most(t) {
                return false;
            },
            None => {},
        }
        true
    }
}

/// Events from the newest to the oldest.
pub struct NewestFirst;

/// Events from the oldest to the newest.
pub struct OldestFirst;

impl Order<Event> for NewestFirst {
    open spec fn le(&self, a: EventView, b: EventView) -> bool {
        newer_first(a, b)
    }

    proof fn lawful(&self) {
    }

    fn at_most(&self, a: &Event, b: &Event) -> (r: bool) {
        b.timestamp.at_most(&a.timestamp)
    }
}

impl<'a> Order<&'a Event> for OldestFirst {
    open spec fn le(&self, a: EventView, b: EventView) -> bool {
        older_first(a, b)
    }

    proof fn lawful(&self) {
    }

    fn at_most(&self, a: &&'a Event, b: &&'a Event) -> (r: bool) {
        a.timestamp.at_most(&b.timestamp)
    }
}

/// The events that are asked for, newest first.
pub fn filter_events(events: Vec<Event>, query: &EventQuery) -> (r: Vec<Event>)
    ensures
        r.deep_view() == query.result(events.deep_view()),
{
    let kept = keep(events, query);
    assert((|v: EventView| <EventQuery as Test<Event>>::holds(query, v)) =~= (|e: EventView|
        query.admits(e)));
    let sorted = stable_sort(kept, &NewestFirst);
    assert((|a: EventView, b: EventView| newer_first(a, b)) =~= (|a: EventView, b: EventView|
        <NewestFirst as Order<Event>>::le(&NewestFirst, a, b)));
    cut(sorted, query.limit)
}

/// Every event that is shown passes the filters and is in the log; they run from the newest
/// to the oldest, and there are no more than the limit says.
pub proof fn shown_events_match(query: EventQuery, events: Seq<EventView>)
    ensures
        forall|k: int|
            0 <= k < query.result(events).len() ==> query.admits(
                #[trigger] query.result(events)[k],
            ) && events.contains(query.result(events)[k]),
        forall|i: int, j: int|
            0 <= i < j < query.result(events).len() ==> newer_first(
                #[trigger] query.result(events)[i],
                #[trigger] query.result(events)[j],
            ),
        query.limit is Some ==> query.result(events).len() <= query.limit->0,
{
    broadcast use vstd::seq_lib::group_filter_ensures;

    let f = |e: EventView| query.admits(e);
    let le = |a: EventView, b: EventView| newer_first(a, b);
    let kept = events.filter(f);
    let sorted = stable_sorted(kept, le);
    crate::sort::sorting_keeps_items(kept, le);
    crate::sort::sorting_orders(kept, le);
    let r = query.result(events);
    assert forall|k: int| 0 <= k < r.len() implies query.admits(#[trigger] r[k])
        && events.contains(r[k]) by {
        assert(sorted[k] == r[k]);
        crate::store::lemma_same_items(sorted, kept, r[k]);
        let m = choose|m: int| 0 <= m < kept.len() && kept[m] == r[k];
        assert(f(kept[m]));
        crate::query::lemma_filter_from(events, f, m);
    }
    assert forall|i: int, j: int| 0 <= i < j < r.len() implies newer_first(
        #[trigger] r[i],
        #[trigger] r[j],
    ) by {
        assert(le(sorted[i], sorted[j]));
    }
}

/// The event is one that is asked for: on the issue, in the session, by the user and of the kind
/// that were named, and in the time that was.
pub open spec fn is_asked_for(query: EventQuery, e: EventView) -> bool {
    &&& query.issue matches Some(id) ==> e.issue_id == id@
    &&& query.session matches Some(s) ==> e.platform_session_id == Some(s@)
        || e.harness_session_id == Some(s@)
    &&& query.user matches Some(u) ==> e.user_id == Some(u@)
    &&& query.action matches Some(a) ==> e.action == a
    &&& query.since matches Some(t) ==> !e.timestamp.lt(t)
    &&& query.until matches Some(t) ==> !t.lt(e.timestamp)
}

/// The log shows events that were asked for and nothing else, without a limit all of them, from
/// the newest to the oldest; a limit leaves out only what is no newer than all that is shown.
pub proof fn log_shows_what_was_asked_for(query: EventQuery, events: Seq<EventView>, e: EventView)
    ensures
        query.result(events).contains(e) ==> events.contains(e) && is_asked_for(query, e),
        query.limit is None && events.contains(e) && is_asked_for(query, e) ==> query.result(
            events,
        ).contains(e),
        forall|i: int, j: int|
            0 <= i < j < query.result(events).len() ==> !(#[trigger] query.result(
                events,
            )[i]).timestamp.lt((#[trigger] query.result(events)[j]).timestamp),
        query.limit matches Some(n) ==> query.result(events).len() <= n,
        events.contains(e) && is_asked_for(query, e) && !query.result(events).contains(e)
            ==> forall|i: int|
            0 <= i < query.result(events).len() ==> !(#[trigger] query.result(
                events,
            )[i]).timestamp.lt(e.timestamp),
{
    let f = |x: EventView| query.admits(x);
    let le = |a: EventView, b: EventView| newer_first(a, b);
    let kept = events.filter(f);
    let sorted = stable_sorted(kept, le);
    let r = query.result(events);
    filtering_keeps_what_passes(events, f, e);
    sorting_keeps_each(kept, le, e);
    limit_keeps_the_front(sorted, query.limit);
    assert(is_total(le));
    assert(is_transitive(le));
    sorting_orders(kept, le);
    assert(query.admits(e) <==> is_asked_for(query, e));
    if r.contains(e) {
        let k = choose|k: int| 0 <= k < r.len() && r[k] == e;
        assert(sorted[k] == e);
    }
    assert forall|i: int, j: int| 0 <= i < j < r.len() implies !(#[trigger] r[i]).timestamp.lt(
        (#[trigger] r[j]).timestamp,
    ) by {
        assert(le(sorted[i], sorted[j]));
    }
    if kept.contains(e) && !r.contains(e) {
        let k = choose|k: int| 0 <= k < sorted.len() && sorted[k] == e;
        assert forall|i: int| 0 <= i < r.len() implies !(#[trigger] r[i]).timestamp.lt(
            e.timestamp,
        ) by {
            if k < r.len() {
                assert(r[k] == e);
            }
            assert(le(sorted[i], sorted[k]));
        }
    }
}

// -------------------------------------------------------------------- sessions

/// What is known of one session from its events.
#[derive(Clone, Debug)]
pub struct SessionSummary {
    /// The id of the session, or `-` for events without one.
    pub session_id: String,
    pub session_name: Option<String>,
    pub user_id: Option<String>,
    pub harness: Option<String>,
    pub platform: Option<String>,
    pub model: Option<String>,
    pub first_at: Timestamp,
    pub last_at: Timestamp,
    pub event_count: usize,
    /// The issues that were touched, each once.
    pub issue_ids: Vec<String>,
}

pub struct SessionSummaryView {
    pub session_id: Seq<char>,
    pub session_name: Option<Seq<char>>,
    pub user_id: Option<Seq<char>>,
    pub harness: Option<Seq<char>>,
    pub platform: Option<Seq<char>>,
    pub model: Option<Seq<char>>,
    pub first_at: Timestamp,
    pub last_at: Timestamp,
    pub event_count: nat,
    pub issue_ids: Seq<Seq<char>>,
}

impl DeepView for SessionSummary {
    type V = SessionSummaryView;

    open spec fn deep_view(&self) -> SessionSummaryView {
        SessionSummaryView {
            session_id: self.session_id@,
            session_name: self.session_name.deep_view(),
            user_id: self.user_id.deep_view(),
            harness: self.harness.deep_view(),
            platform: self.platform.deep_view(),
            model: self.model.deep_view(),
            first_at: self.first_at,
            last_at: self.last_at,
            event_count: self.event_count as nat,
            issue_ids: self.issue_ids.deep_view(),
        }
    }
}

/// The id under which an event is grouped; `-` where it has none.
pub open spec fn group_id(e: EventView) -> Seq<char> {
    match e.key() {
        Some(k) => k,
        None => "-"@,
    }
}

pub fn group_of(e: &Event) -> (r: String)
    ensures
        r@ == group_id(e@),
{
    match e.session_key() {
        Some(k) => k,
        None => "-".to_owned(),
    }
}

/// A session of which one event is known.
pub open spec fn first_summary(e: EventView) -> SessionSummaryView {
    SessionSummaryView {
        session_id: group_id(e),
        session_name: e.session_name,
        user_id: e.user_id,
        harness: e.harness,
        platform: e.platform,
        model: e.model,
        first_at: e.timestamp,
        last_at: e.timestamp,
        event_count: 1,
        issue_ids: seq![e.issue_id],
    }
}

pub open spec fn or_else<V>(a: Option<V>, b: Option<V>) -> Option<V> {
    match a {
        Some(x) => Some(x),
        None => b,
    }
}

/// The session with one more event.
pub open spec fn with_event(s: SessionSummaryView, e: EventView) -> SessionSummaryView {
    SessionSummaryView {
        session_id: s.session_id,
        session_name: or_else(s.session_name, e.session_name),
        user_id: or_else(s.user_id, e.user_id),
        harness: or_else(s.harness, e.harness),
        platform: or_else(s.platform, e.platform),
        model: or_else(s.model, e.model),
        first_at: if e.timestamp.le(s.first_at) {
            e.timestamp
        } else {
            s.first_at
        },
        last_at: if s.last_at.le(e.timestamp) {
            e.timestamp
        } else {
            s.last_at
        },
        event_count: s.event_count + 1,
        issue_ids: if s.issue_ids.contains(e.issue_id) {
            s.issue_ids
        } else {
            s.issue_ids.push(e.issue_id)
        },
    }
}

/// The place of a session, or the number of sessions.
pub open spec fn session_index(s: Seq<SessionSummaryView>, id: Seq<char>) -> int
    decreases s.len(),
{
    if s.len() == 0 {
        0
    } else if s[0].session_id == id {
        0
    } else {
        1 + session_index(s.drop_first(), id)
    }
}

/// The sessions of some events, in the order in which they first occur.
pub open spec fn session_groups(events: Seq<EventView>) -> Seq<SessionSummaryView>
    decreases events.len(),
{
    if events.len() == 0 {
        seq![]
    } else {
        let before = session_groups(events.drop_last());
        let e = events.last();
        let k = session_index(before, group_id(e));
        if k < before.len() {
            before.update(k, with_event(before[k], e))
        } else {
            before.push(first_summary(e))
        }
    }
}

/// The session with the later end stands first.
pub open spec fn latest_first(a: SessionSummaryView, b: SessionSummaryView) -> bool {
    b.last_at.le(a.last_at)
}

/// The sessions of some events, the newest first.
pub open spec fn summaries(events: Seq<EventView>) -> Seq<SessionSummaryView> {
    stable_sorted(
        session_groups(events),
        |a: SessionSummaryView, b: SessionSummaryView| latest_first(a, b),
    )
}

struct LatestFirst;

impl Order<SessionSummary> for LatestFirst {
    closed spec fn le(&self, a: SessionSummaryView, b: SessionSummaryView) -> bool {
        latest_first(a, b)
    }

    proof fn lawful(&self) {
    }

    fn at_most(&self, a: &SessionSummary, b: &SessionSummary) -> (r: bool) {
        b.last_at.at_most(&a.last_at)
    }
}

fn keep_first(a: &Option<String>, b: &Option<String>) -> (r: Option<String>)
    ensures
        r.deep_view() == or_else(a.deep_view(), b.deep_view()),
{
    match a {
        Some(x) => Some(x.clone()),
        None => b.clone(),
    }
}

fn find_session(list: &Vec<SessionSummary>, id: &str) -> (r: usize)
    ensures
        r == session_index(list.deep_view(), id@),
        r <= list.len(),
{
    let ghost d = list.deep_view();
    let mut i: usize = 0;
    assert(d.skip(0) =~= d);
    while i < list.len()
        invariant
            i <= list.len(),
            d == list.deep_view(),
            session_index(d, id@) == i + session_index(d.skip(i as int), id@),
        decreases list.len() - i,
    {
        assert(d[i as int] == list@[i as int].deep_view());
        assert(d.skip(i as int).drop_first() =~= d.skip(i + 1));
        if same_text(&list[i].session_id, id) {
            return i;
        }
        i += 1;
    }
    i
}

fn add_event(s: &SessionSummary, e: &Event) -> (r: SessionSummary)
    requires
        s.event_count < usize::MAX,
    ensures
        r.deep_view() == with_event(s.deep_view(), e@),
{
    let mut issue_ids = crate::issue::copy_texts(&s.issue_ids);
    if !contains_text(&s.issue_ids, &e.issue_id) {
        let ghost before = issue_ids.deep_view();
        issue_ids.push(e.issue_id.clone());
        assert(issue_ids.deep_view() =~= before.push(e@.issue_id));
    }
    SessionSummary {
        session_id: s.session_id.clone(),
        session_name: keep_first(&s.session_name, &e.session_name),
        user_id: keep_first(&s.user_id, &e.user_id),
        harness: keep_first(&s.harness, &e.harness),
        platform: keep_first(&s.platform, &e.platform),
        model: keep_first(&s.model, &e.model),
        first_at: if e.timestamp.at_most(&s.first_at) {
            e.timestamp
        } else {
            s.first_at
        },
        last_at: if s.last_at.at_most(&e.timestamp) {
            e.timestamp
        } else {
            s.last_at
        },
        event_count: s.event_count + 1,
        issue_ids,
    }
}

fn start_session(e: &Event) -> (r: SessionSummary)
    ensures
        r.deep_view() == first_summary(e@),
{
    let mut issue_ids: Vec<String> = Vec::new();
    issue_ids.push(e.issue_id.clone());
    assert(issue_ids.deep_view() =~= seq![e@.issue_id]);
    SessionSummary {
        session_id: group_of(e),
        session_name: e.session_name.clone(),
        user_id: e.user_id.clone(),
        harness: e.harness.clone(),
        platform: e.platform.clone(),
        model: e.model.clone(),
        first_at: e.timestamp,
        last_at: e.timestamp,
        event_count: 1,
        issue_ids,
    }
}

/// The sessions of some events, the newest first.
pub fn summarize_sessions(events: &Vec<Event>) -> (r: Vec<SessionSummary>)
    ensures
        r.deep_view() == summaries(events.deep_view()),
{
    let groups = group_sessions(events);
    let r = stable_sort(groups, &LatestFirst);
    assert((|a: SessionSummaryView, b: SessionSummaryView| latest_first(a, b)) =~= (|
        a: SessionSummaryView,
        b: SessionSummaryView,
    | (LatestFirst).le(a, b)));
    r
}

/// The sessions of some events, the newest first, at most so many.
pub fn list_sessions(events: &Vec<Event>, limit: Option<usize>) -> (r: Vec<SessionSummary>)
    ensures
        r.deep_view() == limited(summaries(events.deep_view()), limit),
{
    cut(summarize_sessions(events), limit)
}

fn group_sessions(events: &Vec<Event>) -> (r: Vec<SessionSummary>)
    ensures
        r.deep_view() == session_groups(events.deep_view()),
{
    let ghost d = events.deep_view();
    let mut r: Vec<SessionSummary> = Vec::new();
    let mut i: usize = 0;
    assert(r.deep_view() =~= session_groups(d.take(0)));
    while i < events.len()
        invariant
            i <= events.len(),
            d == events.deep_view(),
            r.deep_view() == session_groups(d.take(i as int)),
            forall|k: int| 0 <= k < r@.len() ==> (#[trigger] r@[k]).event_count <= i,
        decreases events.len() - i,
    {
        let ghost before = r.deep_view();
        let ghost r0 = r@;
        assert(d.take(i + 1).drop_last() =~= d.take(i as int));
        assert(d.take(i + 1).last() == events@[i as int]@);
        let e = &events[i];
        let id = group_of(e);
        let k = find_session(&r, &id);
        if k < r.len() {
            assert(before[k as int] == r0[k as int].deep_view());
            let s = add_event(&r[k], e);
            let ghost sv = s.deep_view();
            assert(sv.event_count == r0[k as int].event_count + 1);
            r.set(k, s);
            assert(r.deep_view() =~= before.update(k as int, sv));
        } else {
            let s = start_session(e);
            let ghost sv = s.deep_view();
            assert(sv.event_count == 1);
            r.push(s);
            assert(r.deep_view() =~= before.push(sv));
        }
        i += 1;
    }
    assert(d.take(d.len() as int) =~= d);
    r
}

/// The events that sessions count.
pub open spec fn counted(s: Seq<SessionSummaryView>) -> nat
    decreases s.len(),
{
    if s.len() == 0 {
        0
    } else {
        counted(s.drop_last()) + s.last().event_count
    }
}

proof fn lemma_counted_update(s: Seq<SessionSummaryView>, k: int, x: SessionSummaryView)
    requires
        0 <= k < s.len(),
        x.event_count == s[k].event_count + 1,
    ensures
        counted(s.update(k, x)) == counted(s) + 1,
    decreases s.len(),
{
    let u = s.update(k, x);
    if k == s.len() - 1 {
        assert(u.drop_last() =~= s.drop_last());
    } else {
        assert(u.drop_last() =~= s.drop_last().update(k, x));
        lemma_counted_update(s.drop_last(), k, x);
    }
}

proof fn lemma_session_index(s: Seq<SessionSummaryView>, id: Seq<char>)
    ensures
        0 <= session_index(s, id) <= s.len(),
        session_index(s, id) < s.len() ==> s[session_index(s, id)].session_id == id,
        forall|j: int| 0 <= j < session_index(s, id) ==> (#[trigger] s[j]).session_id != id,
    decreases s.len(),
{
    if s.len() > 0 && s[0].session_id != id {
        let rest = s.drop_first();
        lemma_session_index(rest, id);
        assert forall|j: int| 0 <= j < session_index(s, id) implies (#[trigger] s[j]).session_id
            != id by {
            if j > 0 {
                assert(s[j] == rest[j - 1]);
            }
        }
        if session_index(s, id) < s.len() {
            assert(s[session_index(s, id)] == rest[session_index(rest, id)]);
        }
    }
}

/// No two sessions have the same id.
pub open spec fn distinct_sessions(s: Seq<SessionSummaryView>) -> bool {
    forall|i: int, j: int|
        0 <= i < j < s.len() ==> (#[trigger] s[i]).session_id != (#[trigger] s[j]).session_id
}

proof fn lemma_groups(events: Seq<EventView>)
    ensures
        counted(session_groups(events)) == events.len(),
        distinct_sessions(session_groups(events)),
    decreases events.len(),
{
    if events.len() > 0 {
        let before = session_groups(events.drop_last());
        let now = session_groups(events);
        let e = events.last();
        let k = session_index(before, group_id(e));
        lemma_groups(events.drop_last());
        lemma_session_index(before, group_id(e));
        if k < before.len() {
            lemma_counted_update(before, k, with_event(before[k], e));
        } else {
            assert(now.drop_last() =~= before);
        }
        assert forall|i: int, j: int| 0 <= i < j < now.len() implies (#[trigger] now[i]).session_id
            != (#[trigger] now[j]).session_id by {
            assert(now[i].session_id == before[i].session_id);
            if j < before.len() {
                assert(now[j].session_id == before[j].session_id);
            } else {
                assert(before[i].session_id != group_id(e));
            }
        }
    }
}

proof fn lemma_inserted_session(
    s: Seq<SessionSummaryView>,
    x: SessionSummaryView,
    le: spec_fn(SessionSummaryView, SessionSummaryView) -> bool,
)
    requires
        distinct_sessions(s),
        forall|i: int| 0 <= i < s.len() ==> (#[trigger] s[i]).session_id != x.session_id,
    ensures
        counted(inserted(s, x, le)) == counted(s) + x.event_count,
        distinct_sessions(inserted(s, x, le)),
        forall|i: int|
            0 <= i < inserted(s, x, le).len() ==> #[trigger] inserted(s, x, le)[i] == x
                || s.contains(inserted(s, x, le)[i]),
    decreases s.len(),
{
    let r = inserted(s, x, le);
    if s.len() == 0 {
        assert(r.drop_last() =~= s);
    } else if le(s.last(), x) {
        assert(r.drop_last() =~= s);
        assert forall|i: int| 0 <= i < r.len() implies #[trigger] r[i] == x || s.contains(r[i]) by {
            if i < s.len() {
                assert(r[i] == s[i]);
            }
        }
    } else {
        let front = s.drop_last();
        let rest = inserted(front, x, le);
        assert forall|i: int| 0 <= i < front.len() implies (#[trigger] front[i]).session_id
            != x.session_id by {
            assert(front[i] == s[i]);
        }
        lemma_inserted_session(front, x, le);
        assert(r.drop_last() =~= rest);
        assert(s.last() == s[s.len() - 1]);
        assert forall|i: int| 0 <= i < r.len() implies #[trigger] r[i] == x || s.contains(r[i]) by {
            if i < rest.len() {
                assert(r[i] == rest[i]);
                if rest[i] != x {
                    let m = choose|m: int| 0 <= m < front.len() && front[m] == rest[i];
                    assert(s[m] == r[i]);
                }
            }
        }
        assert forall|i: int, j: int| 0 <= i < j < r.len() implies (#[trigger] r[i]).session_id != (
        #[trigger] r[j]).session_id by {
            assert(r[i] == rest[i]);
            if j < rest.len() {
                assert(r[j] == rest[j]);
            } else if rest[i] != x {
                let m = choose|m: int| 0 <= m < front.len() && front[m] == rest[i];
                assert(s[m] == rest[i]);
            }
        }
    }
}

proof fn lemma_sorted_sessions(
    s: Seq<SessionSummaryView>,
    le: spec_fn(SessionSummaryView, SessionSummaryView) -> bool,
)
    requires
        distinct_sessions(s),
    ensures
        counted(stable_sorted(s, le)) == counted(s),
        distinct_sessions(stable_sorted(s, le)),
        forall|i: int|
            0 <= i < stable_sorted(s, le).len() ==> s.contains(#[trigger] stable_sorted(s, le)[i]),
    decreases s.len(),
{
    if s.len() > 0 {
        let front = s.drop_last();
        let t = stable_sorted(front, le);
        let r = stable_sorted(s, le);
        assert(s.last() == s[s.len() - 1]);
        lemma_sorted_sessions(front, le);
        assert forall|i: int| 0 <= i < t.len() implies (#[trigger] t[i]).session_id
            != s.last().session_id by {
            let m = choose|m: int| 0 <= m < front.len() && front[m] == t[i];
            assert(s[m] == t[i]);
        }
        lemma_inserted_session(t, s.last(), le);
        assert forall|i: int| 0 <= i < r.len() implies s.contains(#[trigger] r[i]) by {
            if r[i] != s.last() {
                let n = choose|n: int| 0 <= n < t.len() && t[n] == r[i];
                let m = choose|m: int| 0 <= m < front.len() && front[m] == t[n];
                assert(s[m] == r[i]);
            }
        }
    }
}

/// Every event is counted in one session, each session stands once, and the newest session
/// stands first.
pub proof fn sessions_count_every_event(events: Seq<EventView>)
    ensures
        counted(summaries(events)) == events.len(),
        distinct_sessions(summaries(events)),
        forall|i: int, j: int|
            0 <= i < j < summaries(events).len() ==> latest_first(
                #[trigger] summaries(events)[i],
                #[trigger] summaries(events)[j],
            ),
{
    let le = |a: SessionSummaryView, b: SessionSummaryView| latest_first(a, b);
    let r = summaries(events);
    lemma_groups(events);
    lemma_sorted_sessions(session_groups(events), le);
    crate::sort::sorting_orders(session_groups(events), le);
    assert forall|i: int, j: int| 0 <= i < j < r.len() implies latest_first(
        #[trigger] r[i],
        #[trigger] r[j],
    ) by {
        assert(le(r[i], r[j]));
    }
}

// ---------------------------------------------------------------------- groups

/// The events of one session, oldest first.
pub open spec fn session_events(events: Seq<EventView>, id: Seq<char>) -> Seq<EventView> {
    stable_sorted(
        events.filter(|e: EventView| group_id(e) == id),
        |a: EventView, b: EventView| older_first(a, b),
    )
}

struct InGroup<'g> {
    id: &'g str,
}

impl<'g, 'a> Test<&'a Event> for InGroup<'g> {
    closed spec fn holds(&self, v: EventView) -> bool {
        group_id(v) == self.id@
    }

    fn test(&self, x: &&'a Event) -> (r: bool) {
        same_text(&group_of(x), self.id)
    }
}

fn borrow_all(events: &Vec<Event>) -> (r: Vec<&Event>)
    ensures
        r.deep_view() == events.deep_view(),
{
    let mut r: Vec<&Event> = Vec::new();
    let mut i: usize = 0;
    while i < events.len()
        invariant
            i <= events.len(),
            r@.len() == i,
            forall|k: int| 0 <= k < i ==> (#[trigger] r@[k])@ == events@[k]@,
        decreases events.len() - i,
    {
        r.push(&events[i]);
        i += 1;
    }
    assert(r.deep_view() =~= events.deep_view());
    r
}

/// The events of one session, oldest first, so that they read forward in time.
pub fn events_of_session<'a>(events: &'a Vec<Event>, id: &str) -> (r: Vec<&'a Event>)
    ensures
        r.deep_view() == session_events(events.deep_view(), id@),
{
    let c = InGroup { id };
    let kept = keep(borrow_all(events), &c);
    assert((|v: EventView| c.holds(v)) =~= (|e: EventView| group_id(e) == id@));
    let r = stable_sort(kept, &OldestFirst);
    assert((|a: EventView, b: EventView| older_first(a, b)) =~= (|a: EventView, b: EventView|
        <OldestFirst as Order<&Event>>::le(&OldestFirst, a, b)));
    r
}

/// All events, oldest first.
pub fn oldest_first(events: &Vec<Event>) -> (r: Vec<&Event>)
    ensures
        r.deep_view() == stable_sorted(
            events.deep_view(),
            |a: EventView, b: EventView| older_first(a, b),
        ),
{
    let r = stable_sort(borrow_all(events), &OldestFirst);
    assert((|a: EventView, b: EventView| older_first(a, b)) =~= (|a: EventView, b: EventView|
        <OldestFirst as Order<&Event>>::le(&OldestFirst, a, b)));
    r
}

// ------------------------------------------------------------------------- laws

/// The event is grouped under `id`: that of its platform's session, else of its harness's, else
/// a dash.
pub open spec fn is_in_group(e: EventView, id: Seq<char>) -> bool {
    if e.platform_session_id is Some {
        e.platform_session_id == Some(id)
    } else if e.harness_session_id is Some {
        e.harness_session_id == Some(id)
    } else {
        id == seq!['-']
    }
}

proof fn lemma_in_group(e: EventView, id: Seq<char>)
    ensures
        is_in_group(e, id) <==> group_id(e) == id,
{
    reveal_strlit("-");
    assert("-"@ =~= seq!['-']);
}

/// An event of the group with that instant.
pub open spec fn has_event_at(events: Seq<EventView>, id: Seq<char>, t: Timestamp) -> bool {
    exists|i: int|
        0 <= i < events.len() && is_in_group(#[trigger] events[i], id) && events[i].timestamp == t
}

/// An event of the group on that issue.
pub open spec fn has_event_on(events: Seq<EventView>, id: Seq<char>, issue: Seq<char>) -> bool {
    exists|i: int|
        0 <= i < events.len() && is_in_group(#[trigger] events[i], id) && events[i].issue_id == issue
}

/// What a summary has to say of the events of its group: it counts them, they lie between its
/// first and its last instant, which are those of two of them, and its issues are theirs. Of
/// name, user, harness, platform and model it has one where any of the events has.
pub open spec fn sums_up(s: SessionSummaryView, events: Seq<EventView>) -> bool {
    let id = s.session_id;
    &&& s.event_count == events.filter(|e: EventView| is_in_group(e, id)).len()
    &&& s.event_count > 0
    &&& forall|i: int|
        0 <= i < events.len() && is_in_group(#[trigger] events[i], id) ==> {
            let e = events[i];
            &&& !e.timestamp.lt(s.first_at)
            &&& !s.last_at.lt(e.timestamp)
            &&& s.issue_ids.contains(e.issue_id)
            &&& e.session_name is Some ==> s.session_name is Some
            &&& e.user_id is Some ==> s.user_id is Some
            &&& e.harness is Some ==> s.harness is Some
            &&& e.platform is Some ==> s.platform is Some
            &&& e.model is Some ==> s.model is Some
        }
    &&& has_event_at(events, id, s.first_at)
    &&& has_event_at(events, id, s.last_at)
    &&& forall|x: Seq<char>| #[trigger] s.issue_ids.contains(x) ==> has_event_on(events, id, x)
    &&& s.issue_ids.no_duplicates()
    &&& exists|i: int|
        0 <= i < events.len() && is_in_group(#[trigger] events[i], id) && (s.session_name is Some
            ==> events[i].session_name == s.session_name)
    &&& exists|i: int|
        0 <= i < events.len() && is_in_group(#[trigger] events[i], id) && (s.user_id is Some
            ==> events[i].user_id == s.user_id)
    &&& exists|i: int|
        0 <= i < events.len() && is_in_group(#[trigger] events[i], id) && (s.harness is Some
            ==> events[i].harness == s.harness)
    &&& exists|i: int|
        0 <= i < events.len() && is_in_group(#[trigger] events[i], id) && (s.platform is Some
            ==> events[i].platform == s.platform)
    &&& exists|i: int|
        0 <= i < events.len() && is_in_group(#[trigger] events[i], id) && (s.model is Some
            ==> events[i].model == s.model)
}

proof fn lemma_first_sums_up(events: Seq<EventView>, e: EventView)
    requires
        forall|i: int| 0 <= i < events.len() ==> group_id(#[trigger] events[i]) != group_id(e),
    ensures
        sums_up(first_summary(e), events.push(e)),
{
    let s = first_summary(e);
    let id = s.session_id;
    let all = events.push(e);
    let n = events.len() as int;
    let f = |e: EventView| is_in_group(e, id);
    lemma_in_group(e, id);
    assert(all[n] == e);
    assert forall|i: int| 0 <= i < events.len() implies !is_in_group(#[trigger] events[i], id) by {
        lemma_in_group(events[i], id);
    }
    lemma_filter_push(events, e, f);
    lemma_none_pass(events, f);
    assert forall|i: int| 0 <= i < all.len() && is_in_group(#[trigger] all[i], id) implies all[i]
        == e by {
        if i < n {
            assert(all[i] == events[i]);
        }
    }
    assert(s.issue_ids[0] == e.issue_id);
    assert forall|x: Seq<char>| #[trigger] s.issue_ids.contains(x) implies has_event_on(
        all,
        id,
        x,
    ) by {
        assert(is_in_group(all[n], id) && all[n].issue_id == x);
    }
    assert(is_in_group(all[n], id));
}

proof fn lemma_none_pass(events: Seq<EventView>, f: spec_fn(EventView) -> bool)
    requires
        forall|i: int| 0 <= i < events.len() ==> !f(#[trigger] events[i]),
    ensures
        events.filter(f).len() == 0,
    decreases events.len(),
{
    reveal(Seq::filter);
    if events.len() > 0 {
        let front = events.drop_last();
        assert forall|i: int| 0 <= i < front.len() implies !f(#[trigger] front[i]) by {
            assert(front[i] == events[i]);
        }
        lemma_none_pass(front, f);
        assert(!f(events[events.len() - 1]));
    }
}

proof fn lemma_group_grows(events: Seq<EventView>, e: EventView, id: Seq<char>)
    ensures
        forall|i: int|
            0 <= i < events.len() ==> #[trigger] events.push(e)[i] == events[i],
        forall|t: Timestamp| #[trigger]
            has_event_at(events, id, t) ==> has_event_at(events.push(e), id, t),
        forall|x: Seq<char>| #[trigger]
            has_event_on(events, id, x) ==> has_event_on(events.push(e), id, x),
{
    let all = events.push(e);
    assert forall|t: Timestamp| #[trigger] has_event_at(events, id, t) implies has_event_at(
        all,
        id,
        t,
    ) by {
        let i = choose|i: int|
            0 <= i < events.len() && is_in_group(#[trigger] events[i], id) && events[i].timestamp
                == t;
        assert(all[i] == events[i]);
    }
    assert forall|x: Seq<char>| #[trigger] has_event_on(events, id, x) implies has_event_on(
        all,
        id,
        x,
    ) by {
        let i = choose|i: int|
            0 <= i < events.len() && is_in_group(#[trigger] events[i], id) && events[i].issue_id
                == x;
        assert(all[i] == events[i]);
    }
}

#[verifier::spinoff_prover]
#[verifier::rlimit(60)]
proof fn lemma_next_sums_up(s: SessionSummaryView, events: Seq<EventView>, e: EventView)
    requires
        sums_up(s, events),
    ensures
        group_id(e) != s.session_id ==> sums_up(s, events.push(e)),
        group_id(e) == s.session_id ==> sums_up(with_event(s, e), events.push(e)),
{
    let id = s.session_id;
    let all = events.push(e);
    let n = events.len() as int;
    let f = |e: EventView| is_in_group(e, id);
    lemma_in_group(e, id);
    lemma_filter_push(events, e, f);
    lemma_group_grows(events, e, id);
    assert(all[n] == e);
    let w = if group_id(e) == id {
        with_event(s, e)
    } else {
        s
    };
    assert forall|i: int| 0 <= i < all.len() && is_in_group(#[trigger] all[i], id) implies {
        let x = all[i];
        &&& !x.timestamp.lt(w.first_at)
        &&& !w.last_at.lt(x.timestamp)
        &&& w.issue_ids.contains(x.issue_id)
        &&& x.session_name is Some ==> w.session_name is Some
        &&& x.user_id is Some ==> w.user_id is Some
        &&& x.harness is Some ==> w.harness is Some
        &&& x.platform is Some ==> w.platform is Some
        &&& x.model is Some ==> w.model is Some
    } by {
        if i < n {
            assert(all[i] == events[i]);
            assert(is_in_group(events[i], id));
            let k = choose|k: int|
                0 <= k < s.issue_ids.len() && s.issue_ids[k] == events[i].issue_id;
            assert(w.issue_ids[k] == events[i].issue_id);
        } else if !s.issue_ids.contains(e.issue_id) {
            assert(w.issue_ids[s.issue_ids.len() as int] == e.issue_id);
        }
    }
    assert(has_event_at(all, id, w.first_at) && has_event_at(all, id, w.last_at)) by {
        assert(is_in_group(e, id) ==> is_in_group(all[n], id) && all[n].timestamp == e.timestamp);
    }
    assert forall|x: Seq<char>| #[trigger] w.issue_ids.contains(x) implies has_event_on(
        all,
        id,
        x,
    ) by {
        if s.issue_ids.contains(x) {
        } else {
            let k = choose|k: int| 0 <= k < w.issue_ids.len() && w.issue_ids[k] == x;
            if k < s.issue_ids.len() {
                assert(s.issue_ids[k] == x);
            }
            assert(is_in_group(all[n], id) && all[n].issue_id == x);
        }
    }
    assert(w.issue_ids.no_duplicates());
    lemma_known(s.session_name, w.session_name, events, e, id, |x: EventView| x.session_name);
    lemma_known(s.user_id, w.user_id, events, e, id, |x: EventView| x.user_id);
    lemma_known(s.harness, w.harness, events, e, id, |x: EventView| x.harness);
    lemma_known(s.platform, w.platform, events, e, id, |x: EventView| x.platform);
    lemma_known(s.model, w.model, events, e, id, |x: EventView| x.model);
    let g1 = |x: EventView| x.session_name;
    let g2 = |x: EventView| x.user_id;
    let g3 = |x: EventView| x.harness;
    let g4 = |x: EventView| x.platform;
    let g5 = |x: EventView| x.model;
    let i1 = choose|i: int|
        0 <= i < all.len() && is_in_group(#[trigger] all[i], id) && (w.session_name is Some ==> g1(
            all[i],
        ) == w.session_name);
    assert(is_in_group(all[i1], id) && (w.session_name is Some ==> all[i1].session_name
        == w.session_name));
    let i2 = choose|i: int|
        0 <= i < all.len() && is_in_group(#[trigger] all[i], id) && (w.user_id is Some ==> g2(
            all[i],
        ) == w.user_id);
    assert(is_in_group(all[i2], id) && (w.user_id is Some ==> all[i2].user_id == w.user_id));
    let i3 = choose|i: int|
        0 <= i < all.len() && is_in_group(#[trigger] all[i], id) && (w.harness is Some ==> g3(
            all[i],
        ) == w.harness);
    assert(is_in_group(all[i3], id) && (w.harness is Some ==> all[i3].harness == w.harness));
    let i4 = choose|i: int|
        0 <= i < all.len() && is_in_group(#[trigger] all[i], id) && (w.platform is Some ==> g4(
            all[i],
        ) == w.platform);
    assert(is_in_group(all[i4], id) && (w.platform is Some ==> all[i4].platform == w.platform));
    let i5 = choose|i: int|
        0 <= i < all.len() && is_in_group(#[trigger] all[i], id) && (w.model is Some ==> g5(all[i])
            == w.model);
    assert(is_in_group(all[i5], id) && (w.model is Some ==> all[i5].model == w.model));
}

proof fn lemma_known(
    known: Option<Seq<char>>,
    now: Option<Seq<char>>,
    events: Seq<EventView>,
    e: EventView,
    id: Seq<char>,
    g: spec_fn(EventView) -> Option<Seq<char>>,
)
    requires
        exists|i: int|
            0 <= i < events.len() && is_in_group(#[trigger] events[i], id) && (known is Some ==> g(
                events[i],
            ) == known),
        now == known || (is_in_group(e, id) && now == or_else(known, g(e))),
    ensures
        exists|i: int|
            0 <= i < events.push(e).len() && is_in_group(#[trigger] events.push(e)[i], id) && (now
                is Some ==> g(events.push(e)[i]) == now),
{
    let all = events.push(e);
    let i = choose|i: int|
        0 <= i < events.len() && is_in_group(#[trigger] events[i], id) && (known is Some ==> g(
            events[i],
        ) == known);
    assert(all[i] == events[i]);
    assert(all[events.len() as int] == e);
    if now != known {
        assert(is_in_group(all[events.len() as int], id) && g(all[events.len() as int]) == now);
    } else {
        assert(is_in_group(all[i], id) && (now is Some ==> g(all[i]) == now));
    }
}

proof fn lemma_groups_sum_up(events: Seq<EventView>)
    ensures
        forall|k: int|
            0 <= k < session_groups(events).len() ==> sums_up(
                #[trigger] session_groups(events)[k],
                events,
            ),
        forall|i: int|
            0 <= i < events.len() ==> session_index(
                session_groups(events),
                group_id(#[trigger] events[i]),
            ) < session_groups(events).len(),
    decreases events.len(),
{
    if events.len() > 0 {
        let front = events.drop_last();
        let e = events.last();
        let before = session_groups(front);
        let now = session_groups(events);
        let k = session_index(before, group_id(e));
        lemma_groups_sum_up(front);
        lemma_groups(front);
        lemma_groups(events);
        lemma_session_index(before, group_id(e));
        assert(front.push(e) =~= events);
        assert forall|j: int| 0 <= j < now.len() implies sums_up(#[trigger] now[j], events) by {
            if j < before.len() {
                lemma_next_sums_up(before[j], front, e);
                if j != k {
                    assert(now[j] == before[j]);
                    if k < before.len() {
                        assert(before[k].session_id == group_id(e));
                        if j < k {
                            assert(before[j].session_id != before[k].session_id);
                        } else {
                            assert(before[k].session_id != before[j].session_id);
                        }
                    } else {
                        assert(before[j].session_id != group_id(e));
                    }
                }
            } else {
                assert forall|i: int| 0 <= i < front.len() implies group_id(#[trigger] front[i])
                    != group_id(e) by {
                    lemma_session_index(before, group_id(front[i]));
                }
                lemma_first_sums_up(front, e);
            }
        }
        assert forall|i: int| 0 <= i < events.len() implies session_index(
            now,
            group_id(#[trigger] events[i]),
        ) < now.len() by {
            let id = group_id(events[i]);
            lemma_session_index(now, id);
            if i < front.len() {
                assert(front[i] == events[i]);
                lemma_session_index(before, id);
                let m = session_index(before, id);
                assert(now[m].session_id == id);
            } else {
                if k < before.len() {
                    assert(now[k].session_id == id);
                } else {
                    assert(now[before.len() as int].session_id == id);
                }
            }
        }
    }
}

/// Every session that is shown sums up the events of its group, and every event belongs to a
/// session that is shown.
pub proof fn sessions_sum_up_their_events(events: Seq<EventView>, k: int, i: int)
    ensures
        0 <= k < summaries(events).len() ==> sums_up(summaries(events)[k], events),
        0 <= i < events.len() ==> exists|s: SessionSummaryView| #[trigger]
            summaries(events).contains(s) && is_in_group(events[i], s.session_id),
{
    let le = |a: SessionSummaryView, b: SessionSummaryView| latest_first(a, b);
    let groups = session_groups(events);
    let r = summaries(events);
    lemma_groups_sum_up(events);
    if 0 <= k < r.len() {
        assert(r.contains(r[k]));
        sorting_keeps_each(groups, le, r[k]);
        let m = choose|m: int| 0 <= m < groups.len() && groups[m] == r[k];
        assert(sums_up(groups[m], events));
    }
    if 0 <= i < events.len() {
        let id = group_id(events[i]);
        let m = session_index(groups, id);
        lemma_session_index(groups, id);
        assert(groups.contains(groups[m]));
        sorting_keeps_each(groups, le, groups[m]);
        lemma_in_group(events[i], groups[m].session_id);
        assert(r.contains(groups[m]));
    }
}

/// The events of a session are those of its group, from the oldest to the newest.
pub proof fn sessions_hold_their_events(events: Seq<EventView>, id: Seq<char>, e: EventView)
    ensures
        session_events(events, id).contains(e) <==> events.contains(e) && is_in_group(e, id),
        forall|i: int, j: int|
            0 <= i < j < session_events(events, id).len() ==> !(#[trigger] session_events(
                events,
                id,
            )[j]).timestamp.lt((#[trigger] session_events(events, id)[i]).timestamp),
{
    let f = |e: EventView| group_id(e) == id;
    let le = |a: EventView, b: EventView| older_first(a, b);
    let own = events.filter(f);
    filtering_keeps_what_passes(events, f, e);
    lemma_in_group(e, id);
    sorting_keeps_each(own, le, e);
    assert(is_total(le));
    assert(is_transitive(le));
    sorting_orders(own, le);
    let r = session_events(events, id);
    assert forall|i: int, j: int| 0 <= i < j < r.len() implies !(#[trigger] r[j]).timestamp.lt(
        (#[trigger] r[i]).timestamp,
    ) by {
        assert(le(r[i], r[j]));
    }
}

} // verus!
