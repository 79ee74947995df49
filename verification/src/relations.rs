//! How the issues of a store stand to each other: parents, children, blockers, and what
//! can be worked on.
use crate::filter::{
    cut, filtering_keeps_what_passes, keep, limit_keeps_the_front, limited, Test,
};
use crate::graph::{
    held_up_by_open_blockers, is_held_up, lemma_blockers, lemma_open_ids, open_ids, waits_for,
};
use crate::issue::{
    blockers_of, contains_text, has_dependency, parent_of, DependencyType, DependencyView, Issue,
    IssueType, IssueView, Status,
};
use crate::query::{issue_mentions, lemma_stands_in, mentions, stands_in};
use crate::sort::{
    is_total, is_transitive, sorting_keeps_each, sorting_orders, stable_sort, stable_sorted, Order,
};
use crate::store::{
    listed, listed_open, listing_leaves_out_the_deleted, open_means_not_closed, Store,
};
use crate::text::{contains, holds_text, lowercased, to_lowercase};
use vstd::prelude::*;

verus! {

// ---------------------------------------------------------------------- links

/// The ids of some issues.
pub open spec fn ids_of(issues: Seq<IssueView>) -> Seq<Seq<char>> {
    Seq::new(issues.len(), |i: int| issues[i].id)
}

/// The issues that have a dependency of that type on `id`.
pub open spec fn dependents(
    all: Seq<IssueView>,
    id: Seq<char>,
    dep_type: DependencyType,
) -> Seq<IssueView> {
    all.filter(|i: IssueView| has_dependency(i.dependencies, id, dep_type))
}

struct DependsOn<'a> {
    id: &'a str,
    dep_type: DependencyType,
}

impl<'a, 'b> Test<&'b Issue> for DependsOn<'a> {
    closed spec fn holds(&self, v: IssueView) -> bool {
        has_dependency(v.dependencies, self.id@, self.dep_type)
    }

    fn test(&self, x: &&'b Issue) -> (r: bool) {
        x.depends_on(self.id, self.dep_type)
    }
}

/// The issues that depend on `id` in that way.
pub fn find_dependents<'a>(all: Vec<&'a Issue>, id: &str, dep_type: DependencyType) -> (r: Vec<
    &'a Issue,
>)
    ensures
        r.deep_view() == dependents(all.deep_view(), id@, dep_type),
{
    let c = DependsOn { id, dep_type };
    let r = keep(all, &c);
    assert((|v: IssueView| c.holds(v)) =~= (|i: IssueView|
        has_dependency(i.dependencies, id@, dep_type)));
    r
}

/// The ids of some issues.
pub fn collect_ids(issues: &Vec<&Issue>) -> (r: Vec<String>)
    ensures
        r.deep_view() == ids_of(issues.deep_view()),
{
    let mut r: Vec<String> = Vec::new();
    let mut i: usize = 0;
    while i < issues.len()
        invariant
            i <= issues.len(),
            r.len() == i,
            forall|j: int| 0 <= j < i ==> (#[trigger] r@[j])@ == issues@[j]@.id,
        decreases issues.len() - i,
    {
        r.push(issues[i].id.clone());
        i += 1;
    }
    assert(r.deep_view() =~= ids_of(issues.deep_view()));
    r
}

/// What an issue is linked to.
pub struct IssueLinks {
    pub parent: Option<String>,
    /// The issues that block it.
    pub blocked_by: Vec<String>,
    /// The issues that it blocks.
    pub blocks: Vec<String>,
    pub children: Vec<String>,
}

/// The links of an issue among those that are not deleted.
pub fn issue_links(store: &Store, issue: &Issue) -> (r: IssueLinks)
    ensures
        r.parent.deep_view() == parent_of(issue@.dependencies),
        r.blocked_by.deep_view() == blockers_of(issue@.dependencies),
        r.blocks.deep_view() == ids_of(
            dependents(listed(store.entries(), false), issue@.id, DependencyType::Blocks),
        ),
        r.children.deep_view() == ids_of(
            dependents(listed(store.entries(), false), issue@.id, DependencyType::ParentChild),
        ),
{
    let blocks = find_dependents(store.list(false), &issue.id, DependencyType::Blocks);
    let children = find_dependents(store.list(false), &issue.id, DependencyType::ParentChild);
    IssueLinks {
        parent: issue.parent(),
        blocked_by: issue.blocker_ids(),
        blocks: collect_ids(&blocks),
        children: collect_ids(&children),
    }
}

/// Parent and child agree: an issue with a parent is among that parent's children.
pub proof fn child_of_its_parent(all: Seq<IssueView>, k: int)
    requires
        0 <= k < all.len(),
        parent_of(all[k].dependencies) is Some,
    ensures
        dependents(
            all,
            parent_of(all[k].dependencies)->0,
            DependencyType::ParentChild,
        ).contains(all[k]),
{
    broadcast use vstd::seq_lib::group_filter_ensures;

    let p = parent_of(all[k].dependencies)->0;
    lemma_parent_is_dependency(all[k].dependencies);
    let f = |i: IssueView| has_dependency(i.dependencies, p, DependencyType::ParentChild);
    assert(f(all[k]));
}

proof fn lemma_parent_is_dependency(deps: Seq<crate::issue::DependencyView>)
    requires
        parent_of(deps) is Some,
    ensures
        has_dependency(deps, parent_of(deps)->0, DependencyType::ParentChild),
    decreases deps.len(),
{
    if deps[0].dep_type != DependencyType::ParentChild {
        let rest = deps.drop_first();
        lemma_parent_is_dependency(rest);
        let i = choose|i: int|
            0 <= i < rest.len() && (#[trigger] rest[i]).depends_on_id == parent_of(deps)->0
                && rest[i].dep_type == DependencyType::ParentChild;
        assert(deps[i + 1] == rest[i]);
    } else {
        assert(deps[0].depends_on_id == parent_of(deps)->0);
    }
}

// ---------------------------------------------------------------------- ready

/// Those of an issue's blockers that are open, in order.
pub open spec fn open_blockers(issue: IssueView, open: Seq<Seq<char>>) -> Seq<Seq<char>> {
    blockers_of(issue.dependencies).filter(|id: Seq<char>| open.contains(id))
}

struct AmongIds<'a> {
    ids: &'a Vec<String>,
}

impl<'a> Test<String> for AmongIds<'a> {
    closed spec fn holds(&self, v: Seq<char>) -> bool {
        self.ids.deep_view().contains(v)
    }

    fn test(&self, x: &String) -> (r: bool) {
        contains_text(self.ids, x)
    }
}

/// Those of an issue's blockers that are among `open`.
pub fn blockers_among(issue: &Issue, open: &Vec<String>) -> (r: Vec<String>)
    ensures
        r.deep_view() == open_blockers(issue@, open.deep_view()),
{
    let c = AmongIds { ids: open };
    let r = keep(issue.blocker_ids(), &c);
    assert((|v: Seq<char>| c.holds(v)) =~= (|id: Seq<char>| open.deep_view().contains(id)));
    r
}

/// What the user asked to see of the work that is ready.
pub struct ReadyQuery {
    pub issue_type: Option<IssueType>,
    pub priority: Option<u8>,
    pub labels: Vec<String>,
    pub limit: Option<usize>,
}

impl ReadyQuery {
    /// Whether an issue passes the filters.
    pub open spec fn admits(self, i: IssueView) -> bool {
        &&& self.issue_type is Some ==> i.issue_type == self.issue_type->0
        &&& self.priority is Some ==> i.priority == self.priority->0
        &&& forall|k: int|
            0 <= k < self.labels.deep_view().len() ==> i.labels.contains(
                #[trigger] self.labels.deep_view()[k],
            )
    }
}

/// Filter, type and priority of the issues with what holds them up.
struct ReadyTest<'q> {
    query: &'q ReadyQuery,
    open: &'q Vec<String>,
    held: bool,
}

impl<'q, 'a> Test<&'a Issue> for ReadyTest<'q> {
    closed spec fn holds(&self, v: IssueView) -> bool {
        is_held_up(v, self.open.deep_view()) == self.held && self.query.admits(v)
    }

    fn test(&self, x: &&'a Issue) -> (r: bool) {
        if x.is_blocked_by(self.open) != self.held {
            return false;
        }
        match self.query.issue_type {
            Some(t) => if x.issue_type != t {
                return false;
            },
            None => {},
        }
        match self.query.priority {
            Some(p) => if x.priority != p {
                return false;
            },
            None => {},
        }
        let labels = &self.query.labels;
        let mut i: usize = 0;
        while i < labels.len()
            invariant
                i <= labels.len(),
                labels == self.query.labels,
                forall|k: int|
                    0 <= k < i ==> x@.labels.contains(#[trigger] labels.deep_view()[k]),
            decreases labels.len() - i,
        {
            assert(labels.deep_view()[i as int] == labels@[i as int]@);
            if !contains_text(&x.labels, &labels[i]) {
                assert(!self.query.admits(x@));
                return false;
            }
            i += 1;
        }
        true
    }
}

/// Issues by priority.
pub struct ByPriority;

pub open spec fn priority_le(a: IssueView, b: IssueView) -> bool {
    a.priority <= b.priority
}

impl<'a> Order<&'a Issue> for ByPriority {
    open spec fn le(&self, a: IssueView, b: IssueView) -> bool {
        priority_le(a, b)
    }

    proof fn lawful(&self) {
    }

    fn at_most(&self, a: &&'a Issue, b: &&'a Issue) -> (r: bool) {
        a.priority <= b.priority
    }
}

/// The work that is ready, by priority, and the work that open issues hold up.
pub struct ReadyReport<'a> {
    pub ready: Vec<&'a Issue>,
    pub blocked: Vec<&'a Issue>,
    /// The ids of all open issues.
    pub open: Vec<String>,
}

/// The open issues that pass the filters and are held up, or are not.
pub open spec fn open_work(entries: Seq<IssueView>, query: ReadyQuery, held: bool) -> Seq<IssueView> {
    let open = listed_open(entries);
    open.filter(|i: IssueView| is_held_up(i, open_ids(open)) == held && query.admits(i))
}

fn open_issue_ids(open: &Vec<&Issue>) -> (r: Vec<String>)
    ensures
        r.deep_view() == open_ids(open.deep_view()),
{
    let ghost d = open.deep_view();
    let mut ids: Vec<String> = Vec::new();
    let mut i: usize = 0;
    assert(ids.deep_view() =~= open_ids(d.take(0)));
    while i < open.len()
        invariant
            i <= open.len(),
            d == open.deep_view(),
            ids.deep_view() == open_ids(d.take(i as int)),
        decreases open.len() - i,
    {
        let ghost before = ids.deep_view();
        assert(d.take(i + 1).drop_last() =~= d.take(i as int));
        assert(d.take(i + 1).last() == open@[i as int]@);
        if open[i].status.is_open() {
            ids.push(open[i].id.clone());
            assert(ids.deep_view() =~= before.push(open@[i as int]@.id));
        }
        i += 1;
    }
    assert(d.take(d.len() as int) =~= d);
    ids
}

/// Parts the open issues into what is ready and what is held up. Whether an issue is held
/// up does not depend on the filters.
pub fn ready_report<'s>(store: &'s Store, query: &ReadyQuery) -> (r: ReadyReport<'s>)
    ensures
        r.ready.deep_view() == limited(
            stable_sorted(
                open_work(store.entries(), *query, false),
                |a: IssueView, b: IssueView| priority_le(a, b),
            ),
            query.limit,
        ),
        r.blocked.deep_view() == open_work(store.entries(), *query, true),
        r.open.deep_view() == open_ids(listed_open(store.entries())),
{
    let open_list = store.list_open();
    let ghost shown = open_list.deep_view();
    let open = open_issue_ids(&open_list);
    let free = ReadyTest { query, open: &open, held: false };
    let held = ReadyTest { query, open: &open, held: true };
    let ready = keep(open_list, &free);
    let blocked = keep(store.list_open(), &held);
    proof {
        assert((|v: IssueView| free.holds(v)) =~= (|i: IssueView|
            is_held_up(i, open_ids(shown)) == false && query.admits(i)));
        assert((|v: IssueView| held.holds(v)) =~= (|i: IssueView|
            is_held_up(i, open_ids(shown)) == true && query.admits(i)));
        lemma_open_work(store.entries(), *query);
        assert((|a: IssueView, b: IssueView| priority_le(a, b)) =~= (|a: IssueView, b: IssueView|
            <ByPriority as Order<&Issue>>::le(&ByPriority, a, b)));
    }
    let sorted = stable_sort(ready, &ByPriority);
    ReadyReport { ready: cut(sorted, query.limit), blocked, open }
}

proof fn lemma_open_work(entries: Seq<IssueView>, query: ReadyQuery)
    ensures
        open_work(entries, query, false) == listed_open(entries).filter(
            |i: IssueView|
                is_held_up(i, open_ids(listed_open(entries))) == false && query.admits(i),
        ),
        open_work(entries, query, true) == listed_open(entries).filter(
            |i: IssueView|
                is_held_up(i, open_ids(listed_open(entries))) == true && query.admits(i),
        ),
{
    let open = listed_open(entries);
    let no = false;
    let yes = true;
    assert((|i: IssueView| is_held_up(i, open_ids(open)) == no && query.admits(i)) =~= (|
        i: IssueView,
    | is_held_up(i, open_ids(open)) == false && query.admits(i)));
    assert((|i: IssueView| is_held_up(i, open_ids(open)) == yes && query.admits(i)) =~= (|
        i: IssueView,
    | is_held_up(i, open_ids(open)) == true && query.admits(i)));
}

/// Every open issue that passes the filters is either ready or held up, not both; filters
/// never turn one into the other.
pub proof fn ready_and_blocked_cover_open_work(
    entries: Seq<IssueView>,
    query: ReadyQuery,
    issue: IssueView,
)
    requires
        listed_open(entries).contains(issue),
        query.admits(issue),
    ensures
        open_work(entries, query, false).contains(issue) || open_work(
            entries,
            query,
            true,
        ).contains(issue),
        open_work(entries, query, false).contains(issue) ==> !is_held_up(
            issue,
            open_ids(listed_open(entries)),
        ),
        open_work(entries, query, true).contains(issue) ==> is_held_up(
            issue,
            open_ids(listed_open(entries)),
        ),
{
    broadcast use vstd::seq_lib::group_filter_ensures;

    let open = listed_open(entries);
    lemma_open_work(entries, query);
    let f = |i: IssueView| is_held_up(i, open_ids(open)) == false && query.admits(i);
    let t = |i: IssueView| is_held_up(i, open_ids(open)) == true && query.admits(i);
    let k = choose|k: int| 0 <= k < open.len() && open[k] == issue;
    assert(f(open[k]) || t(open[k]));
    if open.filter(f).contains(issue) {
        let m = choose|m: int| 0 <= m < open.filter(f).len() && open.filter(f)[m] == issue;
        assert(f(open.filter(f)[m]));
    }
    if open.filter(t).contains(issue) {
        let m = choose|m: int| 0 <= m < open.filter(t).len() && open.filter(t)[m] == issue;
        assert(t(open.filter(t)[m]));
    }
}

/// The work that is ready, as it is shown.
pub open spec fn ready_work(entries: Seq<IssueView>, query: ReadyQuery) -> Seq<IssueView> {
    limited(
        stable_sorted(
            open_work(entries, query, false),
            |a: IssueView, b: IssueView| priority_le(a, b),
        ),
        query.limit,
    )
}

/// The issue is one that a request for ready work is about: neither closed nor deleted, of the
/// type and the priority that were asked for, and with every label that was.
pub open spec fn is_asked_for(query: ReadyQuery, x: IssueView) -> bool {
    &&& x.status != Status::Closed
    &&& x.status != Status::Tombstone
    &&& query.issue_type matches Some(t) ==> x.issue_type == t
    &&& query.priority matches Some(p) ==> x.priority == p
    &&& forall|k: int| 0 <= k < query.labels@.len() ==> x.labels.contains((#[trigger] query.labels@[k])@)
}

/// Some issue of the store that is neither closed nor deleted blocks this one.
pub open spec fn has_open_blocker(entries: Seq<IssueView>, x: IssueView) -> bool {
    exists|k: int| 0 <= k < entries.len() && waits_for(x, #[trigger] entries[k])
}

proof fn lemma_held_up_in_store(entries: Seq<IssueView>, x: IssueView)
    ensures
        is_held_up(x, open_ids(listed_open(entries))) <==> has_open_blocker(entries, x),
{
    let open = listed_open(entries);
    held_up_by_open_blockers(x, open);
    if has_open_blocker(entries, x) {
        let k = choose|k: int| 0 <= k < entries.len() && waits_for(x, #[trigger] entries[k]);
        open_means_not_closed(entries, entries[k]);
        let m = choose|m: int| 0 <= m < open.len() && open[m] == entries[k];
        assert(waits_for(x, open[m]));
    }
    if is_held_up(x, open_ids(open)) {
        let m = choose|m: int| 0 <= m < open.len() && waits_for(x, #[trigger] open[m]);
        open_means_not_closed(entries, open[m]);
        let k = choose|k: int| 0 <= k < entries.len() && entries[k] == open[m];
        assert(waits_for(x, entries[k]));
    }
}

proof fn lemma_open_work_is(entries: Seq<IssueView>, query: ReadyQuery, held: bool, x: IssueView)
    ensures
        open_work(entries, query, held).contains(x) <==> entries.contains(x) && is_asked_for(
            query,
            x,
        ) && has_open_blocker(entries, x) == held,
{
    let open = listed_open(entries);
    filtering_keeps_what_passes(
        open,
        |i: IssueView| is_held_up(i, open_ids(open)) == held && query.admits(i),
        x,
    );
    open_means_not_closed(entries, x);
    lemma_held_up_in_store(entries, x);
    let labels = query.labels.deep_view();
    if query.admits(x) {
        assert forall|k: int| 0 <= k < query.labels@.len() implies x.labels.contains(
            (#[trigger] query.labels@[k])@,
        ) by {
            assert(labels[k] == query.labels@[k]@);
        }
    }
    if is_asked_for(query, x) {
        assert forall|k: int| 0 <= k < labels.len() implies x.labels.contains(
            #[trigger] labels[k],
        ) by {
            assert(labels[k] == query.labels@[k]@);
        }
    }
}

/// What is shown as held up is what was asked for and an open issue blocks, all of it; what is
/// shown as ready was asked for and no open issue blocks it, and without a limit nothing of
/// that is left out.
pub proof fn ready_work_is_what_was_asked_for(
    entries: Seq<IssueView>,
    query: ReadyQuery,
    x: IssueView,
)
    ensures
        open_work(entries, query, true).contains(x) <==> entries.contains(x) && is_asked_for(
            query,
            x,
        ) && has_open_blocker(entries, x),
        ready_work(entries, query).contains(x) ==> entries.contains(x) && is_asked_for(query, x)
            && !has_open_blocker(entries, x),
        query.limit is None && entries.contains(x) && is_asked_for(query, x) && !has_open_blocker(
            entries,
            x,
        ) ==> ready_work(entries, query).contains(x),
{
    lemma_open_work_is(entries, query, true, x);
    lemma_open_work_is(entries, query, false, x);
    let free = open_work(entries, query, false);
    let le = |a: IssueView, b: IssueView| priority_le(a, b);
    let sorted = stable_sorted(free, le);
    sorting_keeps_each(free, le, x);
    limit_keeps_the_front(sorted, query.limit);
    if ready_work(entries, query).contains(x) {
        let k = choose|k: int|
            0 <= k < ready_work(entries, query).len() && ready_work(entries, query)[k] == x;
        assert(sorted[k] == x);
    }
}

/// Ready work is shown by priority, the most urgent first, and no more than the limit says; a
/// limit leaves out only what is no more urgent than all that is shown.
pub proof fn ready_work_runs_by_priority(entries: Seq<IssueView>, query: ReadyQuery)
    ensures
        forall|i: int, j: int|
            0 <= i < j < ready_work(entries, query).len() ==> (#[trigger] ready_work(
                entries,
                query,
            )[i]).priority <= (#[trigger] ready_work(entries, query)[j]).priority,
        query.limit matches Some(n) ==> ready_work(entries, query).len() <= n,
        forall|x: IssueView, i: int|
            open_work(entries, query, false).contains(x) && !ready_work(entries, query).contains(x)
                && 0 <= i < ready_work(entries, query).len() ==> (#[trigger] ready_work(
                entries,
                query,
            )[i]).priority <= (#[trigger] x.priority),
{
    let free = open_work(entries, query, false);
    let le = |a: IssueView, b: IssueView| priority_le(a, b);
    let sorted = stable_sorted(free, le);
    let shown = ready_work(entries, query);
    assert(is_total(le));
    assert(is_transitive(le));
    sorting_orders(free, le);
    limit_keeps_the_front(sorted, query.limit);
    assert forall|i: int, j: int| 0 <= i < j < shown.len() implies (#[trigger] shown[i]).priority
        <= (#[trigger] shown[j]).priority by {
        assert(le(sorted[i], sorted[j]));
    }
    assert forall|x: IssueView, i: int|
        free.contains(x) && !shown.contains(x) && 0 <= i < shown.len() implies (
    #[trigger] shown[i]).priority <= (#[trigger] x.priority) by {
        sorting_keeps_each(free, le, x);
        let k = choose|k: int| 0 <= k < sorted.len() && sorted[k] == x;
        if k < shown.len() {
            assert(shown[k] == x);
        }
        assert(le(sorted[i], sorted[k]));
    }
}

// ------------------------------------------------------------------- handover

/// Issues that are ready before those that are not, then by priority.
struct ReadyFirst<'a> {
    open: &'a Vec<String>,
}

pub open spec fn handover_le(open: Seq<Seq<char>>, a: IssueView, b: IssueView) -> bool {
    if is_held_up(a, open) != is_held_up(b, open) {
        is_held_up(b, open)
    } else {
        a.priority <= b.priority
    }
}

impl<'a, 'b> Order<&'b Issue> for ReadyFirst<'a> {
    closed spec fn le(&self, a: IssueView, b: IssueView) -> bool {
        handover_le(self.open.deep_view(), a, b)
    }

    proof fn lawful(&self) {
    }

    fn at_most(&self, a: &&'b Issue, b: &&'b Issue) -> (r: bool) {
        let x = a.is_blocked_by(self.open);
        let y = b.is_blocked_by(self.open);
        if x != y {
            y
        } else {
            a.priority <= b.priority
        }
    }
}

/// One line of a handover: an open issue, whether it is ready, and what blocks it.
pub struct HandoverRow<'a> {
    pub issue: &'a Issue,
    pub ready: bool,
    pub blocked_by: Vec<String>,
}

/// The open issues, those that are ready first, then by priority.
pub open spec fn handover_order(entries: Seq<IssueView>) -> Seq<IssueView> {
    let open = listed_open(entries);
    stable_sorted(open, |a: IssueView, b: IssueView| handover_le(open_ids(open), a, b))
}

/// What the next one at work needs to know.
pub fn handover<'s>(store: &'s Store) -> (r: Vec<HandoverRow<'s>>)
    ensures
        ({
            let order = handover_order(store.entries());
            let open = open_ids(listed_open(store.entries()));
            &&& r@.len() == order.len()
            &&& forall|k: int|
                0 <= k < r@.len() ==> (#[trigger] r@[k]).issue@ == order[k] && r@[k].ready
                    == !is_held_up(order[k], open) && r@[k].blocked_by.deep_view()
                    == open_blockers(order[k], open)
        }),
{
    let open_list = store.list_open();
    let ghost shown = open_list.deep_view();
    let open = open_issue_ids(&open_list);
    let order = ReadyFirst { open: &open };
    let sorted = stable_sort(open_list, &order);
    assert((|a: IssueView, b: IssueView| handover_le(open_ids(shown), a, b)) =~= (|
        a: IssueView,
        b: IssueView,
    | <ReadyFirst as Order<&Issue>>::le(&order, a, b)));
    let ghost o = handover_order(store.entries());
    assert(sorted.deep_view() == o);
    let mut r: Vec<HandoverRow<'s>> = Vec::new();
    let mut i: usize = 0;
    while i < sorted.len()
        invariant
            i <= sorted.len(),
            sorted.deep_view() == o,
            open.deep_view() == open_ids(listed_open(store.entries())),
            r@.len() == i,
            forall|k: int|
                0 <= k < i ==> (#[trigger] r@[k]).issue@ == o[k] && r@[k].ready == !is_held_up(
                    o[k],
                    open.deep_view(),
                ) && r@[k].blocked_by.deep_view() == open_blockers(o[k], open.deep_view()),
        decreases sorted.len() - i,
    {
        let issue = sorted[i];
        assert(o[i as int] == issue@);
        r.push(
            HandoverRow {
                issue,
                ready: !issue.is_blocked_by(&open),
                blocked_by: blockers_among(issue, &open),
            },
        );
        i += 1;
    }
    r
}

/// A row of a handover names blockers exactly where it is not ready.
pub proof fn handover_names_blockers(issue: IssueView, open: Seq<Seq<char>>)
    ensures
        is_held_up(issue, open) <==> open_blockers(issue, open).len() > 0,
{
    broadcast use vstd::seq_lib::group_filter_ensures;

    let b = blockers_of(issue.dependencies);
    let f = |id: Seq<char>| open.contains(id);
    if is_held_up(issue, open) {
        let i = choose|i: int| 0 <= i < b.len() && open.contains(#[trigger] b[i]);
        assert(f(b[i]));
        assert(b.filter(f).contains(b[i]));
    }
    if b.filter(f).len() > 0 {
        let x = b.filter(f)[0];
        assert(f(b.filter(f)[0]));
        crate::query::lemma_filter_from(b, f, 0);
        let i = choose|i: int| 0 <= i < b.len() && b[i] == x;
        assert(open.contains(b[i]));
    }
}

// --------------------------------------------------------------------- search

/// The text, in lower case, is in the title, the description, the id or a label.
pub open spec fn found_by(i: IssueView, needle: Seq<char>) -> bool {
    mentions(i, needle) || exists|k: int|
        0 <= k < i.labels.len() && holds_text(lowercased(#[trigger] i.labels[k]), needle)
}

/// Whether a search for a text, in lower case already, finds the issue.
pub fn matches_search(issue: &Issue, q_lower: &str) -> (r: bool)
    ensures
        r == found_by(issue@, q_lower@),
{
    if issue_mentions(issue, q_lower) {
        return true;
    }
    let mut i: usize = 0;
    while i < issue.labels.len()
        invariant
            i <= issue.labels.len(),
            !mentions(issue@, q_lower@),
            forall|k: int|
                0 <= k < i ==> !holds_text(lowercased(#[trigger] issue@.labels[k]), q_lower@),
        decreases issue.labels.len() - i,
    {
        assert(issue@.labels[i as int] == issue.labels@[i as int]@);
        if contains(&to_lowercase(&issue.labels[i]), q_lower) {
            return true;
        }
        i += 1;
    }
    false
}

struct SearchTest<'q> {
    needle: &'q String,
}

impl<'q, 'a> Test<&'a Issue> for SearchTest<'q> {
    closed spec fn holds(&self, v: IssueView) -> bool {
        found_by(v, self.needle@)
    }

    fn test(&self, x: &&'a Issue) -> (r: bool) {
        matches_search(x, self.needle)
    }
}

/// The issues of a store that a search finds, whatever the case.
pub fn search<'s>(store: &'s Store, query: &str) -> (r: Vec<&'s Issue>)
    ensures
        r.deep_view() == listed(store.entries(), false).filter(
            |i: IssueView| found_by(i, lowercased(query@)),
        ),
{
    let needle = to_lowercase(query);
    let c = SearchTest { needle: &needle };
    let r = keep(store.list(false), &c);
    assert((|v: IssueView| c.holds(v)) =~= (|i: IssueView| found_by(i, lowercased(query@))));
    r
}

// ------------------------------------------------------------------------- laws

/// The dependents of an issue are the issues that have a dependency of that kind on it.
pub proof fn dependents_have_the_dependency(
    all: Seq<IssueView>,
    id: Seq<char>,
    dep_type: DependencyType,
    x: IssueView,
)
    ensures
        dependents(all, id, dep_type).contains(x) <==> all.contains(x) && exists|d: DependencyView|
            #[trigger]
            x.dependencies.contains(d) && d.depends_on_id == id && d.dep_type == dep_type,
{
    filtering_keeps_what_passes(
        all,
        |i: IssueView| has_dependency(i.dependencies, id, dep_type),
        x,
    );
    let deps = x.dependencies;
    if has_dependency(deps, id, dep_type) {
        let k = choose|k: int|
            0 <= k < deps.len() && (#[trigger] deps[k]).depends_on_id == id && deps[k].dep_type
                == dep_type;
        assert(deps.contains(deps[k]));
    }
    if exists|d: DependencyView| #[trigger]
        deps.contains(d) && d.depends_on_id == id && d.dep_type == dep_type {
        let d = choose|d: DependencyView| #[trigger]
            deps.contains(d) && d.depends_on_id == id && d.dep_type == dep_type;
        let k = choose|k: int| 0 <= k < deps.len() && deps[k] == d;
        assert(deps[k].depends_on_id == id);
    }
}

/// A handover has every issue of the store that is neither closed nor deleted, and no other.
/// What no open issue blocks comes before what one does, and among both the more urgent comes
/// first.
pub proof fn handover_covers_open_work(entries: Seq<IssueView>, x: IssueView)
    ensures
        handover_order(entries).contains(x) <==> entries.contains(x) && x.status != Status::Closed
            && x.status != Status::Tombstone,
        forall|i: int, j: int|
            0 <= i < j < handover_order(entries).len() ==> {
                let a = #[trigger] handover_order(entries)[i];
                let b = #[trigger] handover_order(entries)[j];
                &&& has_open_blocker(entries, a) ==> has_open_blocker(entries, b)
                &&& has_open_blocker(entries, a) == has_open_blocker(entries, b) ==> a.priority
                    <= b.priority
            },
{
    let open = listed_open(entries);
    let le = |a: IssueView, b: IssueView| handover_le(open_ids(open), a, b);
    open_means_not_closed(entries, x);
    sorting_keeps_each(open, le, x);
    assert(is_total(le));
    assert(is_transitive(le));
    sorting_orders(open, le);
    let order = handover_order(entries);
    assert forall|i: int, j: int| 0 <= i < j < order.len() implies {
        let a = #[trigger] order[i];
        let b = #[trigger] order[j];
        &&& has_open_blocker(entries, a) ==> has_open_blocker(entries, b)
        &&& has_open_blocker(entries, a) == has_open_blocker(entries, b) ==> a.priority
            <= b.priority
    } by {
        assert(le(order[i], order[j]));
        lemma_held_up_in_store(entries, order[i]);
        lemma_held_up_in_store(entries, order[j]);
    }
}

/// A row of a handover is ready exactly where no open issue blocks its issue, and the blockers
/// that it names are the ids of the open issues that do.
pub proof fn handover_rows_name_open_blockers(
    entries: Seq<IssueView>,
    x: IssueView,
    id: Seq<char>,
)
    ensures
        is_held_up(x, open_ids(listed_open(entries))) <==> has_open_blocker(entries, x),
        open_blockers(x, open_ids(listed_open(entries))).contains(id) <==> exists|y: IssueView|
            #[trigger]
            entries.contains(y) && y.id == id && waits_for(x, y),
{
    let open = listed_open(entries);
    let ids = open_ids(open);
    lemma_held_up_in_store(entries, x);
    filtering_keeps_what_passes(
        blockers_of(x.dependencies),
        |i: Seq<char>| ids.contains(i),
        id,
    );
    assert((|i: Seq<char>| ids.contains(i)) =~= (|id: Seq<char>| ids.contains(id)));
    lemma_blockers(x.dependencies, id);
    lemma_open_ids(open, id);
    if open_blockers(x, ids).contains(id) {
        let k = choose|k: int|
            0 <= k < open.len() && (#[trigger] open[k]).id == id && open[k].status
                != Status::Closed && open[k].status != Status::Tombstone;
        open_means_not_closed(entries, open[k]);
        assert(entries.contains(open[k]) && waits_for(x, open[k]));
    }
    if exists|y: IssueView| #[trigger] entries.contains(y) && y.id == id && waits_for(x, y) {
        let y = choose|y: IssueView| #[trigger]
            entries.contains(y) && y.id == id && waits_for(x, y);
        open_means_not_closed(entries, y);
        let k = choose|k: int| 0 <= k < open.len() && open[k] == y;
        assert(open[k].id == id);
    }
}

/// A search finds the issues that are not deleted and have the text, whatever the case, in their
/// title, their description, their id or one of their labels, and no others.
pub proof fn search_finds_what_holds_the_text(
    entries: Seq<IssueView>,
    query: Seq<char>,
    x: IssueView,
)
    ensures
        listed(entries, false).filter(|i: IssueView| found_by(i, lowercased(query))).contains(x)
            <==> entries.contains(x) && x.status != Status::Tombstone && {
            let needle = lowercased(query);
            ||| stands_in(lowercased(x.title), needle)
            ||| x.description is Some && stands_in(lowercased(x.description->0), needle)
            ||| stands_in(lowercased(x.id), needle)
            ||| exists|l: Seq<char>| #[trigger]
                x.labels.contains(l) && stands_in(lowercased(l), needle)
        },
{
    let needle = lowercased(query);
    filtering_keeps_what_passes(
        listed(entries, false),
        |i: IssueView| found_by(i, lowercased(query)),
        x,
    );
    listing_leaves_out_the_deleted(entries, false, x);
    lemma_stands_in(lowercased(x.title), needle);
    lemma_stands_in(lowercased(x.id), needle);
    if x.description is Some {
        lemma_stands_in(lowercased(x.description->0), needle);
    }
    if exists|k: int|
        0 <= k < x.labels.len() && holds_text(lowercased(#[trigger] x.labels[k]), needle) {
        let k = choose|k: int|
            0 <= k < x.labels.len() && holds_text(lowercased(#[trigger] x.labels[k]), needle);
        lemma_stands_in(lowercased(x.labels[k]), needle);
        assert(x.labels.contains(x.labels[k]));
    }
    if exists|l: Seq<char>| #[trigger]
        x.labels.contains(l) && stands_in(lowercased(l), needle) {
        let l = choose|l: Seq<char>| #[trigger]
            x.labels.contains(l) && stands_in(lowercased(l), needle);
        lemma_stands_in(lowercased(l), needle);
        let k = choose|k: int| 0 <= k < x.labels.len() && x.labels[k] == l;
        assert(holds_text(lowercased(x.labels[k]), needle));
    }
}

} // verus!
