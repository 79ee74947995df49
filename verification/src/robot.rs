//! What is told to programs that ask what to do next.
use crate::filter::filtering_keeps_what_passes;
use crate::graph::{is_ready, ready_means_nothing_to_wait_for, waits_for, IssueGraph};
use crate::issue::{Issue, IssueView, Status};
use crate::sort::{is_total, is_transitive, stable_sort, stable_sorted, Order};
use vstd::prelude::*;

verus! {

/// The more urgent issue comes first.
pub open spec fn more_urgent(a: IssueView, b: IssueView) -> bool {
    a.priority <= b.priority
}

struct Urgency;

impl<'a> Order<&'a Issue> for Urgency {
    closed spec fn le(&self, a: IssueView, b: IssueView) -> bool {
        more_urgent(a, b)
    }

    proof fn lawful(&self) {
    }

    fn at_most(&self, a: &&'a Issue, b: &&'a Issue) -> (r: bool) {
        a.priority <= b.priority
    }
}

/// Some issues, the most urgent first.
pub fn triage(issues: Vec<&Issue>) -> (r: Vec<&Issue>)
    ensures
        r.deep_view() == stable_sorted(
            issues.deep_view(),
            |a: IssueView, b: IssueView| more_urgent(a, b),
        ),
{
    let r = stable_sort(issues, &Urgency);
    assert((|a: IssueView, b: IssueView| more_urgent(a, b)) =~= (|a: IssueView, b: IssueView|
        <Urgency as Order<&Issue>>::le(&Urgency, a, b)));
    r
}

/// The place of the first of the most urgent issues.
pub open spec fn is_first_most_urgent(issues: Seq<IssueView>, k: int) -> bool {
    &&& 0 <= k < issues.len()
    &&& forall|i: int| 0 <= i < issues.len() ==> issues[k].priority <= (#[trigger] issues[i]).priority
    &&& forall|i: int| 0 <= i < k ==> issues[k].priority < (#[trigger] issues[i]).priority
}

/// The issues of a list on which work can start.
pub open spec fn ready_among(issues: Seq<IssueView>) -> Seq<IssueView> {
    issues.filter(|i: IssueView| is_ready(i, issues))
}

/// The issue to work on next: the first of the most urgent ones that are ready.
pub fn next_issue(issues: Vec<&Issue>) -> (r: Option<&Issue>)
    ensures
        match r {
            Some(i) => exists|k: int|
                #[trigger] is_first_most_urgent(ready_among(issues.deep_view()), k) && i@
                    == ready_among(issues.deep_view())[k],
            None => ready_among(issues.deep_view()).len() == 0,
        },
{
    let ghost d = issues.deep_view();
    let graph = IssueGraph::from_issues(&issues);
    let ready = graph.ready_issues(issues);
    let ghost v = ready.deep_view();
    proof {
        let by_nodes = |i: IssueView|
            i.status.spec_is_open() && !crate::graph::is_held_up(i, graph.nodes());
        let by_graph = |i: IssueView| is_ready(i, d);
        assert(by_nodes =~= by_graph);
    }
    assert(v.len() == ready@.len());
    if ready.len() == 0 {
        return None;
    }
    let mut best: usize = 0;
    let mut i: usize = 1;
    while i < ready.len()
        invariant
            best < i <= ready.len(),
            v == ready.deep_view(),
            forall|j: int| 0 <= j < i ==> v[best as int].priority <= (#[trigger] v[j]).priority,
            forall|j: int| 0 <= j < best ==> v[best as int].priority < (#[trigger] v[j]).priority,
        decreases ready.len() - i,
    {
        assert(v[i as int] == ready@[i as int]@);
        assert(v[best as int] == ready@[best as int]@);
        if ready[i].priority < ready[best].priority {
            best = i;
        }
        i += 1;
    }
    assert(v[best as int] == ready@[best as int]@);
    assert(v == ready_among(d));
    assert(is_first_most_urgent(v, best as int));
    Some(ready[best])
}

/// Law: the issue to work on next is the first ready one in the order of urgency.
pub proof fn next_is_first_in_triage(issues: Seq<IssueView>, k: int)
    requires
        is_first_most_urgent(issues, k),
    ensures
        stable_sorted(issues, |a: IssueView, b: IssueView| more_urgent(a, b))[0] == issues[k],
    decreases issues.len(),
{
    let le = |a: IssueView, b: IssueView| more_urgent(a, b);
    let front = issues.drop_last();
    let t = stable_sorted(front, le);
    let x = issues.last();
    crate::sort::sorting_keeps_items(front, le);
    if front.len() == 0 {
        assert(t =~= seq![]);
    } else if k == issues.len() - 1 {
        assert forall|i: int| 0 <= i < t.len() implies !le(#[trigger] t[i], x) by {
            crate::store::lemma_same_items(t, front, t[i]);
            let m = choose|m: int| 0 <= m < front.len() && front[m] == t[i];
            assert(issues[m] == t[i]);
        }
        lemma_goes_first(t, x, le);
    } else {
        assert forall|i: int| 0 <= i < front.len() implies front[k].priority <= (
        #[trigger] front[i]).priority by {
            assert(issues[i] == front[i]);
        }
        assert forall|i: int| 0 <= i < k implies front[k].priority < (
        #[trigger] front[i]).priority by {
            assert(issues[i] == front[i]);
        }
        next_is_first_in_triage(front, k);
        assert(le(t[0], x)) by {
            assert(t[0] == issues[k]);
            assert(x == issues[issues.len() - 1]);
        }
        lemma_stays_first(t, x, le);
    }
}

/// The issue to work on next is one of the issues, neither closed nor deleted, waits for none on
/// which work remains, and is as urgent as any other such issue. There is none only where no
/// issue can be started.
pub proof fn next_issue_can_be_started(issues: Seq<IssueView>, k: int, x: IssueView)
    ensures
        ({
            let can_start = |y: IssueView|
                issues.contains(y) && y.status != Status::Closed && y.status != Status::Tombstone
                    && forall|j: int| 0 <= j < issues.len() ==> !waits_for(y, #[trigger] issues[j]);
            let ready = ready_among(issues);
            &&& ready.contains(x) <==> can_start(x)
            &&& is_first_most_urgent(ready, k) ==> can_start(ready[k]) && (can_start(x)
                ==> ready[k].priority <= x.priority)
            &&& ready.len() == 0 ==> !can_start(x)
        }),
{
    let ready = ready_among(issues);
    let f = |i: IssueView| is_ready(i, issues);
    filtering_keeps_what_passes(issues, f, x);
    ready_means_nothing_to_wait_for(x, issues);
    if is_first_most_urgent(ready, k) {
        assert(ready.contains(ready[k]));
        filtering_keeps_what_passes(issues, f, ready[k]);
        ready_means_nothing_to_wait_for(ready[k], issues);
        if ready.contains(x) {
            let m = choose|m: int| 0 <= m < ready.len() && ready[m] == x;
            assert(ready[k].priority <= ready[m].priority);
        }
    }
}

/// Triage keeps every issue and puts the more urgent first.
pub proof fn triage_runs_by_priority(issues: Seq<IssueView>, x: IssueView)
    ensures
        ({
            let t = stable_sorted(issues, |a: IssueView, b: IssueView| more_urgent(a, b));
            &&& t.contains(x) <==> issues.contains(x)
            &&& t.len() == issues.len()
            &&& forall|i: int, j: int|
                0 <= i < j < t.len() ==> (#[trigger] t[i]).priority <= (#[trigger] t[j]).priority
        }),
{
    let le = |a: IssueView, b: IssueView| more_urgent(a, b);
    let t = stable_sorted(issues, le);
    assert(is_total(le));
    assert(is_transitive(le));
    crate::sort::sorting_orders(issues, le);
    crate::sort::sorting_keeps_each(issues, le, x);
    crate::sort::sorting_keeps_items(issues, le);
    assert forall|i: int, j: int| 0 <= i < j < t.len() implies (#[trigger] t[i]).priority <= (
    #[trigger] t[j]).priority by {
        assert(le(t[i], t[j]));
    }
}

proof fn lemma_goes_first(
    s: Seq<IssueView>,
    x: IssueView,
    le: spec_fn(IssueView, IssueView) -> bool,
)
    ensures
        (forall|i: int| 0 <= i < s.len() ==> !le(#[trigger] s[i], x)) ==> crate::sort::inserted(
            s,
            x,
            le,
        ).len() > 0 && crate::sort::inserted(s, x, le)[0] == x,
    decreases s.len(),
{
    if s.len() > 0 {
        let front = s.drop_last();
        lemma_goes_first(front, x, le);
        if forall|i: int| 0 <= i < s.len() ==> !le(#[trigger] s[i], x) {
            assert(!le(s[s.len() - 1], x));
            assert forall|i: int| 0 <= i < front.len() implies !le(#[trigger] front[i], x) by {
                assert(front[i] == s[i]);
            }
        }
    }
}

proof fn lemma_stays_first(
    s: Seq<IssueView>,
    x: IssueView,
    le: spec_fn(IssueView, IssueView) -> bool,
)
    requires
        s.len() > 0,
        le(s[0], x),
    ensures
        crate::sort::inserted(s, x, le).len() > 0,
        crate::sort::inserted(s, x, le)[0] == s[0],
    decreases s.len(),
{
    if !le(s.last(), x) {
        let front = s.drop_last();
        if front.len() > 0 {
            assert(front[0] == s[0]);
            lemma_stays_first(front, x, le);
        } else {
            assert(s.last() == s[0]);
        }
    }
}

} // verus!
