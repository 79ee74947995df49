//! What blocks what.
use crate::filter::{keep, Test};
use crate::issue::{blockers_of, DependencyType, DependencyView, Issue, IssueView, Status};
use vstd::prelude::*;

verus! {

/// The ids of the issues on which work remains.
pub open spec fn open_ids(issues: Seq<IssueView>) -> Seq<Seq<char>>
    decreases issues.len(),
{
    if issues.len() == 0 {
        seq![]
    } else if issues.last().status.spec_is_open() {
        open_ids(issues.drop_last()).push(issues.last().id)
    } else {
        open_ids(issues.drop_last())
    }
}

/// One of the blockers of the issue is among `ids`.
pub open spec fn is_held_up(issue: IssueView, ids: Seq<Seq<char>>) -> bool {
    exists|i: int|
        0 <= i < blockers_of(issue.dependencies).len() && ids.contains(
            #[trigger] blockers_of(issue.dependencies)[i],
        )
}

/// Work remains on the issue, and no open issue blocks it.
pub open spec fn is_ready(issue: IssueView, graph: Seq<IssueView>) -> bool {
    issue.status.spec_is_open() && !is_held_up(issue, open_ids(graph))
}

/// The blocking relation among some issues.
pub struct IssueGraph {
    open: Vec<String>,
}

struct Ready<'a> {
    open: &'a Vec<String>,
}

impl<'a, 'b> Test<&'b Issue> for Ready<'a> {
    closed spec fn holds(&self, v: IssueView) -> bool {
        v.status.spec_is_open() && !is_held_up(v, self.open.deep_view())
    }

    fn test(&self, x: &&'b Issue) -> (r: bool) {
        x.status.is_open() && !x.is_blocked_by(self.open)
    }
}

impl IssueGraph {
    /// The ids of the open issues in the graph.
    pub closed spec fn nodes(self) -> Seq<Seq<char>> {
        self.open.deep_view()
    }

    pub fn from_issues(issues: &Vec<&Issue>) -> (r: IssueGraph)
        ensures
            r.nodes() == open_ids(issues.deep_view()),
    {
        let ghost d = issues.deep_view();
        let mut open: Vec<String> = Vec::new();
        let mut i: usize = 0;
        assert(open.deep_view() =~= open_ids(d.take(0)));
        while i < issues.len()
            invariant
                i <= issues.len(),
                d == issues.deep_view(),
                open.deep_view() == open_ids(d.take(i as int)),
            decreases issues.len() - i,
        {
            let ghost before = open.deep_view();
            assert(d.take(i + 1).drop_last() =~= d.take(i as int));
            assert(d.take(i + 1).last() == issues@[i as int]@);
            if issues[i].status.is_open() {
                open.push(issues[i].id.clone());
                assert(open.deep_view() =~= before.push(issues@[i as int]@.id));
            }
            i += 1;
        }
        assert(d.take(d.len() as int) =~= d);
        IssueGraph { open }
    }

    /// The issues on which work can start.
    pub fn ready_issues<'a>(&self, issues: Vec<&'a Issue>) -> (r: Vec<&'a Issue>)
        ensures
            r.deep_view() == issues.deep_view().filter(
                |i: IssueView| i.status.spec_is_open() && !is_held_up(i, self.nodes()),
            ),
    {
        let c = Ready { open: &self.open };
        let r = keep(issues, &c);
        assert((|v: IssueView| c.holds(v)) =~= (|i: IssueView|
            i.status.spec_is_open() && !is_held_up(i, self.nodes())));
        r
    }
}

/// The open issues of a graph fall into those that are ready and those that an open issue
/// blocks.
pub proof fn open_is_ready_or_blocked(issue: IssueView, graph: Seq<IssueView>)
    requires
        issue.status.spec_is_open(),
    ensures
        is_ready(issue, graph) != is_held_up(issue, open_ids(graph)),
{
}

/// An issue without blocking dependencies is ready as long as it is open.
pub proof fn unblocked_issue_is_ready(issue: IssueView, graph: Seq<IssueView>)
    requires
        issue.status.spec_is_open(),
        blockers_of(issue.dependencies).len() == 0,
    ensures
        is_ready(issue, graph),
{
}

/// Work remains on `other`, and `issue` names it among the issues that block it.
pub open spec fn waits_for(issue: IssueView, other: IssueView) -> bool {
    &&& other.status != Status::Closed
    &&& other.status != Status::Tombstone
    &&& exists|d: int|
        0 <= d < issue.dependencies.len() && (#[trigger] issue.dependencies[d]).dep_type
            == DependencyType::Blocks && issue.dependencies[d].depends_on_id == other.id
}

pub proof fn lemma_blockers(deps: Seq<DependencyView>, id: Seq<char>)
    ensures
        blockers_of(deps).contains(id) <==> exists|d: int|
            0 <= d < deps.len() && (#[trigger] deps[d]).dep_type == DependencyType::Blocks
                && deps[d].depends_on_id == id,
    decreases deps.len(),
{
    if deps.len() > 0 {
        let front = deps.drop_last();
        let b = blockers_of(front);
        lemma_blockers(front, id);
        assert(deps[deps.len() - 1] == deps.last());
        if blockers_of(deps).contains(id) {
            let m = choose|m: int| 0 <= m < blockers_of(deps).len() && blockers_of(deps)[m] == id;
            if m < b.len() {
                assert(b[m] == id);
                let d = choose|d: int|
                    0 <= d < front.len() && (#[trigger] front[d]).dep_type
                        == DependencyType::Blocks && front[d].depends_on_id == id;
                assert(deps[d] == front[d]);
            }
        }
        if exists|d: int|
            0 <= d < deps.len() && (#[trigger] deps[d]).dep_type == DependencyType::Blocks
                && deps[d].depends_on_id == id {
            let d = choose|d: int|
                0 <= d < deps.len() && (#[trigger] deps[d]).dep_type == DependencyType::Blocks
                    && deps[d].depends_on_id == id;
            if d < front.len() {
                assert(front[d] == deps[d]);
                let m = choose|m: int| 0 <= m < b.len() && b[m] == id;
                assert(blockers_of(deps)[m] == id);
            } else {
                assert(blockers_of(deps)[b.len() as int] == id);
            }
        }
    }
}

pub proof fn lemma_open_ids(graph: Seq<IssueView>, id: Seq<char>)
    ensures
        open_ids(graph).contains(id) <==> exists|k: int|
            0 <= k < graph.len() && (#[trigger] graph[k]).id == id && graph[k].status
                != Status::Closed && graph[k].status != Status::Tombstone,
    decreases graph.len(),
{
    if graph.len() > 0 {
        let front = graph.drop_last();
        let b = open_ids(front);
        lemma_open_ids(front, id);
        assert(graph[graph.len() - 1] == graph.last());
        if open_ids(graph).contains(id) {
            let m = choose|m: int| 0 <= m < open_ids(graph).len() && open_ids(graph)[m] == id;
            if m < b.len() {
                assert(b[m] == id);
                let k = choose|k: int|
                    0 <= k < front.len() && (#[trigger] front[k]).id == id && front[k].status
                        != Status::Closed && front[k].status != Status::Tombstone;
                assert(graph[k] == front[k]);
            }
        }
        if exists|k: int|
            0 <= k < graph.len() && (#[trigger] graph[k]).id == id && graph[k].status
                != Status::Closed && graph[k].status != Status::Tombstone {
            let k = choose|k: int|
                0 <= k < graph.len() && (#[trigger] graph[k]).id == id && graph[k].status
                    != Status::Closed && graph[k].status != Status::Tombstone;
            if k < front.len() {
                assert(front[k] == graph[k]);
                let m = choose|m: int| 0 <= m < b.len() && b[m] == id;
                assert(open_ids(graph)[m] == id);
            } else {
                assert(open_ids(graph)[b.len() as int] == id);
            }
        }
    }
}

/// An issue is held up exactly where an issue on which work remains blocks it.
pub proof fn held_up_by_open_blockers(issue: IssueView, graph: Seq<IssueView>)
    ensures
        is_held_up(issue, open_ids(graph)) <==> exists|k: int|
            0 <= k < graph.len() && waits_for(issue, #[trigger] graph[k]),
{
    let deps = issue.dependencies;
    let b = blockers_of(deps);
    if is_held_up(issue, open_ids(graph)) {
        let i = choose|i: int| 0 <= i < b.len() && open_ids(graph).contains(#[trigger] b[i]);
        let id = b[i];
        lemma_blockers(deps, id);
        lemma_open_ids(graph, id);
        assert(b.contains(id));
        let k = choose|k: int|
            0 <= k < graph.len() && (#[trigger] graph[k]).id == id && graph[k].status
                != Status::Closed && graph[k].status != Status::Tombstone;
        assert(waits_for(issue, graph[k]));
    }
    if exists|k: int| 0 <= k < graph.len() && waits_for(issue, #[trigger] graph[k]) {
        let k = choose|k: int| 0 <= k < graph.len() && waits_for(issue, #[trigger] graph[k]);
        lemma_blockers(deps, graph[k].id);
        lemma_open_ids(graph, graph[k].id);
        let i = choose|i: int| 0 <= i < b.len() && b[i] == graph[k].id;
        assert(open_ids(graph).contains(b[i]));
    }
}

/// The work of a graph that is ready: neither closed nor deleted, and no issue of the graph on
/// which work remains blocks it.
pub proof fn ready_means_nothing_to_wait_for(issue: IssueView, graph: Seq<IssueView>)
    ensures
        is_ready(issue, graph) <==> issue.status != Status::Closed && issue.status
            != Status::Tombstone && forall|k: int|
            0 <= k < graph.len() ==> !waits_for(issue, #[trigger] graph[k]),
{
    held_up_by_open_blockers(issue, graph);
}

} // verus!
