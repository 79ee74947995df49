//! Finding issues: the filters and orders of a listing.
use crate::error::{Error, ErrorView};
use crate::filter::{cut, keep, limited, Test};
use crate::issue::{contains_text, DependencyView, Issue, IssueType, IssueView, Status};
use crate::sort::{is_total, is_transitive, reversed, stable_sort, stable_sorted, Order};
use crate::store::{
    listed, listed_open, listing_leaves_out_the_deleted, lookup, open_means_not_closed, Store,
};
use crate::text::{
    ascii_lower_char, ascii_lowered, begins_with, concat, contains, eq_ignore_ascii_case, holds_text,
    lemma_text_order, lowercased, same_text, starts_with, text_at_most, text_le,
    to_ascii_lowercase, to_lowercase, trim, trimmed,
};
use crate::time::Timestamp;
use vstd::prelude::*;

verus! {

// ---------------------------------------------------------------- descendants

/// The issue depends on `p` in some way.
pub open spec fn points_to(issue: IssueView, p: Seq<char>) -> bool {
    exists|d: int|
        0 <= d < issue.dependencies.len() && (#[trigger] issue.dependencies[d]).depends_on_id == p
}

/// The `k`th issue depends on `root`, over at most `n` issues in between.
pub open spec fn reaches(all: Seq<IssueView>, root: Seq<char>, k: int, n: nat) -> bool
    decreases n,
{
    points_to(all[k], root) || (n > 0 && exists|j: int|
        0 <= j < all.len() && #[trigger] points_to(all[k], all[j].id) && reaches(
            all,
            root,
            j,
            (n - 1) as nat,
        ))
}

pub open spec fn is_below(all: Seq<IssueView>, root: Seq<char>, k: int) -> bool {
    exists|n: nat| #[trigger] reaches(all, root, k, n)
}

/// An issue with that id depends on `root`, directly or over others.
pub open spec fn is_descendant(all: Seq<IssueView>, root: Seq<char>, id: Seq<char>) -> bool {
    exists|k: int| 0 <= k < all.len() && (#[trigger] all[k]).id == id && is_below(all, root, k)
}

spec fn unmarked(marks: Seq<bool>) -> nat
    decreases marks.len(),
{
    if marks.len() == 0 {
        0
    } else {
        unmarked(marks.drop_last()) + if marks.last() {
            0nat
        } else {
            1nat
        }
    }
}

proof fn lemma_unmarked_update(marks: Seq<bool>, k: int)
    requires
        0 <= k < marks.len(),
        !marks[k],
    ensures
        unmarked(marks.update(k, true)) + 1 == unmarked(marks),
    decreases marks.len(),
{
    let m = marks.update(k, true);
    if k == marks.len() - 1 {
        assert(m.drop_last() =~= marks.drop_last());
    } else {
        assert(m.drop_last() =~= marks.drop_last().update(k, true));
        lemma_unmarked_update(marks.drop_last(), k);
    }
}

pub(crate) fn depends_on_any(issue: &Issue, p: &str) -> (r: bool)
    ensures
        r == points_to(issue@, p@),
{
    let mut i: usize = 0;
    while i < issue.dependencies.len()
        invariant
            i <= issue.dependencies.len(),
            forall|j: int| 0 <= j < i ==> (#[trigger] issue@.dependencies[j]).depends_on_id != p@,
        decreases issue.dependencies.len() - i,
    {
        assert(issue@.dependencies[i as int] == issue.dependencies@[i as int]@);
        if same_text(&issue.dependencies[i].depends_on_id, p) {
            return true;
        }
        i += 1;
    }
    false
}

/// Marks the issues that depend on `parent` and queues those that were not marked.
fn mark_dependents(
    all: &Vec<&Issue>,
    parent: &str,
    marks: &mut Vec<bool>,
    queue: &mut Vec<usize>,
)
    requires
        old(marks).len() == all.len(),
    ensures
        final(marks).len() == all.len(),
        forall|k: int|
            0 <= k < all.len() ==> (#[trigger] final(marks)@[k] == (old(marks)@[k] || points_to(
                all.deep_view()[k],
                parent@,
            ))),
        final(queue)@.len() >= old(queue)@.len(),
        final(queue)@.take(old(queue)@.len() as int) == old(queue)@,
        forall|i: int|
            old(queue)@.len() <= i < final(queue)@.len() ==> (#[trigger] final(queue)@[i])
                < all.len() && final(marks)@[final(queue)@[i] as int],
        forall|k: int|
            0 <= k < all.len() && #[trigger] final(marks)@[k] && !old(marks)@[k] ==> final(queue)@.contains(
                k as usize,
            ),
        unmarked(final(marks)@) + final(queue)@.len() == unmarked(old(marks)@) + old(queue)@.len(),
{
    let ghost marks0 = marks@;
    let ghost queue0 = queue@;
    let ghost d = all.deep_view();
    let mut k: usize = 0;
    assert(queue@.take(queue0.len() as int) =~= queue0);
    while k < all.len()
        invariant
            k <= all.len(),
            d == all.deep_view(),
            marks.len() == all.len(),
            marks0.len() == all.len(),
            forall|i: int|
                0 <= i < k ==> (#[trigger] marks@[i] == (marks0[i] || points_to(d[i], parent@))),
            forall|i: int| k <= i < all.len() ==> #[trigger] marks@[i] == marks0[i],
            queue@.len() >= queue0.len(),
            queue@.take(queue0.len() as int) == queue0,
            forall|i: int|
                queue0.len() <= i < queue@.len() ==> (#[trigger] queue@[i]) < all.len()
                    && marks@[queue@[i] as int],
            forall|i: int|
                0 <= i < all.len() && #[trigger] marks@[i] && !marks0[i] ==> queue@.contains(
                    i as usize,
                ),
            unmarked(marks@) + queue@.len() == unmarked(marks0) + queue0.len(),
        decreases all.len() - k,
    {
        assert(d[k as int] == all@[k as int]@);
        if !marks[k] && depends_on_any(all[k], parent) {
            proof {
                lemma_unmarked_update(marks@, k as int);
            }
            let ghost before = marks@;
            let ghost qbefore = queue@;
            marks.set(k, true);
            queue.push(k);
            assert(queue@.take(queue0.len() as int) =~= qbefore.take(queue0.len() as int));
            assert forall|i: int|
                queue0.len() <= i < queue@.len() implies (#[trigger] queue@[i]) < all.len()
                && marks@[queue@[i] as int] by {
                if i < qbefore.len() {
                    assert(queue@[i] == qbefore[i]);
                    assert(before[qbefore[i] as int]);
                }
            }
            assert forall|i: int|
                0 <= i < all.len() && #[trigger] marks@[i] && !marks0[i] implies queue@.contains(
                i as usize,
            ) by {
                if i == k {
                    assert(queue@[qbefore.len() as int] == k);
                } else {
                    assert(before[i]);
                    assert(qbefore.contains(i as usize));
                    let m = choose|m: int| 0 <= m < qbefore.len() && qbefore[m] == i as usize;
                    assert(queue@[m] == i as usize);
                }
            }
        }
        k += 1;
    }
}

proof fn lemma_closed_marks(all: Seq<IssueView>, root: Seq<char>, marks: Seq<bool>, k: int, n: nat)
    requires
        marks.len() == all.len(),
        forall|i: int| 0 <= i < all.len() && points_to(all[i], root) ==> #[trigger] marks[i],
        forall|j: int, i: int|
            0 <= j < all.len() && 0 <= i < all.len() && #[trigger] marks[j] && points_to(
                all[i],
                all[j].id,
            ) ==> #[trigger] marks[i],
        0 <= k < all.len(),
        reaches(all, root, k, n),
    ensures
        marks[k],
    decreases n,
{
    if !points_to(all[k], root) {
        let j = choose|j: int|
            0 <= j < all.len() && #[trigger] points_to(all[k], all[j].id) && reaches(
                all,
                root,
                j,
                (n - 1) as nat,
            );
        lemma_closed_marks(all, root, marks, j, (n - 1) as nat);
        assert(marks[j]);
    }
}

spec fn is_marked_id(all: Seq<IssueView>, marks: Seq<bool>, id: Seq<char>) -> bool {
    exists|k: int| 0 <= k < all.len() && #[trigger] marks[k] && all[k].id == id
}

/// The ids of all issues that depend on `root`, directly or over others.
pub fn descendant_ids(all: &Vec<&Issue>, root: &str) -> (r: Vec<String>)
    ensures
        forall|id: Seq<char>| #[trigger]
            r.deep_view().contains(id) <==> is_descendant(all.deep_view(), root@, id),
{
    let ghost d = all.deep_view();
    let mut marks: Vec<bool> = Vec::new();
    let mut i: usize = 0;
    while i < all.len()
        invariant
            i <= all.len(),
            marks.len() == i,
            forall|j: int| 0 <= j < i ==> !#[trigger] marks@[j],
        decreases all.len() - i,
    {
        marks.push(false);
        i += 1;
    }
    let mut queue: Vec<usize> = Vec::new();
    mark_dependents(all, root, &mut marks, &mut queue);
    proof {
        assert forall|k: int| 0 <= k < all.len() && #[trigger] marks@[k] implies is_below(
            d,
            root@,
            k,
        ) by {
            assert(reaches(d, root@, k, 0));
        }
    }
    while queue.len() > 0
        invariant
            d == all.deep_view(),
            marks.len() == all.len(),
            forall|k: int|
                0 <= k < all.len() && #[trigger] marks@[k] ==> is_below(d, root@, k),
            forall|q: int|
                0 <= q < queue@.len() ==> (#[trigger] queue@[q]) < all.len()
                    && marks@[queue@[q] as int],
            forall|k: int| 0 <= k < all.len() && points_to(d[k], root@) ==> #[trigger] marks@[k],
            forall|j: int, k: int|
                0 <= j < all.len() && 0 <= k < all.len() && #[trigger] marks@[j]
                    && !queue@.contains(j as usize) && points_to(d[k], d[j].id)
                    ==> #[trigger] marks@[k],
        decreases unmarked(marks@) + queue@.len(),
    {
        let ghost queue0 = queue@;
        let ghost marks0 = marks@;
        match queue.pop() {
            Some(j) => {
                assert(queue0[queue0.len() - 1] == j);
                let ghost queue1 = queue@;
                assert(d[j as int] == all@[j as int]@);
                mark_dependents(all, &all[j].id, &mut marks, &mut queue);
                proof {
                    assert forall|q: int| 0 <= q < queue@.len() implies (#[trigger] queue@[q])
                        < all.len() && marks@[queue@[q] as int] by {
                        if q < queue1.len() {
                            assert(queue@.take(queue1.len() as int)[q] == queue1[q]);
                            assert(queue0[q] == queue1[q]);
                            assert(marks0[queue0[q] as int]);
                        }
                    }
                    assert forall|k: int| 0 <= k < all.len() && #[trigger] marks@[k] implies is_below(
                        d,
                        root@,
                        k,
                    ) by {
                        if !marks0[k] {
                            assert(points_to(d[k], d[j as int].id));
                            assert(marks0[j as int]);
                            let n = choose|n: nat| #[trigger] reaches(d, root@, j as int, n);
                            assert(reaches(d, root@, j as int, ((n + 1) - 1) as nat));
                            assert(reaches(d, root@, k, n + 1));
                        } else {
                            assert(is_below(d, root@, k));
                        }
                    }
                    assert forall|k: int|
                        0 <= k < all.len() && points_to(d[k], root@) implies #[trigger] marks@[k] by {
                        assert(marks0[k]);
                    }
                    assert forall|m: int, k: int|
                        0 <= m < all.len() && 0 <= k < all.len() && #[trigger] marks@[m]
                            && !queue@.contains(m as usize) && points_to(
                            d[k],
                            d[m].id,
                        ) implies #[trigger] marks@[k] by {
                        if m == j {
                        } else if marks0[m] {
                            assert(!queue0.contains(m as usize)) by {
                                if queue0.contains(m as usize) {
                                    let q = choose|q: int|
                                        0 <= q < queue0.len() && queue0[q] == m as usize;
                                    assert(q < queue1.len());
                                    assert(queue1[q] == m as usize);
                                    assert(queue@.take(queue1.len() as int)[q] == m as usize);
                                    assert(queue@[q] == m as usize);
                                }
                            }
                            assert(marks0[k]);
                        }
                    }
                }
            },
            None => {},
        }
    }
    let mut r: Vec<String> = Vec::new();
    let mut i: usize = 0;
    while i < all.len()
        invariant
            i <= all.len(),
            d == all.deep_view(),
            marks.len() == all.len(),
            forall|m: int| 0 <= m < r@.len() ==> is_marked_id(d, marks@, (#[trigger] r@[m])@),
            forall|k: int|
                0 <= k < i && #[trigger] marks@[k] ==> r.deep_view().contains(d[k].id),
        decreases all.len() - i,
    {
        let ghost before = r.deep_view();
        assert(d[i as int] == all@[i as int]@);
        if marks[i] {
            r.push(all[i].id.clone());
            assert(r.deep_view() =~= before.push(d[i as int].id));
            assert(r.deep_view()[before.len() as int] == d[i as int].id);
            assert forall|m: int| 0 <= m < r@.len() implies is_marked_id(
                d,
                marks@,
                (#[trigger] r@[m])@,
            ) by {
                if m == before.len() {
                    assert(marks@[i as int] && d[i as int].id == r@[m]@);
                } else {
                    assert(r@[m]@ == before[m]);
                }
            }
            assert forall|k: int| 0 <= k < i + 1 && #[trigger] marks@[k] implies r.deep_view().contains(
                d[k].id,
            ) by {
                if k < i {
                    let m = choose|m: int| 0 <= m < before.len() && before[m] == d[k].id;
                    assert(r.deep_view()[m] == d[k].id);
                }
            }
        }
        i += 1;
    }
    proof {
        assert forall|id: Seq<char>| #[trigger]
            r.deep_view().contains(id) <==> is_descendant(d, root@, id) by {
            if r.deep_view().contains(id) {
                let m = choose|m: int| 0 <= m < r.deep_view().len() && r.deep_view()[m] == id;
                assert(is_marked_id(d, marks@, r@[m]@));
                let k = choose|k: int|
                    0 <= k < d.len() && #[trigger] marks@[k] && d[k].id == r@[m]@;
                assert(d[k].id == id);
            }
            if is_descendant(d, root@, id) {
                let k = choose|k: int|
                    0 <= k < d.len() && (#[trigger] d[k]).id == id && is_below(d, root@, k);
                let n = choose|n: nat| #[trigger] reaches(d, root@, k, n);
                lemma_closed_marks(d, root@, marks@, k, n);
                assert(marks@[k]);
            }
        }
    }
    r
}

// ---------------------------------------------------------------------- order

/// By what a listing is sorted.
#[derive(Clone, Copy, Debug, PartialEq, Eq, Structural)]
pub enum SortKey {
    Priority,
    Created,
    Updated,
    Closed,
    Id,
    Status,
}

impl SortKey {
    /// The key that a lower-case text names.
    pub open spec fn named(s: Seq<char>) -> Option<SortKey> {
        if s == "priority"@ || s == "prio"@ || s == "p"@ {
            Some(SortKey::Priority)
        } else if s == "created"@ || s == "created_at"@ || s == "date"@ || s == "age"@ {
            Some(SortKey::Created)
        } else if s == "updated"@ || s == "updated_at"@ || s == "modified"@ {
            Some(SortKey::Updated)
        } else if s == "closed"@ || s == "closed_at"@ {
            Some(SortKey::Closed)
        } else if s == "id"@ {
            Some(SortKey::Id)
        } else if s == "status"@ {
            Some(SortKey::Status)
        } else {
            None
        }
    }

    pub open spec fn name(self) -> Seq<char> {
        match self {
            SortKey::Priority => "priority"@,
            SortKey::Created => "created"@,
            SortKey::Updated => "updated"@,
            SortKey::Closed => "closed"@,
            SortKey::Id => "id"@,
            SortKey::Status => "status"@,
        }
    }

    /// Reads a key from its name, whatever the case.
    pub fn parse(s: &str) -> (r: Result<SortKey, Error>)
        ensures
            match SortKey::named(ascii_lowered(s@)) {
                Some(k) => r == Ok::<SortKey, Error>(k),
                None => r is Err && r->Err_0@ == ErrorView::Other(
                    "invalid --sort value '"@ + ascii_lowered(s@)
                        + "'. Expected: priority, created, updated, closed, id, status"@,
                ),
            },
    {
        let lower = to_ascii_lowercase(s);
        let l = lower.as_str();
        if same_text(l, "priority") || same_text(l, "prio") || same_text(l, "p") {
            Ok(SortKey::Priority)
        } else if same_text(l, "created") || same_text(l, "created_at") || same_text(l, "date")
            || same_text(l, "age") {
            Ok(SortKey::Created)
        } else if same_text(l, "updated") || same_text(l, "updated_at") || same_text(
            l,
            "modified",
        ) {
            Ok(SortKey::Updated)
        } else if same_text(l, "closed") || same_text(l, "closed_at") {
            Ok(SortKey::Closed)
        } else if same_text(l, "id") {
            Ok(SortKey::Id)
        } else if same_text(l, "status") {
            Ok(SortKey::Status)
        } else {
            let mut m = "invalid --sort value '".to_owned();
            m.append(l);
            m.append("'. Expected: priority, created, updated, closed, id, status");
            Err(Error::Other(m))
        }
    }

    pub fn label(self) -> (r: &'static str)
        ensures
            r@ == self.name(),
    {
        match self {
            SortKey::Priority => "priority",
            SortKey::Created => "created",
            SortKey::Updated => "updated",
            SortKey::Closed => "closed",
            SortKey::Id => "id",
            SortKey::Status => "status",
        }
    }
}

/// An instant that is missing comes before any other.
pub open spec fn opt_time_le(a: Option<Timestamp>, b: Option<Timestamp>) -> bool {
    match (a, b) {
        (None, _) => true,
        (Some(_), None) => false,
        (Some(x), Some(y)) => x.le(y),
    }
}

/// `a` comes no later than `b` in a listing. Dates run from the newest; priority and state
/// run upwards and, where they are equal, from the newest issue.
pub open spec fn key_le(key: SortKey, a: IssueView, b: IssueView) -> bool {
    match key {
        SortKey::Priority => a.priority < b.priority || (a.priority == b.priority
            && b.created_at.le(a.created_at)),
        SortKey::Created => b.created_at.le(a.created_at),
        SortKey::Updated => b.updated_at.le(a.updated_at),
        SortKey::Closed => opt_time_le(b.closed_at, a.closed_at),
        SortKey::Id => text_le(a.id, b.id),
        SortKey::Status => a.status.rank() < b.status.rank() || (a.status.rank()
            == b.status.rank() && b.created_at.le(a.created_at)),
    }
}

fn opt_time_at_most(a: &Option<Timestamp>, b: &Option<Timestamp>) -> (r: bool)
    ensures
        r == opt_time_le(*a, *b),
{
    match (a, b) {
        (None, _) => true,
        (Some(_), None) => false,
        (Some(x), Some(y)) => x.at_most(y),
    }
}

impl<'a> Order<&'a Issue> for SortKey {
    open spec fn le(&self, a: IssueView, b: IssueView) -> bool {
        key_le(*self, a, b)
    }

    proof fn lawful(&self) {
        lemma_text_order();
    }

    fn at_most(&self, a: &&'a Issue, b: &&'a Issue) -> (r: bool) {
        match self {
            SortKey::Priority => a.priority < b.priority || (a.priority == b.priority
                && b.created_at.at_most(&a.created_at)),
            SortKey::Created => b.created_at.at_most(&a.created_at),
            SortKey::Updated => b.updated_at.at_most(&a.updated_at),
            SortKey::Closed => opt_time_at_most(&b.closed_at, &a.closed_at),
            SortKey::Id => text_at_most(&a.id, &b.id),
            SortKey::Status => a.status.order() < b.status.order() || (a.status.order()
                == b.status.order() && b.created_at.at_most(&a.created_at)),
        }
    }
}

// --------------------------------------------------------------------- listing

/// What a listing shows.
pub struct ListQuery {
    pub all: bool,
    pub epic: Option<String>,
    pub status: Option<Status>,
    pub issue_type: Option<IssueType>,
    pub priority: Option<u8>,
    pub search: Option<String>,
    pub labels: Vec<String>,
    /// Already resolved to a name.
    pub assignee: Option<String>,
    pub created_after: Option<Timestamp>,
    pub created_before: Option<Timestamp>,
    pub sort: SortKey,
    pub reverse: bool,
    pub limit: Option<usize>,
}

/// The issue is the epic or belongs to it: its id extends the epic's, or it depends on the
/// epic.
pub open spec fn is_in_epic(all: Seq<IssueView>, epic: Seq<char>, id: Seq<char>) -> bool {
    id == epic || begins_with(id, epic + "."@) || is_descendant(all, epic, id)
}

/// The text, in lower case, is in the title, the description or the id, in lower case.
pub open spec fn mentions(i: IssueView, needle: Seq<char>) -> bool {
    ||| holds_text(lowercased(i.title), needle)
    ||| i.description is Some && holds_text(lowercased(i.description->0), needle)
    ||| holds_text(lowercased(i.id), needle)
}

/// The issue has that label, whatever the case.
pub open spec fn has_label(i: IssueView, label: Seq<char>) -> bool {
    exists|k: int|
        0 <= k < i.labels.len() && ascii_lowered(#[trigger] i.labels[k]) == ascii_lowered(label)
}

pub open spec fn has_all_labels(i: IssueView, labels: Seq<Seq<char>>) -> bool {
    forall|k: int| 0 <= k < labels.len() ==> has_label(i, #[trigger] labels[k])
}

impl ListQuery {
    /// Whether an issue passes every filter. `all` are the issues that are not deleted.
    pub open spec fn admits(self, all: Seq<IssueView>, i: IssueView) -> bool {
        &&& self.epic is Some ==> is_in_epic(all, self.epic->0@, i.id)
        &&& self.status is Some ==> i.status == self.status->0
        &&& self.issue_type is Some ==> i.issue_type == self.issue_type->0
        &&& self.priority is Some ==> i.priority == self.priority->0
        &&& self.search is Some ==> mentions(i, lowercased(self.search->0@))
        &&& has_all_labels(i, self.labels.deep_view())
        &&& self.assignee is Some ==> i.assignee is Some && holds_text(
            lowercased(i.assignee->0),
            lowercased(self.assignee->0@),
        )
        &&& self.created_after is Some ==> self.created_after->0.le(i.created_at)
        &&& self.created_before is Some ==> i.created_at.le(self.created_before->0)
    }

    /// The issues among which is searched: the open ones, or all that are not deleted where
    /// closed ones may be meant.
    pub open spec fn candidates(self, entries: Seq<IssueView>) -> Seq<IssueView> {
        if self.all || self.status is Some {
            listed(entries, false)
        } else {
            listed_open(entries)
        }
    }

    /// The issues that a listing shows, in order.
    pub open spec fn result(self, entries: Seq<IssueView>) -> Seq<IssueView> {
        let found = self.candidates(entries).filter(
            |i: IssueView| self.admits(listed(entries, false), i),
        );
        let sorted = stable_sorted(found, |a: IssueView, b: IssueView| key_le(self.sort, a, b));
        limited(
            if self.reverse {
                sorted.reverse()
            } else {
                sorted
            },
            self.limit,
        )
    }
}

struct ListTest<'q> {
    query: &'q ListQuery,
    below: Vec<String>,
    search: Option<String>,
    assignee: Option<String>,
    all: Ghost<Seq<IssueView>>,
}

impl<'q> ListTest<'q> {
    spec fn fits(self) -> bool {
        &&& self.query.search is Some <==> self.search is Some
        &&& self.search is Some ==> self.search->0@ == lowercased(self.query.search->0@)
        &&& self.query.assignee is Some <==> self.assignee is Some
        &&& self.assignee is Some ==> self.assignee->0@ == lowercased(self.query.assignee->0@)
        &&& self.query.epic is Some ==> forall|id: Seq<char>| #[trigger]
            self.below.deep_view().contains(id) <==> is_descendant(
                self.all@,
                self.query.epic->0@,
                id,
            )
    }
}

fn label_is_on(issue: &Issue, label: &str) -> (r: bool)
    ensures
        r == has_label(issue@, label@),
{
    let mut i: usize = 0;
    while i < issue.labels.len()
        invariant
            i <= issue.labels.len(),
            forall|j: int|
                0 <= j < i ==> ascii_lowered(#[trigger] issue@.labels[j]) != ascii_lowered(label@),
        decreases issue.labels.len() - i,
    {
        assert(issue@.labels[i as int] == issue.labels@[i as int]@);
        if eq_ignore_ascii_case(&issue.labels[i], label) {
            return true;
        }
        i += 1;
    }
    false
}

fn labels_are_on(issue: &Issue, labels: &Vec<String>) -> (r: bool)
    ensures
        r == has_all_labels(issue@, labels.deep_view()),
{
    let mut i: usize = 0;
    while i < labels.len()
        invariant
            i <= labels.len(),
            forall|j: int| 0 <= j < i ==> has_label(issue@, #[trigger] labels.deep_view()[j]),
        decreases labels.len() - i,
    {
        assert(labels.deep_view()[i as int] == labels@[i as int]@);
        if !label_is_on(issue, &labels[i]) {
            return false;
        }
        i += 1;
    }
    true
}

/// Whether an issue mentions a text that is in lower case already.
pub fn issue_mentions(issue: &Issue, needle: &str) -> (r: bool)
    ensures
        r == mentions(issue@, needle@),
{
    contains(&to_lowercase(&issue.title), needle) || (match &issue.description {
        Some(d) => contains(&to_lowercase(d), needle),
        None => false,
    }) || contains(&to_lowercase(&issue.id), needle)
}

impl<'q, 'a> Test<&'a Issue> for ListTest<'q> {
    closed spec fn holds(&self, v: IssueView) -> bool {
        &&& self.query.epic is Some ==> v.id == self.query.epic->0@ || begins_with(
            v.id,
            self.query.epic->0@ + "."@,
        ) || self.below.deep_view().contains(v.id)
        &&& self.query.status is Some ==> v.status == self.query.status->0
        &&& self.query.issue_type is Some ==> v.issue_type == self.query.issue_type->0
        &&& self.query.priority is Some ==> v.priority == self.query.priority->0
        &&& self.search is Some ==> mentions(v, self.search->0@)
        &&& has_all_labels(v, self.query.labels.deep_view())
        &&& self.assignee is Some ==> v.assignee is Some && holds_text(
            lowercased(v.assignee->0),
            self.assignee->0@,
        )
        &&& self.query.created_after is Some ==> self.query.created_after->0.le(v.created_at)
        &&& self.query.created_before is Some ==> v.created_at.le(self.query.created_before->0)
    }

    fn test(&self, x: &&'a Issue) -> (r: bool) {
        let q = self.query;
        match &q.epic {
            Some(e) => {
                let dotted = concat(e, ".");
                if !(same_text(&x.id, e) || starts_with(&x.id, &dotted) || contains_text(
                    &self.below,
                    &x.id,
                )) {
                    return false;
                }
            },
            None => {},
        }
        match q.status {
            Some(s) => if x.status != s {
                return false;
            },
            None => {},
        }
        match q.issue_type {
            Some(t) => if x.issue_type != t {
                return false;
            },
            None => {},
        }
        match q.priority {
            Some(p) => if x.priority != p {
                return false;
            },
            None => {},
        }
        match &self.search {
            Some(n) => if !issue_mentions(x, n) {
                return false;
            },
            None => {},
        }
        if !labels_are_on(x, &q.labels) {
            return false;
        }
        match &self.assignee {
            Some(a) => match &x.assignee {
                Some(ia) => if !contains(&to_lowercase(ia), a) {
                    return false;
                },
                None => return false,
            },
            None => {},
        }
        match &q.created_after {
            Some(t) => if !t.at_most(&x.created_at) {
                return false;
            },
            None => {},
        }
        match &q.created_before {
            Some(t) => if !x.created_at.at_most(t) {
                return false;
            },
            None => {},
        }
        true
    }
}

fn lower_opt(s: &Option<String>) -> (r: Option<String>)
    ensures
        match s {
            Some(x) => r is Some && r->0@ == lowercased(x@),
            None => r is None,
        },
{
    match s {
        Some(x) => Some(to_lowercase(x)),
        None => None,
    }
}

/// The issues that a listing shows, in order.
pub fn list_issues<'s>(store: &'s Store, query: &ListQuery) -> (r: Vec<&'s Issue>)
    ensures
        r.deep_view() == query.result(store.entries()),
{
    let ghost entries = store.entries();
    let all = store.list(false);
    let below = match &query.epic {
        Some(e) => descendant_ids(&all, e),
        None => Vec::new(),
    };
    let found = if query.all || query.status.is_some() {
        store.list(false)
    } else {
        store.list_open()
    };
    let t = ListTest {
        query,
        below,
        search: lower_opt(&query.search),
        assignee: lower_opt(&query.assignee),
        all: Ghost(all.deep_view()),
    };
    assert(t.fits());
    let kept = keep(found, &t);
    proof {
        assert forall|v: IssueView| #[trigger] t.holds(v) == query.admits(
            listed(entries, false),
            v,
        ) by {
            if query.epic is Some {
                assert(t.below.deep_view().contains(v.id) <==> is_descendant(
                    listed(entries, false),
                    query.epic->0@,
                    v.id,
                ));
            }
        }
        assert((|v: IssueView| t.holds(v)) =~= (|i: IssueView|
            query.admits(listed(entries, false), i)));
        assert((|a: IssueView, b: IssueView| key_le(query.sort, a, b)) =~= (|
            a: IssueView,
            b: IssueView,
        | <SortKey as Order<&Issue>>::le(&query.sort, a, b)));
    }
    let sorted = stable_sort(kept, &query.sort);
    let turned = if query.reverse {
        reversed(sorted)
    } else {
        sorted
    };
    cut(turned, query.limit)
}

// ------------------------------------------------------------------- arguments

/// What the user asked of a listing. Dates are as they were read.
pub struct ListArgs {
    pub status: Option<String>,
    pub issue_type: Option<String>,
    pub priority: Option<u8>,
    pub search: Option<String>,
    pub epic: Option<String>,
    pub all: bool,
    pub limit: Option<usize>,
    pub labels: Vec<String>,
    pub assignee: Option<String>,
    pub created_after: Option<Result<Timestamp, Error>>,
    pub created_before: Option<Result<Timestamp, Error>>,
    pub sort: String,
    pub reverse: bool,
}

impl ListArgs {
    /// The first thing that is wrong with the request.
    pub open spec fn problem(self, entries: Seq<IssueView>) -> Option<ErrorView> {
        if SortKey::named(ascii_lowered(self.sort@)) is None {
            Some(
                ErrorView::Other(
                    "invalid --sort value '"@ + ascii_lowered(self.sort@)
                        + "'. Expected: priority, created, updated, closed, id, status"@,
                ),
            )
        } else if self.epic is Some && lookup(entries, self.epic->0@) is None {
            Some(ErrorView::Other("Epic not found: "@ + self.epic->0@))
        } else if self.status is Some && Status::parsed(self.status->0@) is None {
            Some(ErrorView::Other("invalid status: "@ + self.status->0@))
        } else if self.issue_type is Some && IssueType::parsed(self.issue_type->0@) is None {
            Some(ErrorView::Other("invalid issue type: "@ + self.issue_type->0@))
        } else if self.created_after is Some && self.created_after->0 is Err {
            Some(self.created_after->0->Err_0@)
        } else if self.created_before is Some && self.created_before->0 is Err {
            Some(self.created_before->0->Err_0@)
        } else {
            None
        }
    }

    /// The query is what was asked.
    pub open spec fn asks(self, q: ListQuery) -> bool {
        &&& q.all == self.all
        &&& q.epic == self.epic
        &&& q.status == (match self.status {
            Some(s) => Status::parsed(s@),
            None => None,
        })
        &&& q.issue_type == (match self.issue_type {
            Some(s) => IssueType::parsed(s@),
            None => None,
        })
        &&& q.priority == self.priority
        &&& q.search == self.search
        &&& q.labels == self.labels
        &&& q.assignee == self.assignee
        &&& q.created_after == (match self.created_after {
            Some(Ok(t)) => Some(t),
            _ => None,
        })
        &&& q.created_before == (match self.created_before {
            Some(Ok(t)) => Some(t),
            _ => None,
        })
        &&& Some(q.sort) == SortKey::named(ascii_lowered(self.sort@))
        &&& q.reverse == self.reverse
        &&& q.limit == self.limit
    }

    /// Checks a request and turns it into a query.
    pub fn to_query(self, store: &Store) -> (r: Result<ListQuery, Error>)
        ensures
            match self.problem(store.entries()) {
                Some(e) => r is Err && r->Err_0@ == e,
                None => r is Ok && self.asks(r->Ok_0),
            },
    {
        let sort = match SortKey::parse(&self.sort) {
            Ok(k) => k,
            Err(e) => return Err(e),
        };
        match &self.epic {
            Some(e) => if store.get(e).is_none() {
                return Err(Error::Other(concat("Epic not found: ", e)));
            },
            None => {},
        }
        let status = match &self.status {
            Some(s) => match Status::parse(s) {
                Ok(x) => Some(x),
                Err(e) => return Err(e),
            },
            None => None,
        };
        let issue_type = match &self.issue_type {
            Some(s) => match IssueType::parse(s) {
                Ok(x) => Some(x),
                Err(e) => return Err(e),
            },
            None => None,
        };
        let created_after = match self.created_after {
            Some(Ok(t)) => Some(t),
            Some(Err(e)) => return Err(e),
            None => None,
        };
        let created_before = match self.created_before {
            Some(Ok(t)) => Some(t),
            Some(Err(e)) => return Err(e),
            None => None,
        };
        Ok(
            ListQuery {
                all: self.all,
                epic: self.epic,
                status,
                issue_type,
                priority: self.priority,
                search: self.search,
                labels: self.labels,
                assignee: self.assignee,
                created_after,
                created_before,
                sort,
                reverse: self.reverse,
                limit: self.limit,
            },
        )
    }
}

/// The name that is meant by an assignee: for `me` the name from Git, else that of the user,
/// else `me` itself.
pub open spec fn assignee_name(
    assignee: Seq<char>,
    git_name: Option<Seq<char>>,
    user: Option<Seq<char>>,
) -> Seq<char> {
    if ascii_lowered(assignee) == ascii_lowered("me"@) {
        match git_name {
            Some(n) if trimmed(n).len() > 0 => trimmed(n),
            _ => match user {
                Some(u) => u,
                None => "me"@,
            },
        }
    } else {
        assignee
    }
}

/// Resolves an assignee. `git_name` is what Git printed for the user's name, if it did.
pub fn resolve_assignee(assignee: &str, git_name: Option<String>, user: Option<String>) -> (r:
    String)
    ensures
        r@ == assignee_name(assignee@, git_name.deep_view(), user.deep_view()),
{
    if eq_ignore_ascii_case(assignee, "me") {
        match &git_name {
            Some(n) => {
                let name = trim(n);
                if !name.as_str().is_empty() {
                    return name;
                }
            },
            None => {},
        }
        match user {
            Some(u) => u,
            None => "me".to_owned(),
        }
    } else {
        assignee.to_owned()
    }
}

// ------------------------------------------------------------------------- laws

/// Everything that a listing shows passes its filters and is in the store, closed issues are
/// shown only where all or a state is asked for, and no more is shown than the limit says.
pub proof fn listing_shows_only_matches(query: ListQuery, entries: Seq<IssueView>, k: int)
    requires
        0 <= k < query.result(entries).len(),
    ensures
        query.admits(listed(entries, false), query.result(entries)[k]),
        entries.contains(query.result(entries)[k]),
        query.result(entries)[k].status != Status::Tombstone,
        query.all || query.status is Some || query.result(entries)[k].status.spec_is_open(),
        query.limit is Some ==> query.result(entries).len() <= query.limit->0,
{
    broadcast use vstd::seq_lib::group_filter_ensures;

    let all = listed(entries, false);
    let f = |i: IssueView| query.admits(all, i);
    let cand = query.candidates(entries);
    let found = cand.filter(f);
    let le = |a: IssueView, b: IssueView| key_le(query.sort, a, b);
    let sorted = stable_sorted(found, le);
    let x = query.result(entries)[k];
    crate::sort::sorting_keeps_items(found, le);
    let turned = if query.reverse {
        sorted.reverse()
    } else {
        sorted
    };
    assert(turned[k] == x);
    assert(sorted.contains(x)) by {
        if query.reverse {
            assert(sorted[sorted.len() - 1 - k] == x);
        } else {
            assert(sorted[k] == x);
        }
    }
    crate::store::lemma_same_items(sorted, found, x);
    let m = choose|m: int| 0 <= m < found.len() && found[m] == x;
    assert(f(found[m]));
    lemma_filter_from(cand, f, m);
    let c = choose|c: int| 0 <= c < cand.len() && cand[c] == x;
    if query.all || query.status is Some {
        let include_tombstones = false;
        let g = |i: IssueView| include_tombstones || i.status != Status::Tombstone;
        assert(cand == entries.filter(g));
        lemma_filter_from(entries, g, c);
        assert(g(entries.filter(g)[c]));
    } else {
        let g = |i: IssueView| i.status.spec_is_open();
        lemma_filter_from(entries, g, c);
        assert(g(entries.filter(g)[c]));
    }
}

/// What a filter keeps was there.
pub proof fn lemma_filter_from<V>(s: Seq<V>, f: spec_fn(V) -> bool, m: int)
    requires
        0 <= m < s.filter(f).len(),
    ensures
        s.contains(s.filter(f)[m]),
    decreases s.len(),
{
    reveal(Seq::filter);
    if s.len() > 0 {
        let front = s.drop_last();
        if m < front.filter(f).len() {
            lemma_filter_from(front, f, m);
            let x = s.filter(f)[m];
            let k = choose|k: int| 0 <= k < front.len() && front[k] == x;
            assert(s[k] == x);
        } else {
            assert(s[s.len() - 1] == s.filter(f)[m]);
        }
    }
}

/// Without a limit nothing that passes the filters is left out.
pub proof fn listing_misses_nothing(query: ListQuery, entries: Seq<IssueView>, k: int)
    requires
        query.limit is None,
        0 <= k < query.candidates(entries).len(),
        query.admits(listed(entries, false), query.candidates(entries)[k]),
    ensures
        query.result(entries).contains(query.candidates(entries)[k]),
{
    broadcast use vstd::seq_lib::group_filter_ensures;

    let all = listed(entries, false);
    let f = |i: IssueView| query.admits(all, i);
    let cand = query.candidates(entries);
    let x = cand[k];
    let found = cand.filter(f);
    assert(f(cand[k]));
    assert(found.contains(x));
    let le = |a: IssueView, b: IssueView| key_le(query.sort, a, b);
    let sorted = stable_sorted(found, le);
    crate::sort::sorting_keeps_items(found, le);
    crate::store::lemma_same_items(found, sorted, x);
    let m = choose|m: int| 0 <= m < sorted.len() && sorted[m] == x;
    if query.reverse {
        assert(sorted.reverse()[sorted.len() - 1 - m] == x);
    }
}

/// A listing that is not reversed runs in the order of its key.
pub proof fn listing_is_in_order(query: ListQuery, entries: Seq<IssueView>, i: int, j: int)
    requires
        !query.reverse,
        0 <= i < j < query.result(entries).len(),
    ensures
        key_le(query.sort, query.result(entries)[i], query.result(entries)[j]),
{
    let all = listed(entries, false);
    let found = query.candidates(entries).filter(|x: IssueView| query.admits(all, x));
    let le = |a: IssueView, b: IssueView| key_le(query.sort, a, b);
    lemma_text_order();
    assert(is_total(le));
    assert(is_transitive(le));
    crate::sort::sorting_orders(found, le);
    let sorted = stable_sorted(found, le);
    assert(le(sorted[i], sorted[j]));
}

/// One of the dependencies of the issue is on `id`.
pub open spec fn links_to(issue: IssueView, id: Seq<char>) -> bool {
    exists|d: DependencyView| #[trigger] issue.dependencies.contains(d) && d.depends_on_id == id
}

proof fn lemma_links_to(issue: IssueView, id: Seq<char>)
    ensures
        links_to(issue, id) <==> points_to(issue, id),
{
    let deps = issue.dependencies;
    if links_to(issue, id) {
        let d = choose|d: DependencyView| #[trigger] deps.contains(d) && d.depends_on_id == id;
        let k = choose|k: int| 0 <= k < deps.len() && deps[k] == d;
        assert(deps[k].depends_on_id == id);
    }
    if points_to(issue, id) {
        let k = choose|k: int| 0 <= k < deps.len() && (#[trigger] deps[k]).depends_on_id == id;
        assert(deps.contains(deps[k]));
    }
}

/// A chain of dependencies from an issue to `root`: each issue on it depends on the next, and
/// the last on `root`.
pub open spec fn leads_to(all: Seq<IssueView>, chain: Seq<IssueView>, root: Seq<char>) -> bool {
    &&& chain.len() > 0
    &&& forall|i: int| 0 <= i < chain.len() ==> all.contains(#[trigger] chain[i])
    &&& forall|i: int, j: int|
        0 <= i && j == i + 1 && j < chain.len() ==> links_to(
            #[trigger] chain[i],
            (#[trigger] chain[j]).id,
        )
    &&& links_to(chain.last(), root)
}

proof fn lemma_chain_of(all: Seq<IssueView>, root: Seq<char>, k: int, n: nat) -> (chain: Seq<
    IssueView,
>)
    requires
        0 <= k < all.len(),
        reaches(all, root, k, n),
    ensures
        leads_to(all, chain, root),
        chain[0] == all[k],
    decreases n,
{
    if points_to(all[k], root) {
        lemma_links_to(all[k], root);
        seq![all[k]]
    } else {
        let j = choose|j: int|
            0 <= j < all.len() && #[trigger] points_to(all[k], all[j].id) && reaches(
                all,
                root,
                j,
                (n - 1) as nat,
            );
        let rest = lemma_chain_of(all, root, j, (n - 1) as nat);
        lemma_links_to(all[k], all[j].id);
        let chain = seq![all[k]] + rest;
        assert forall|i: int| 0 <= i < chain.len() implies all.contains(#[trigger] chain[i]) by {
            if i > 0 {
                assert(chain[i] == rest[i - 1]);
            }
        }
        assert forall|i: int, m: int| 0 <= i && m == i + 1 && m < chain.len() implies links_to(
            #[trigger] chain[i],
            (#[trigger] chain[m]).id,
        ) by {
            assert(chain[m] == rest[m - 1]);
            if i > 0 {
                assert(chain[i] == rest[i - 1]);
            }
        }
        assert(chain.last() == rest.last());
        chain
    }
}

proof fn lemma_chain_reaches(all: Seq<IssueView>, root: Seq<char>, chain: Seq<IssueView>, k: int)
    requires
        leads_to(all, chain, root),
        0 <= k < all.len(),
        all[k] == chain[0],
    ensures
        reaches(all, root, k, (chain.len() - 1) as nat),
    decreases chain.len(),
{
    if chain.len() == 1 {
        lemma_links_to(all[k], root);
    } else {
        let rest = chain.drop_first();
        lemma_links_to(all[k], chain[1].id);
        assert(all.contains(chain[1]));
        let j = choose|j: int| 0 <= j < all.len() && all[j] == chain[1];
        assert forall|i: int| 0 <= i < rest.len() implies all.contains(#[trigger] rest[i]) by {
            assert(rest[i] == chain[i + 1]);
        }
        assert forall|i: int, m: int| 0 <= i && m == i + 1 && m < rest.len() implies links_to(
            #[trigger] rest[i],
            (#[trigger] rest[m]).id,
        ) by {
            assert(rest[i] == chain[i + 1]);
            assert(rest[m] == chain[m + 1]);
        }
        assert(rest.last() == chain.last());
        lemma_chain_reaches(all, root, rest, j);
        assert(points_to(all[k], all[j].id));
    }
}

/// An issue descends from another exactly where a chain of dependencies leads from it to the
/// other.
pub proof fn descendants_are_linked(all: Seq<IssueView>, root: Seq<char>, id: Seq<char>)
    ensures
        is_descendant(all, root, id) <==> exists|chain: Seq<IssueView>| #[trigger]
            leads_to(all, chain, root) && chain[0].id == id,
{
    if is_descendant(all, root, id) {
        let k = choose|k: int|
            0 <= k < all.len() && (#[trigger] all[k]).id == id && is_below(all, root, k);
        let n = choose|n: nat| #[trigger] reaches(all, root, k, n);
        let chain = lemma_chain_of(all, root, k, n);
        assert(leads_to(all, chain, root) && chain[0].id == id);
    }
    if exists|chain: Seq<IssueView>| #[trigger]
        leads_to(all, chain, root) && chain[0].id == id {
        let chain = choose|chain: Seq<IssueView>| #[trigger]
            leads_to(all, chain, root) && chain[0].id == id;
        assert(all.contains(chain[0]));
        let k = choose|k: int| 0 <= k < all.len() && all[k] == chain[0];
        lemma_chain_reaches(all, root, chain, k);
        assert(is_below(all, root, k));
    }
}

/// `part` stands somewhere in `whole`.
pub open spec fn stands_in(whole: Seq<char>, part: Seq<char>) -> bool {
    exists|before: Seq<char>, after: Seq<char>| whole == #[trigger] (before + part + after)
}

pub proof fn lemma_stands_in(whole: Seq<char>, part: Seq<char>)
    ensures
        holds_text(whole, part) <==> stands_in(whole, part),
{
    if holds_text(whole, part) {
        let i = choose|i: int|
            0 <= i <= whole.len() - part.len() && #[trigger] whole.subrange(i, i + part.len())
                == part;
        let before = whole.take(i);
        let after = whole.skip(i + part.len());
        assert(whole =~= before + part + after) by {
            assert forall|k: int| 0 <= k < whole.len() implies whole[k] == (before + part
                + after)[k] by {
                if i <= k < i + part.len() {
                    assert(whole.subrange(i, i + part.len())[k - i] == whole[k]);
                }
            }
        }
    }
    if stands_in(whole, part) {
        let (before, after) = choose|before: Seq<char>, after: Seq<char>|
            whole == #[trigger] (before + part + after);
        let i = before.len() as int;
        assert(whole.subrange(i, i + part.len()) =~= part);
    }
}

/// One of the issue's labels is this one, but for the case of ASCII letters.
pub open spec fn carries(x: IssueView, label: Seq<char>) -> bool {
    exists|own: Seq<char>| #[trigger]
        x.labels.contains(own) && own.len() == label.len() && forall|k: int|
            0 <= k < own.len() ==> ascii_lower_char(#[trigger] own[k]) == ascii_lower_char(label[k])
}

proof fn lemma_carries(x: IssueView, label: Seq<char>)
    ensures
        carries(x, label) <==> has_label(x, label),
{
    if has_label(x, label) {
        let k = choose|k: int|
            0 <= k < x.labels.len() && ascii_lowered(#[trigger] x.labels[k]) == ascii_lowered(label);
        let own = x.labels[k];
        assert(x.labels.contains(own));
        assert(ascii_lowered(own).len() == ascii_lowered(label).len());
        assert forall|m: int| 0 <= m < own.len() implies ascii_lower_char(#[trigger] own[m])
            == ascii_lower_char(label[m]) by {
            assert(ascii_lowered(own)[m] == ascii_lowered(label)[m]);
        }
    }
    if carries(x, label) {
        let own = choose|own: Seq<char>| #[trigger]
            x.labels.contains(own) && own.len() == label.len() && forall|k: int|
                0 <= k < own.len() ==> ascii_lower_char(#[trigger] own[k]) == ascii_lower_char(
                    label[k],
                );
        assert(ascii_lowered(own) =~= ascii_lowered(label));
        let k = choose|k: int| 0 <= k < x.labels.len() && x.labels[k] == own;
        assert(ascii_lowered(x.labels[k]) == ascii_lowered(label));
    }
}

/// The issue is one that a listing is about, read from its fields: it is not deleted, it is
/// closed only where closed ones are meant, it is of the state, type and priority that were
/// asked for, the text that is looked for stands in its title, description or id, it has each
/// of the labels, it is the epic or belongs to it, it is assigned to someone whose name holds
/// the one that was asked for, and it was made in the time that was asked for.
pub open spec fn is_listed(query: ListQuery, entries: Seq<IssueView>, x: IssueView) -> bool {
    &&& x.status != Status::Tombstone
    &&& x.status == Status::Closed ==> query.all || query.status is Some
    &&& query.status matches Some(s) ==> x.status == s
    &&& query.issue_type matches Some(t) ==> x.issue_type == t
    &&& query.priority matches Some(p) ==> x.priority == p
    &&& query.search matches Some(text) ==> stands_in(lowercased(x.title), lowercased(text@)) || (
    x.description is Some && stands_in(lowercased(x.description->0), lowercased(text@)))
        || stands_in(lowercased(x.id), lowercased(text@))
    &&& forall|k: int|
        0 <= k < query.labels@.len() ==> carries(x, (#[trigger] query.labels@[k])@)
    &&& query.epic matches Some(epic) ==> x.id == epic@ || (exists|rest: Seq<char>|
        x.id == #[trigger] (epic@ + "."@ + rest)) || exists|chain: Seq<IssueView>| #[trigger]
        leads_to(listed(entries, false), chain, epic@) && chain[0].id == x.id
    &&& query.assignee matches Some(a) ==> x.assignee is Some && stands_in(
        lowercased(x.assignee->0),
        lowercased(a@),
    )
    &&& query.created_after matches Some(t) ==> !x.created_at.lt(t)
    &&& query.created_before matches Some(t) ==> !t.lt(x.created_at)
}

proof fn lemma_begins(s: Seq<char>, p: Seq<char>)
    ensures
        begins_with(s, p) <==> exists|rest: Seq<char>| s == #[trigger] (p + rest),
{
    if begins_with(s, p) {
        let rest = s.skip(p.len() as int);
        assert(s =~= p + rest);
    }
    if exists|rest: Seq<char>| s == #[trigger] (p + rest) {
        let rest = choose|rest: Seq<char>| s == #[trigger] (p + rest);
        assert(s.take(p.len() as int) =~= p);
    }
}

proof fn lemma_admits_is_listed(query: ListQuery, entries: Seq<IssueView>, x: IssueView)
    requires
        x.status != Status::Tombstone,
        query.all || query.status is Some || x.status.spec_is_open(),
    ensures
        query.admits(listed(entries, false), x) <==> is_listed(query, entries, x),
{
    let all = listed(entries, false);
    if query.search is Some {
        let n = lowercased(query.search->0@);
        lemma_stands_in(lowercased(x.title), n);
        lemma_stands_in(lowercased(x.id), n);
        if x.description is Some {
            lemma_stands_in(lowercased(x.description->0), n);
        }
    }
    if query.assignee is Some && x.assignee is Some {
        lemma_stands_in(lowercased(x.assignee->0), lowercased(query.assignee->0@));
    }
    if query.epic is Some {
        descendants_are_linked(all, query.epic->0@, x.id);
        lemma_begins(x.id, query.epic->0@ + "."@);
    }
    let labels = query.labels.deep_view();
    if has_all_labels(x, labels) {
        assert forall|k: int| 0 <= k < query.labels@.len() implies carries(
            x,
            (#[trigger] query.labels@[k])@,
        ) by {
            assert(labels[k] == query.labels@[k]@);
            lemma_carries(x, labels[k]);
        }
    } else {
        let k = choose|k: int| 0 <= k < labels.len() && !has_label(x, #[trigger] labels[k]);
        assert(labels[k] == query.labels@[k]@);
        lemma_carries(x, labels[k]);
        assert(!carries(x, query.labels@[k]@));
    }
}

/// A listing shows issues of the store that were asked for and nothing else; without a limit
/// it shows all of them.
pub proof fn listing_is_what_was_asked_for(
    query: ListQuery,
    entries: Seq<IssueView>,
    x: IssueView,
)
    ensures
        query.result(entries).contains(x) ==> entries.contains(x) && is_listed(query, entries, x),
        query.limit is None && entries.contains(x) && is_listed(query, entries, x)
            ==> query.result(entries).contains(x),
        query.limit matches Some(n) ==> query.result(entries).len() <= n,
{
    let all = listed(entries, false);
    let cand = query.candidates(entries);
    open_means_not_closed(entries, x);
    listing_leaves_out_the_deleted(entries, false, x);
    if query.result(entries).contains(x) {
        let k = choose|k: int|
            0 <= k < query.result(entries).len() && query.result(entries)[k] == x;
        listing_shows_only_matches(query, entries, k);
        lemma_admits_is_listed(query, entries, x);
    }
    if query.limit is None && entries.contains(x) && is_listed(query, entries, x) {
        lemma_admits_is_listed(query, entries, x);
        assert(cand.contains(x));
        let k = choose|k: int| 0 <= k < cand.len() && cand[k] == x;
        listing_misses_nothing(query, entries, k);
    }
}

/// Of two issues in a listing the first is, by its key, the one that is to come first: the more
/// urgent, the newer, the one changed or closed later, the one with the smaller id, or the one
/// in the earlier state. Reversed, it is the other way round.
pub open spec fn comes_first(key: SortKey, a: IssueView, b: IssueView) -> bool {
    match key {
        SortKey::Priority => a.priority <= b.priority && (a.priority == b.priority
            ==> !a.created_at.lt(b.created_at)),
        SortKey::Created => !a.created_at.lt(b.created_at),
        SortKey::Updated => !a.updated_at.lt(b.updated_at),
        SortKey::Closed => b.closed_at matches Some(t) ==> a.closed_at is Some
            && !a.closed_at->0.lt(t),
        SortKey::Id => !text_lt(b.id, a.id),
        SortKey::Status => {
            &&& b.status == Status::Open ==> a.status == Status::Open
            &&& b.status == Status::InProgress ==> a.status == Status::Open || a.status
                == Status::InProgress
            &&& b.status == Status::Blocked ==> a.status != Status::Closed && a.status
                != Status::Tombstone
            &&& b.status == Status::Closed ==> a.status != Status::Tombstone
            &&& a.status == b.status ==> !a.created_at.lt(b.created_at)
        },
    }
}

/// A text comes strictly before another: it is a beginning of it, or has the smaller
/// character where they first differ.
pub open spec fn text_lt(a: Seq<char>, b: Seq<char>) -> bool {
    exists|k: int|
        #![trigger a.take(k)]
        0 <= k <= a.len() && k < b.len() && a.take(k) == b.take(k) && (k == a.len() || (
        a[k] as u32) < (b[k] as u32))
}

pub proof fn lemma_text_le_or_lt(a: Seq<char>, b: Seq<char>)
    requires
        text_le(a, b),
    ensures
        !text_lt(b, a),
    decreases a.len(),
{
    if text_lt(b, a) {
        let k = choose|k: int|
            #![trigger b.take(k)]
            0 <= k <= b.len() && k < a.len() && b.take(k) == a.take(k) && (k == b.len() || (
            b[k] as u32) < (a[k] as u32));
        if k > 0 {
            assert(b.take(k)[0] == b[0]);
            assert(a.take(k)[0] == a[0]);
            let a1 = a.drop_first();
            let b1 = b.drop_first();
            assert(b1.take(k - 1) =~= b.take(k).drop_first());
            assert(a1.take(k - 1) =~= a.take(k).drop_first());
            assert(text_lt(b1, a1));
            lemma_text_le_or_lt(a1, b1);
        }
    }
}

/// A listing runs in the order of its key, or backwards where it is reversed.
pub proof fn listing_runs_by_its_key(query: ListQuery, entries: Seq<IssueView>, i: int, j: int)
    requires
        0 <= i < j < query.result(entries).len(),
    ensures
        !query.reverse ==> comes_first(
            query.sort,
            query.result(entries)[i],
            query.result(entries)[j],
        ),
        query.reverse ==> comes_first(
            query.sort,
            query.result(entries)[j],
            query.result(entries)[i],
        ),
{
    let all = listed(entries, false);
    let found = query.candidates(entries).filter(|x: IssueView| query.admits(all, x));
    let le = |a: IssueView, b: IssueView| key_le(query.sort, a, b);
    lemma_text_order();
    assert(is_total(le));
    assert(is_transitive(le));
    crate::sort::sorting_orders(found, le);
    let sorted = stable_sorted(found, le);
    let n = sorted.len() as int;
    let (a, b) = if query.reverse {
        (sorted[n - 1 - j], sorted[n - 1 - i])
    } else {
        (sorted[i], sorted[j])
    };
    if query.reverse {
        assert(sorted.reverse()[i] == b && sorted.reverse()[j] == a);
        assert(le(sorted[n - 1 - j], sorted[n - 1 - i]));
    } else {
        assert(le(sorted[i], sorted[j]));
    }
    if query.sort == SortKey::Id {
        lemma_text_le_or_lt(a.id, b.id);
    }
}

/// The name of a key names it, whatever the letter case is that it is read in.
pub proof fn sort_names_read_back(k: SortKey)
    ensures
        SortKey::named(k.name()) == Some(k),
        k.name() == (match k {
            SortKey::Priority => "priority"@,
            SortKey::Created => "created"@,
            SortKey::Updated => "updated"@,
            SortKey::Closed => "closed"@,
            SortKey::Id => "id"@,
            SortKey::Status => "status"@,
        }),
{
    reveal_strlit("priority");
    reveal_strlit("prio");
    reveal_strlit("p");
    reveal_strlit("created");
    reveal_strlit("created_at");
    reveal_strlit("date");
    reveal_strlit("age");
    reveal_strlit("updated");
    reveal_strlit("updated_at");
    reveal_strlit("modified");
    reveal_strlit("closed");
    reveal_strlit("closed_at");
    reveal_strlit("id");
    reveal_strlit("status");
    let n = k.name();
    assert(n[0] == 'p' || n[0] == 'c' || n[0] == 'u' || n[0] == 'i' || n[0] == 's');
    assert(n.len() == 8 || n.len() == 7 || n.len() == 6 || n.len() == 2);
    match k {
        SortKey::Closed => {
            assert(n[1] == 'l');
        },
        SortKey::Updated => {
            assert(n[0] == 'u');
        },
        _ => {},
    }
}

/// Law: a request that is granted lists what was asked for: issues of the state, type and
/// priority that were named, closed ones only where all were asked for or a state was named,
/// no more than the limit, and each of them where there is none.
pub proof fn requests_list_what_they_name(
    args: ListArgs,
    entries: Seq<IssueView>,
    q: ListQuery,
    x: IssueView,
)
    requires
        args.problem(entries) is None,
        args.asks(q),
    ensures
        q.result(entries).contains(x) ==> {
            &&& entries.contains(x)
            &&& x.status == Status::Closed ==> args.all || args.status is Some
            &&& args.priority is Some ==> x.priority == args.priority->0
            &&& args.status is Some ==> args.status->0@ == x.status.name() || args.status->0@
                == "in-progress"@
            &&& args.issue_type is Some ==> args.issue_type->0@ == x.issue_type.name()
            &&& args.assignee is Some ==> x.assignee is Some && stands_in(
                lowercased(x.assignee->0),
                lowercased(args.assignee->0@),
            )
            &&& forall|k: int|
                0 <= k < args.labels@.len() ==> carries(x, (#[trigger] args.labels@[k])@)
            &&& args.created_after is Some ==> args.created_after->0 is Ok && !x.created_at.lt(
                args.created_after->0->Ok_0,
            )
            &&& args.created_before is Some ==> args.created_before->0 is Ok
                && !(args.created_before->0->Ok_0).lt(x.created_at)
        },
        args.limit is Some ==> q.result(entries).len() <= args.limit->0,
        args.limit is None && args.status is None && args.issue_type is None && args.priority
            is None && args.search is None && args.epic is None && args.assignee is None
            && args.labels@.len() == 0 && args.created_after is None && args.created_before is None
            && entries.contains(x) && x.status != Status::Tombstone && (args.all || x.status
            != Status::Closed) ==> q.result(entries).contains(x),
        q.reverse == args.reverse,
        forall|k: SortKey| ascii_lowered(args.sort@) == #[trigger] k.name() ==> q.sort == k,
{
    listing_is_what_was_asked_for(q, entries, x);
    crate::issue::names_are_these();
    assert forall|k: SortKey| ascii_lowered(args.sort@) == #[trigger] k.name() implies q.sort
        == k by {
        sort_names_read_back(k);
    }
}

/// Law: a request is refused for a state, type or order that there is not, for an epic that is
/// not stored, and for a date that cannot be read, and for nothing else.
pub proof fn requests_are_refused_for_unknown_names(args: ListArgs, entries: Seq<IssueView>)
    ensures
        args.problem(entries) is Some ==> {
            ||| SortKey::named(ascii_lowered(args.sort@)) is None
            ||| args.epic is Some && forall|x: IssueView| #[trigger]
                entries.contains(x) ==> x.id != args.epic->0@
            ||| args.status is Some && forall|s: Status| #[trigger] s.name() != args.status->0@
            ||| args.issue_type is Some && forall|t: IssueType| #[trigger]
                t.name() != args.issue_type->0@
            ||| args.created_after is Some && args.created_after->0 is Err
            ||| args.created_before is Some && args.created_before->0 is Err
        },
        args.epic is Some && (forall|x: IssueView| #[trigger]
            entries.contains(x) ==> x.id != args.epic->0@) ==> args.problem(entries) is Some,
        args.created_after is Some && args.created_after->0 is Err ==> args.problem(entries)
            is Some,
        args.created_before is Some && args.created_before->0 is Err ==> args.problem(entries)
            is Some,
        args.status is Some && args.status->0@ != "in-progress"@ && (forall|s: Status| #[trigger]
            s.name() != args.status->0@) ==> args.problem(entries) is Some,
        args.issue_type is Some && (forall|t: IssueType| #[trigger]
            t.name() != args.issue_type->0@) ==> args.problem(entries) is Some,
{
    crate::issue::names_are_these();
    if args.epic is Some {
        let id = args.epic->0@;
        crate::store::lemma_index_of(entries, id);
        let n = crate::store::index_of(entries, id);
        if lookup(entries, id) is Some {
            assert(entries.contains(entries[n]) && entries[n].id == id);
        } else {
            assert forall|x: IssueView| #[trigger] entries.contains(x) implies x.id != id by {
                let m = choose|m: int| 0 <= m < entries.len() && entries[m] == x;
                assert(entries[m].id != id);
            }
        }
    }
    if args.status is Some && Status::parsed(args.status->0@) is None {
        assert forall|s: Status| #[trigger] s.name() != args.status->0@ by {
            crate::issue::status_names_read_back(s);
        }
    }
    if args.issue_type is Some && IssueType::parsed(args.issue_type->0@) is None {
        assert forall|t: IssueType| #[trigger] t.name() != args.issue_type->0@ by {
            crate::issue::issue_type_names_read_back(t);
        }
    }
}

/// What stands in a part of a text stands in the text.
pub proof fn lemma_stands_deeper(before: Seq<char>, part: Seq<char>, after: Seq<char>, x: Seq<char>)
    requires
        stands_in(part, x),
    ensures
        stands_in(before + part + after, x),
{
    let (b, a) = choose|b: Seq<char>, a: Seq<char>| part == #[trigger] (b + x + a);
    assert(before + part + after =~= (before + b) + x + (a + after));
}

/// Law: an assignee is the one that was named. `me`, whatever the case, is the name that Git
/// knows, without the space round it, or else the user.
pub proof fn assignees_are_those_that_were_named(name: Seq<char>, git: Seq<char>, user: Seq<char>)
    ensures
        ascii_lowered(name) != ascii_lowered("me"@) ==> assignee_name(name, Some(git), Some(user))
            == name,
        trimmed(git).len() > 0 ==> assignee_name("me"@, Some(git), Some(user)) == trimmed(git),
        trimmed(git).len() == 0 ==> assignee_name("me"@, Some(git), Some(user)) == user,
        assignee_name("me"@, None, Some(user)) == user,
        assignee_name("me"@, None, None) == "me"@,
{
}

} // verus!
