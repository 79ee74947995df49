//! Changing issues: updates, closing, and dependencies, with the events that they leave.
use crate::agent_ctx::AgentCtx;
use crate::error::{Error, ErrorView};
use crate::events::{
    diff_issue, issue_changes, plain_event, Event, EventAction, EventView,
};
use crate::filter::{filtering_keeps_what_passes, keep, Test};
use crate::issue::{
    has_dependency, Dependency, DependencyType, DependencyView, Issue, IssueView, Status,
};
use crate::query::points_to;
use crate::store::{lookup, Store};
use crate::text::{
    concat, join, joined, lowercased, same_text, split_char, split_on, to_lowercase, trim, trimmed,
};
use crate::time::Timestamp;
use crate::verification::{
    close_gate, evaluate_close_gate, gate_is_exact, latest_of, runs_of, CloseGateReport,
    CloseGateView, VerificationConfig, VerificationRun, VerificationRunView, VerificationStatus,
};
use vstd::prelude::*;

verus! {

// --------------------------------------------------------------------- updates

/// The action that describes a change of state best.
pub open spec fn update_action(before: Status, after: Status) -> EventAction {
    if !before.spec_is_closed() && after.spec_is_closed() {
        EventAction::Closed
    } else if before.spec_is_closed() && !after.spec_is_closed() {
        EventAction::Reopened
    } else {
        EventAction::Updated
    }
}

pub fn action_for_update(before: &Issue, after: &Issue) -> (r: EventAction)
    ensures
        r == update_action(before@.status, after@.status),
{
    match (before.status.is_closed(), after.status.is_closed()) {
        (false, true) => EventAction::Closed,
        (true, false) => EventAction::Reopened,
        _ => EventAction::Updated,
    }
}

/// What is to be changed in an issue.
pub struct UpdateArgs {
    pub status: Option<String>,
    pub priority: Option<u8>,
    pub title: Option<String>,
    /// The new description, which may be none at all.
    pub description: Option<Option<String>>,
    /// The fields to clear.
    pub clear: Vec<String>,
}

/// The issue without the contents of one field, named in lower case.
pub open spec fn cleared(i: IssueView, field: Seq<char>) -> Option<IssueView> {
    if field == "description"@ || field == "desc"@ {
        Some(IssueView { description: None, ..i })
    } else if field == "parent"@ {
        Some(
            IssueView {
                dependencies: i.dependencies.filter(
                    |d: DependencyView| d.dep_type != DependencyType::ParentChild,
                ),
                ..i
            },
        )
    } else if field == "labels"@ {
        Some(IssueView { labels: seq![], ..i })
    } else if field == "assignee"@ {
        Some(IssueView { assignee: None, ..i })
    } else if field == "notes"@ {
        Some(IssueView { notes: None, ..i })
    } else if field == "sessions"@ {
        Some(IssueView { sessions: seq![], ..i })
    } else {
        None
    }
}

/// The issue without the contents of some fields, or what is wrong with the first name that
/// is unknown.
pub open spec fn all_cleared(i: IssueView, fields: Seq<Seq<char>>) -> Result<IssueView, ErrorView>
    decreases fields.len(),
{
    if fields.len() == 0 {
        Ok(i)
    } else {
        match all_cleared(i, fields.drop_last()) {
            Err(e) => Err(e),
            Ok(x) => match cleared(x, lowercased(fields.last())) {
                Some(y) => Ok(y),
                None => Err(
                    ErrorView::Other(
                        "Unknown field to clear: '"@ + lowercased(fields.last())
                            + "'. Use: description, parent, labels, assignee, notes, sessions"@,
                    ),
                ),
            },
        }
    }
}

struct NoParent;

impl Test<Dependency> for NoParent {
    closed spec fn holds(&self, v: DependencyView) -> bool {
        v.dep_type != DependencyType::ParentChild
    }

    fn test(&self, x: &Dependency) -> (r: bool) {
        x.dep_type != DependencyType::ParentChild
    }
}

/// Clears a field that is named in lower case.
fn clear_field(issue: Issue, field: &str) -> (r: Result<Issue, Error>)
    ensures
        match cleared(issue@, field@) {
            Some(x) => r is Ok && r->Ok_0@ == x,
            None => r is Err && r->Err_0@ == ErrorView::Other(
                "Unknown field to clear: '"@ + field@
                    + "'. Use: description, parent, labels, assignee, notes, sessions"@,
            ),
        },
{
    let mut issue = issue;
    if same_text(field, "description") || same_text(field, "desc") {
        issue.description = None;
    } else if same_text(field, "parent") {
        let ghost d = issue.dependencies.deep_view();
        let mut deps: Vec<Dependency> = Vec::new();
        deps.append(&mut issue.dependencies);
        assert(deps.deep_view() =~= d);
        let c = NoParent;
        issue.dependencies = keep(deps, &c);
        assert((|v: DependencyView| c.holds(v)) =~= (|d: DependencyView|
            d.dep_type != DependencyType::ParentChild));
    } else if same_text(field, "labels") {
        issue.labels = Vec::new();
        assert(issue.labels.deep_view() =~= seq![]);
    } else if same_text(field, "assignee") {
        issue.assignee = None;
    } else if same_text(field, "notes") {
        issue.notes = None;
    } else if same_text(field, "sessions") {
        issue.sessions = Vec::new();
        assert(issue.sessions.deep_view() =~= seq![]);
    } else {
        let mut m = concat("Unknown field to clear: '", field);
        m.append("'. Use: description, parent, labels, assignee, notes, sessions");
        return Err(Error::Other(m));
    }
    Ok(issue)
}

proof fn lemma_clear_problem_stays(i: IssueView, fields: Seq<Seq<char>>, n: int)
    requires
        0 <= n <= fields.len(),
        all_cleared(i, fields.take(n)) is Err,
    ensures
        all_cleared(i, fields) == all_cleared(i, fields.take(n)),
    decreases fields.len(),
{
    if n == fields.len() {
        assert(fields.take(n) =~= fields);
    } else {
        assert(fields.drop_last().take(n) =~= fields.take(n));
        lemma_clear_problem_stays(i, fields.drop_last(), n);
    }
}

impl UpdateArgs {
    /// The issue with the new values, before any field is cleared.
    pub open spec fn set_on(self, i: IssueView) -> IssueView {
        IssueView {
            status: match self.status {
                Some(s) => match Status::parsed(s@) {
                    Some(x) => x,
                    None => i.status,
                },
                None => i.status,
            },
            priority: match self.priority {
                Some(p) => p,
                None => i.priority,
            },
            title: match self.title {
                Some(t) => t@,
                None => i.title,
            },
            description: match self.description {
                Some(d) => d.deep_view(),
                None => i.description,
            },
            ..i
        }
    }

    /// The issue after the update at `now`, or what is wrong with the request.
    pub open spec fn applied(self, i: IssueView, now: Timestamp) -> Result<IssueView, ErrorView> {
        if self.status is Some && Status::parsed(self.status->0@) is None {
            Err(ErrorView::Other("invalid status: "@ + self.status->0@))
        } else {
            match all_cleared(self.set_on(i), self.clear.deep_view()) {
                Ok(x) => Ok(IssueView { updated_at: now, ..x }),
                Err(e) => Err(e),
            }
        }
    }

    /// Applies the update at `now` to a copy of the issue.
    pub fn apply(&self, issue: &Issue, now: Timestamp) -> (r: Result<Issue, Error>)
        ensures
            match self.applied(issue@, now) {
                Ok(x) => r is Ok && r->Ok_0@ == x,
                Err(e) => r is Err && r->Err_0@ == e,
            },
    {
        let mut out = issue.copy();
        if let Some(s) = &self.status {
            match Status::parse(s) {
                Ok(x) => {
                    out.status = x;
                },
                Err(e) => return Err(e),
            }
        }
        if let Some(p) = self.priority {
            out.priority = p;
        }
        if let Some(t) = &self.title {
            out.title = t.clone();
        }
        if let Some(d) = &self.description {
            out.description = d.clone();
        }
        let ghost start = out@;
        assert(start == self.set_on(issue@));
        let ghost fields = self.clear.deep_view();
        let mut i: usize = 0;
        assert(fields.take(0) =~= seq![]);
        while i < self.clear.len()
            invariant
                i <= self.clear.len(),
                fields == self.clear.deep_view(),
                start == self.set_on(issue@),
                self.status is Some ==> Status::parsed(self.status->0@) is Some,
                all_cleared(start, fields.take(i as int)) == Ok::<IssueView, ErrorView>(out@),
            decreases self.clear.len() - i,
        {
            assert(fields.take(i + 1).drop_last() =~= fields.take(i as int));
            assert(fields.take(i + 1).last() == self.clear@[i as int]@);
            match clear_field(out, &to_lowercase(&self.clear[i])) {
                Ok(x) => {
                    out = x;
                },
                Err(e) => {
                    proof {
                        lemma_clear_problem_stays(start, fields, i + 1);
                    }
                    return Err(e);
                },
            }
            i += 1;
        }
        assert(fields.take(fields.len() as int) =~= fields);
        out.updated_at = now;
        Ok(out)
    }
}

/// The event that an update leaves, with the changes that it made. An update that changes
/// nothing leaves none.
pub fn update_event(before: &Issue, after: &Issue, ctx: &AgentCtx) -> (r: Option<Event>)
    ensures
        if issue_changes(before@, after@).len() == 0 {
            r is None
        } else {
            r is Some && r->0@.is_fresh() && r->0@ == (EventView {
                changes: issue_changes(before@, after@),
                ..plain_event(
                    r->0@.id,
                    after@.id,
                    update_action(before@.status, after@.status),
                    *ctx,
                    r->0@.timestamp,
                )
            })
        },
{
    let changes = diff_issue(before, after);
    assert(changes@.len() == changes.deep_view().len());
    if changes.len() == 0 {
        return None;
    }
    let action = action_for_update(before, after);
    Some(Event::new(&after.id, action, ctx).with_changes(changes))
}

/// An update never changes the id of an issue, when it was made or by whom.
pub proof fn updates_keep_identity(args: UpdateArgs, i: IssueView, now: Timestamp)
    requires
        args.applied(i, now) is Ok,
    ensures
        args.applied(i, now)->Ok_0.id == i.id,
        args.applied(i, now)->Ok_0.created_at == i.created_at,
        args.applied(i, now)->Ok_0.created_by == i.created_by,
        args.applied(i, now)->Ok_0.updated_at == now,
{
    lemma_clearing_keeps_identity(args.set_on(i), args.clear.deep_view());
}

proof fn lemma_clearing_keeps_identity(i: IssueView, fields: Seq<Seq<char>>)
    requires
        all_cleared(i, fields) is Ok,
    ensures
        all_cleared(i, fields)->Ok_0.id == i.id,
        all_cleared(i, fields)->Ok_0.created_at == i.created_at,
        all_cleared(i, fields)->Ok_0.created_by == i.created_by,
    decreases fields.len(),
{
    if fields.len() > 0 {
        lemma_clearing_keeps_identity(i, fields.drop_last());
    }
}

/// One of the fields to clear is called `name`, whatever the case.
pub open spec fn clears(fields: Seq<Seq<char>>, name: Seq<char>) -> bool {
    exists|k: int| 0 <= k < fields.len() && lowercased(#[trigger] fields[k]) == name
}

/// The fields that can be cleared.
pub open spec fn can_be_cleared(name: Seq<char>) -> bool {
    name == "description"@ || name == "desc"@ || name == "parent"@ || name == "labels"@ || name
        == "assignee"@ || name == "notes"@ || name == "sessions"@
}

proof fn lemma_clears_front(fields: Seq<Seq<char>>, name: Seq<char>)
    requires
        fields.len() > 0,
    ensures
        clears(fields, name) <==> clears(fields.drop_last(), name) || lowercased(fields.last())
            == name,
{
    let front = fields.drop_last();
    if clears(front, name) {
        let k = choose|k: int| 0 <= k < front.len() && lowercased(#[trigger] front[k]) == name;
        assert(fields[k] == front[k]);
    }
    if clears(fields, name) {
        let k = choose|k: int| 0 <= k < fields.len() && lowercased(#[trigger] fields[k]) == name;
        if k < front.len() {
            assert(front[k] == fields[k]);
        }
    }
    assert(fields[fields.len() - 1] == fields.last());
}

proof fn lemma_field_names()
    ensures
        "description"@ != "parent"@,
        "description"@ != "labels"@,
        "description"@ != "assignee"@,
        "description"@ != "notes"@,
        "description"@ != "sessions"@,
        "desc"@ != "parent"@,
        "desc"@ != "labels"@,
        "desc"@ != "assignee"@,
        "desc"@ != "notes"@,
        "desc"@ != "sessions"@,
        "parent"@ != "labels"@,
        "parent"@ != "assignee"@,
        "parent"@ != "notes"@,
        "parent"@ != "sessions"@,
        "labels"@ != "assignee"@,
        "labels"@ != "notes"@,
        "labels"@ != "sessions"@,
        "assignee"@ != "notes"@,
        "assignee"@ != "sessions"@,
        "notes"@ != "sessions"@,
{
    reveal_strlit("description");
    reveal_strlit("desc");
    reveal_strlit("parent");
    reveal_strlit("labels");
    reveal_strlit("assignee");
    reveal_strlit("notes");
    reveal_strlit("sessions");
    assert("description"@[0] == 'd' && "desc"@[0] == 'd' && "parent"@[0] == 'p' && "labels"@[0]
        == 'l' && "assignee"@[0] == 'a' && "notes"@[0] == 'n' && "sessions"@[0] == 's');
}

#[verifier::spinoff_prover]
#[verifier::rlimit(40)]
proof fn lemma_cleared_fields(i: IssueView, fields: Seq<Seq<char>>, d: DependencyView)
    requires
        all_cleared(i, fields) is Ok,
    ensures
        ({
            let r = all_cleared(i, fields)->Ok_0;
            let no_description = clears(fields, "description"@) || clears(fields, "desc"@);
            &&& r.description == (if no_description {
                None
            } else {
                i.description
            })
            &&& r.labels == (if clears(fields, "labels"@) {
                seq![]
            } else {
                i.labels
            })
            &&& r.assignee == (if clears(fields, "assignee"@) {
                None
            } else {
                i.assignee
            })
            &&& r.notes == (if clears(fields, "notes"@) {
                None
            } else {
                i.notes
            })
            &&& r.sessions == (if clears(fields, "sessions"@) {
                seq![]
            } else {
                i.sessions
            })
            &&& !clears(fields, "parent"@) ==> r.dependencies == i.dependencies
            &&& r.dependencies.contains(d) <==> i.dependencies.contains(d) && (d.dep_type
                != DependencyType::ParentChild || !clears(fields, "parent"@))
            &&& r.id == i.id && r.title == i.title && r.status == i.status && r.priority
                == i.priority && r.issue_type == i.issue_type
            &&& r.created_at == i.created_at && r.created_by == i.created_by && r.closed_at
                == i.closed_at && r.close_reason == i.close_reason
            &&& r.deleted_at == i.deleted_at && r.deleted_by == i.deleted_by && r.delete_reason
                == i.delete_reason && r.original_type == i.original_type
        }),
    decreases fields.len(),
{
    if fields.len() > 0 {
        let front = fields.drop_last();
        let f = lowercased(fields.last());
        lemma_cleared_fields(i, front, d);
        let x = all_cleared(i, front)->Ok_0;
        lemma_field_names();
        lemma_clears_front(fields, "description"@);
        lemma_clears_front(fields, "desc"@);
        lemma_clears_front(fields, "parent"@);
        lemma_clears_front(fields, "labels"@);
        lemma_clears_front(fields, "assignee"@);
        lemma_clears_front(fields, "notes"@);
        lemma_clears_front(fields, "sessions"@);
        filtering_keeps_what_passes(
            x.dependencies,
            |d: DependencyView| d.dep_type != DependencyType::ParentChild,
            d,
        );
        assert(cleared(x, f) is Some);
    } else {
        assert(!clears(fields, "description"@));
        assert(!clears(fields, "desc"@));
    }
}

/// An update that succeeds gives the issue every value that was given: state, priority, title
/// and, unless it is cleared, description. What was not given stays, what was to be cleared is
/// empty, and the rest of the issue is as it was. `d` is any dependency: clearing the parent
/// takes away those on a parent and no others.
pub proof fn updates_set_what_was_given(
    args: UpdateArgs,
    i: IssueView,
    now: Timestamp,
    d: DependencyView,
)
    requires
        args.applied(i, now) is Ok,
    ensures
        ({
            let r = args.applied(i, now)->Ok_0;
            let fields = args.clear.deep_view();
            let no_description = clears(fields, "description"@) || clears(fields, "desc"@);
            &&& args.priority matches Some(p) ==> r.priority == p
            &&& args.priority is None ==> r.priority == i.priority
            &&& args.title matches Some(t) ==> r.title == t@
            &&& args.title is None ==> r.title == i.title
            &&& args.status matches Some(s) ==> forall|st: Status|
                #[trigger] st.name() == s@ ==> r.status == st
            &&& args.status is None ==> r.status == i.status
            &&& no_description ==> r.description is None
            &&& !no_description && args.description is None ==> r.description == i.description
            &&& !no_description && args.description is Some && args.description->0 is Some
                ==> r.description == Some((args.description->0->0)@)
            &&& !no_description && args.description is Some && args.description->0 is None
                ==> r.description is None
            &&& clears(fields, "labels"@) ==> r.labels.len() == 0
            &&& !clears(fields, "labels"@) ==> r.labels == i.labels
            &&& clears(fields, "assignee"@) ==> r.assignee is None
            &&& !clears(fields, "assignee"@) ==> r.assignee == i.assignee
            &&& clears(fields, "notes"@) ==> r.notes is None
            &&& !clears(fields, "notes"@) ==> r.notes == i.notes
            &&& clears(fields, "sessions"@) ==> r.sessions.len() == 0
            &&& !clears(fields, "sessions"@) ==> r.sessions == i.sessions
            &&& !clears(fields, "parent"@) ==> r.dependencies == i.dependencies
            &&& clears(fields, "parent"@) ==> (r.dependencies.contains(d)
                <==> i.dependencies.contains(d) && d.dep_type != DependencyType::ParentChild)
            &&& r.updated_at == now
            &&& r.id == i.id && r.issue_type == i.issue_type && r.created_at == i.created_at
                && r.created_by == i.created_by
            &&& r.closed_at == i.closed_at && r.close_reason == i.close_reason && r.deleted_at
                == i.deleted_at && r.deleted_by == i.deleted_by && r.delete_reason
                == i.delete_reason && r.original_type == i.original_type
        }),
{
    lemma_cleared_fields(args.set_on(i), args.clear.deep_view(), d);
    if args.status is Some {
        assert forall|st: Status| #[trigger] st.name() == args.status->0@ implies args.applied(
            i,
            now,
        )->Ok_0.status == st by {
            crate::issue::status_names_read_back(st);
        }
    }
}

proof fn lemma_clearing_succeeds(i: IssueView, fields: Seq<Seq<char>>)
    ensures
        all_cleared(i, fields) is Ok <==> forall|k: int|
            0 <= k < fields.len() ==> can_be_cleared(lowercased(#[trigger] fields[k])),
    decreases fields.len(),
{
    if fields.len() > 0 {
        let front = fields.drop_last();
        lemma_clearing_succeeds(i, front);
        assert(fields[fields.len() - 1] == fields.last());
        if all_cleared(i, fields) is Ok {
            assert forall|k: int| 0 <= k < fields.len() implies can_be_cleared(
                lowercased(#[trigger] fields[k]),
            ) by {
                if k < front.len() {
                    assert(front[k] == fields[k]);
                }
            }
        }
        if forall|k: int|
            0 <= k < fields.len() ==> can_be_cleared(lowercased(#[trigger] fields[k])) {
            assert forall|k: int| 0 <= k < front.len() implies can_be_cleared(
                lowercased(#[trigger] front[k]),
            ) by {
                assert(front[k] == fields[k]);
            }
        }
    }
}

/// An update is refused only for a state that has no such name, or for a field that cannot be
/// cleared.
pub proof fn updates_are_refused_for_unknown_names(args: UpdateArgs, i: IssueView, now: Timestamp)
    ensures
        args.applied(i, now) is Ok <==> {
            &&& args.status matches Some(s) ==> s@ == "open"@ || s@ == "in_progress"@ || s@
                == "in-progress"@ || s@ == "blocked"@ || s@ == "closed"@ || s@ == "tombstone"@
            &&& forall|k: int|
                0 <= k < args.clear@.len() ==> can_be_cleared(
                    lowercased((#[trigger] args.clear@[k])@),
                )
        },
{
    let fields = args.clear.deep_view();
    lemma_clearing_succeeds(args.set_on(i), fields);
    if forall|k: int| 0 <= k < fields.len() ==> can_be_cleared(lowercased(#[trigger] fields[k])) {
        assert forall|k: int| 0 <= k < args.clear@.len() implies can_be_cleared(
            lowercased((#[trigger] args.clear@[k])@),
        ) by {
            assert(fields[k] == args.clear@[k]@);
        }
    }
    if forall|k: int|
        0 <= k < args.clear@.len() ==> can_be_cleared(lowercased((#[trigger] args.clear@[k])@)) {
        assert forall|k: int| 0 <= k < fields.len() implies can_be_cleared(
            lowercased(#[trigger] fields[k]),
        ) by {
            assert(fields[k] == args.clear@[k]@);
        }
    }
}

/// An update that ends the work on an issue is recorded as closing it, one that takes the work
/// up again as reopening it, and any other as an update.
pub proof fn update_actions_tell_what_happened(before: Status, after: Status)
    ensures
        update_action(before, after) == EventAction::Closed <==> before != Status::Closed && before
            != Status::Tombstone && (after == Status::Closed || after == Status::Tombstone),
        update_action(before, after) == EventAction::Reopened <==> after != Status::Closed && after
            != Status::Tombstone && (before == Status::Closed || before == Status::Tombstone),
        update_action(before, after) == EventAction::Closed || update_action(before, after)
            == EventAction::Reopened || update_action(before, after) == EventAction::Updated,
{
}

// --------------------------------------------------------------------- closing

/// What is noted on closing: the reason, and the reason why the policy was passed over.
pub open spec fn close_note(
    reason: Option<Seq<char>>,
    override_reason: Option<Seq<char>>,
) -> Option<Seq<char>> {
    match (reason, override_reason) {
        (None, None) => None,
        (Some(r), None) => Some(r),
        (None, Some(o)) => Some("verification override: "@ + o),
        (Some(r), Some(o)) => Some(r + " (verification override: "@ + o + ")"@),
    }
}

/// An issue that was closed, and the event that this leaves.
pub struct Closed {
    pub issue: Issue,
    pub event: Event,
}

/// What came of closing an issue: refused where the policy misses something that is not
/// passed over, with what it misses; else closed, with the event that says so.
pub open spec fn is_closing(
    r: Result<Closed, Error>,
    gate: CloseGateView,
    issue: IssueView,
    reason: Option<Seq<char>>,
    override_reason: Option<Seq<char>>,
    ctx: AgentCtx,
    now: Timestamp,
) -> bool {
    if !gate.allowed && override_reason is None {
        r is Err && r->Err_0@ == ErrorView::Other(joined(gate.diagnostics, "; "@))
    } else {
        &&& r is Ok
        &&& r->Ok_0.issue@ == issue.after_close(reason, now)
        &&& r->Ok_0.event@.is_fresh()
        &&& r->Ok_0.event@ == (EventView {
            note: close_note(reason, override_reason),
            ..plain_event(
                r->Ok_0.event@.id,
                issue.id,
                EventAction::Closed,
                ctx,
                r->Ok_0.event@.timestamp,
            )
        })
    }
}

/// Closes an issue at `now`, unless the policy keeps it open. An override passes over what the
/// policy misses and is noted.
pub fn close_issue(
    issue: &Issue,
    reason: &Option<String>,
    override_reason: &Option<String>,
    gate: &CloseGateReport,
    ctx: &AgentCtx,
    now: Timestamp,
) -> (r: Result<Closed, Error>)
    ensures
        is_closing(
            r,
            gate@,
            issue@,
            reason.deep_view(),
            override_reason.deep_view(),
            *ctx,
            now,
        ),
{
    if !gate.allowed && override_reason.is_none() {
        return Err(Error::Other(join(&gate.diagnostics, "; ")));
    }
    let mut out = issue.copy();
    out.close_at(reason.clone(), now);
    let event = Event::new(&issue.id, EventAction::Closed, ctx);
    let event = match (reason, override_reason) {
        (None, None) => event,
        (Some(r), None) => event.with_note(r),
        (None, Some(o)) => event.with_note(&concat("verification override: ", o)),
        (Some(r), Some(o)) => {
            let mut m = concat(r, " (verification override: ");
            m.append(o);
            m.append(")");
            event.with_note(&m)
        },
    };
    Ok(Closed { issue: out, event })
}

/// Closes an issue at `now` under a policy: looks whether the recorded runs prove enough at
/// the current revision, and closes the issue where they do or an override is given.
pub fn close_checked(
    issue: &Issue,
    runs: &[VerificationRun],
    config: &VerificationConfig,
    current_revision: Option<&str>,
    reason: &Option<String>,
    override_reason: &Option<String>,
    ctx: &AgentCtx,
    now: Timestamp,
) -> (r: Result<Closed, Error>)
    ensures
        is_closing(
            r,
            close_gate(issue@, runs.deep_view(), *config, current_revision.deep_view()),
            issue@,
            reason.deep_view(),
            override_reason.deep_view(),
            *ctx,
            now,
        ),
{
    let gate = evaluate_close_gate(issue, runs, config, current_revision);
    close_issue(issue, reason, override_reason, &gate, ctx, now)
}

/// An issue that the policy covers is closed without an override exactly where its latest run
/// proves what the policy asks; with none it stays open.
pub proof fn covered_issue_needs_proof(
    r: Result<Closed, Error>,
    issue: IssueView,
    runs: Seq<VerificationRunView>,
    config: VerificationConfig,
    current: Option<Seq<char>>,
    reason: Option<Seq<char>>,
    ctx: AgentCtx,
    now: Timestamp,
)
    requires
        config.gates(issue),
        is_closing(
            r,
            close_gate(issue, runs, config, current),
            issue,
            reason,
            None,
            ctx,
            now,
        ),
    ensures
        r is Ok <==> ({
            &&& latest_of(runs_of(runs, issue.id)) matches Some(latest)
            &&& config.require_pass ==> latest.status == VerificationStatus::Passed
            &&& config.require_current_revision ==> current is Some && latest.revision == current
        }),
        r is Ok ==> r->Ok_0.issue@.status == Status::Closed,
{
    gate_is_exact(issue, runs, config, current);
}

/// An override is always to be seen in what is noted.
pub proof fn overrides_are_noted(reason: Option<Seq<char>>, o: Seq<char>)
    ensures
        close_note(reason, Some(o)) is Some,
        crate::text::holds_text(close_note(reason, Some(o))->0, "verification override: "@ + o),
{
    let n = close_note(reason, Some(o))->0;
    let p = "verification override: "@ + o;
    match reason {
        None => {
            let at: int = 0;
            assert(n.subrange(at, at + p.len()) =~= p);
        },
        Some(r) => {
            reveal_strlit(" (verification override: ");
            reveal_strlit("verification override: ");
            let at = r.len() as int + 2;
            assert(n.subrange(at, at + p.len()) =~= p);
        },
    }
}

// ---------------------------------------------------------------- dependencies

/// The ids in a list that is parted by commas.
pub open spec fn comma_ids(by: Seq<char>) -> Seq<Seq<char>> {
    Seq::new(split_on(by, ',').len(), |i: int| trimmed(split_on(by, ',')[i]))
}

pub fn split_ids(by: &str) -> (r: Vec<String>)
    ensures
        r.deep_view() == comma_ids(by@),
{
    let parts = split_char(by, ',');
    let mut r: Vec<String> = Vec::new();
    let mut i: usize = 0;
    while i < parts.len()
        invariant
            i <= parts.len(),
            r.len() == i,
            parts.deep_view() == split_on(by@, ','),
            forall|k: int| 0 <= k < i ==> (#[trigger] r@[k])@ == trimmed(split_on(by@, ',')[k]),
        decreases parts.len() - i,
    {
        assert(parts.deep_view()[i as int] == parts@[i as int]@);
        r.push(trim(&parts[i]));
        i += 1;
    }
    assert(r.deep_view() =~= comma_ids(by@));
    r
}

/// The first id that names no issue.
pub open spec fn first_missing(entries: Seq<IssueView>, ids: Seq<Seq<char>>) -> Option<Seq<char>>
    decreases ids.len(),
{
    if ids.len() == 0 {
        None
    } else if lookup(entries, ids[0]) is None {
        Some(ids[0])
    } else {
        first_missing(entries, ids.drop_first())
    }
}

/// An issue whose dependencies changed, and which of the ids made the difference.
pub struct DepChange {
    pub issue: Issue,
    pub changed: Vec<String>,
    pub unchanged: Vec<String>,
}

pub struct DepChangeView {
    pub issue: IssueView,
    pub changed: Seq<Seq<char>>,
    pub unchanged: Seq<Seq<char>>,
}

impl View for DepChange {
    type V = DepChangeView;

    open spec fn view(&self) -> DepChangeView {
        DepChangeView {
            issue: self.issue@,
            changed: self.changed.deep_view(),
            unchanged: self.unchanged.deep_view(),
        }
    }
}

/// The issue after it was blocked by each of `ids` in turn.
pub open spec fn blocked(i: IssueView, ids: Seq<Seq<char>>, now: Timestamp) -> DepChangeView
    decreases ids.len(),
{
    if ids.len() == 0 {
        DepChangeView { issue: i, changed: seq![], unchanged: seq![] }
    } else {
        let c = blocked(i, ids.drop_last(), now);
        let id = ids.last();
        if has_dependency(c.issue.dependencies, id, DependencyType::Blocks) {
            DepChangeView { unchanged: c.unchanged.push(id), ..c }
        } else {
            DepChangeView {
                issue: c.issue.after_add_dependency(id, DependencyType::Blocks, now),
                changed: c.changed.push(id),
                ..c
            }
        }
    }
}

fn missing_issue(store: &Store, ids: &Vec<String>) -> (r: Option<String>)
    ensures
        r.deep_view() == first_missing(store.entries(), ids.deep_view()),
{
    let ghost d = ids.deep_view();
    let mut i: usize = 0;
    assert(d.skip(0) =~= d);
    while i < ids.len()
        invariant
            i <= ids.len(),
            d == ids.deep_view(),
            first_missing(store.entries(), d) == first_missing(store.entries(), d.skip(i as int)),
        decreases ids.len() - i,
    {
        assert(d[i as int] == ids@[i as int]@);
        assert(d.skip(i as int).drop_first() =~= d.skip(i + 1));
        if store.get(&ids[i]).is_none() {
            return Some(ids[i].clone());
        }
        i += 1;
    }
    None
}

/// Marks an issue as blocked by others, which must all exist.
pub fn dep_block(store: &Store, id: &str, by: &str, now: Timestamp) -> (r: Result<
    DepChange,
    Error,
>)
    ensures
        match first_missing(store.entries(), comma_ids(by@)) {
            Some(missing) => r is Err && r->Err_0@ == ErrorView::Other(
                "Blocker issue not found: "@ + missing,
            ),
            None => match lookup(store.entries(), id@) {
                None => r is Err && r->Err_0@ == ErrorView::Other("Issue not found: "@ + id@),
                Some(issue) => r is Ok && r->Ok_0@ == blocked(issue, comma_ids(by@), now),
            },
        },
{
    let ids = split_ids(by);
    match missing_issue(store, &ids) {
        Some(m) => return Err(Error::Other(concat("Blocker issue not found: ", &m))),
        None => {},
    }
    let mut issue = match store.get(id) {
        Some(i) => i.copy(),
        None => return Err(Error::Other(concat("Issue not found: ", id))),
    };
    let ghost start = issue@;
    let ghost d = ids.deep_view();
    let mut changed: Vec<String> = Vec::new();
    let mut unchanged: Vec<String> = Vec::new();
    let mut i: usize = 0;
    assert(d.take(0) =~= seq![]);
    assert(changed.deep_view() =~= seq![]);
    assert(unchanged.deep_view() =~= seq![]);
    while i < ids.len()
        invariant
            i <= ids.len(),
            d == ids.deep_view(),
            blocked(start, d.take(i as int), now) == (DepChangeView {
                issue: issue@,
                changed: changed.deep_view(),
                unchanged: unchanged.deep_view(),
            }),
        decreases ids.len() - i,
    {
        let ghost changed0 = changed.deep_view();
        let ghost unchanged0 = unchanged.deep_view();
        assert(d.take(i + 1).drop_last() =~= d.take(i as int));
        assert(d.take(i + 1).last() == ids@[i as int]@);
        if issue.add_dependency_at(ids[i].clone(), DependencyType::Blocks, now) {
            changed.push(ids[i].clone());
            assert(changed.deep_view() =~= changed0.push(ids@[i as int]@));
        } else {
            unchanged.push(ids[i].clone());
            assert(unchanged.deep_view() =~= unchanged0.push(ids@[i as int]@));
        }
        i += 1;
    }
    assert(d.take(d.len() as int) =~= d);
    Ok(DepChange { issue, changed, unchanged })
}

/// The issue after its dependencies on each of `ids` were removed in turn.
pub open spec fn unblocked(i: IssueView, ids: Seq<Seq<char>>, now: Timestamp) -> DepChangeView
    decreases ids.len(),
{
    if ids.len() == 0 {
        DepChangeView { issue: i, changed: seq![], unchanged: seq![] }
    } else {
        let c = unblocked(i, ids.drop_last(), now);
        let id = ids.last();
        let issue = c.issue.after_remove_dependency(id, now);
        if points_to(c.issue, id) {
            DepChangeView { issue, changed: c.changed.push(id), ..c }
        } else {
            DepChangeView { issue, unchanged: c.unchanged.push(id), ..c }
        }
    }
}

/// Removes the dependencies of an issue on others.
pub fn dep_unblock(store: &Store, id: &str, by: &str, now: Timestamp) -> (r: Result<
    DepChange,
    Error,
>)
    ensures
        match lookup(store.entries(), id@) {
            None => r is Err && r->Err_0@ == ErrorView::Other("Issue not found: "@ + id@),
            Some(issue) => r is Ok && r->Ok_0@ == unblocked(issue, comma_ids(by@), now),
        },
{
    let ids = split_ids(by);
    let mut issue = match store.get(id) {
        Some(i) => i.copy(),
        None => return Err(Error::Other(concat("Issue not found: ", id))),
    };
    let ghost start = issue@;
    let ghost d = ids.deep_view();
    let mut changed: Vec<String> = Vec::new();
    let mut unchanged: Vec<String> = Vec::new();
    let mut i: usize = 0;
    assert(d.take(0) =~= seq![]);
    assert(changed.deep_view() =~= seq![]);
    assert(unchanged.deep_view() =~= seq![]);
    while i < ids.len()
        invariant
            i <= ids.len(),
            d == ids.deep_view(),
            unblocked(start, d.take(i as int), now) == (DepChangeView {
                issue: issue@,
                changed: changed.deep_view(),
                unchanged: unchanged.deep_view(),
            }),
        decreases ids.len() - i,
    {
        let ghost changed0 = changed.deep_view();
        let ghost unchanged0 = unchanged.deep_view();
        assert(d.take(i + 1).drop_last() =~= d.take(i as int));
        assert(d.take(i + 1).last() == ids@[i as int]@);
        if crate::query::depends_on_any(&issue, &ids[i]) {
            changed.push(ids[i].clone());
            assert(changed.deep_view() =~= changed0.push(ids@[i as int]@));
        } else {
            unchanged.push(ids[i].clone());
            assert(unchanged.deep_view() =~= unchanged0.push(ids@[i as int]@));
        }
        issue.remove_dependency_at(&ids[i], now);
        i += 1;
    }
    assert(d.take(d.len() as int) =~= d);
    Ok(DepChange { issue, changed, unchanged })
}

/// The events that a change of dependencies leaves, one for each id that made a difference.
pub fn dep_events(change: &DepChange, action: EventAction, ctx: &AgentCtx) -> (r: Vec<Event>)
    ensures
        r@.len() == change.changed@.len(),
        forall|k: int|
            0 <= k < r@.len() ==> (#[trigger] r@[k])@.is_fresh() && r@[k]@ == (EventView {
                note: Some(change@.changed[k]),
                ..plain_event(r@[k]@.id, change@.issue.id, action, *ctx, r@[k]@.timestamp)
            }),
{
    let mut r: Vec<Event> = Vec::new();
    let mut i: usize = 0;
    while i < change.changed.len()
        invariant
            i <= change.changed.len(),
            r@.len() == i,
            forall|k: int|
                0 <= k < i ==> (#[trigger] r@[k])@.is_fresh() && r@[k]@ == (EventView {
                    note: Some(change@.changed[k]),
                    ..plain_event(r@[k]@.id, change@.issue.id, action, *ctx, r@[k]@.timestamp)
                }),
        decreases change.changed.len() - i,
    {
        assert(change@.changed[i as int] == change.changed@[i as int]@);
        r.push(Event::new(&change.issue.id, action, ctx).with_note(&change.changed[i]));
        i += 1;
    }
    r
}

proof fn lemma_blocked_deps(i: IssueView, ids: Seq<Seq<char>>, now: Timestamp)
    ensures
        ({
            let w = blocked(i, ids, now);
            let n = i.dependencies.len() as int;
            &&& w.issue.dependencies.len() == n + w.changed.len()
            &&& forall|k: int|
                0 <= k < w.changed.len() ==> {
                    let d = #[trigger] w.issue.dependencies[n + k];
                    d.issue_id == i.id && d.depends_on_id == w.changed[k] && d.dep_type
                        == DependencyType::Blocks && d.created_at == now
                }
            &&& w.issue.id == i.id && w.issue.title == i.title && w.issue.description
                == i.description && w.issue.status == i.status && w.issue.priority == i.priority
            &&& w.issue.issue_type == i.issue_type && w.issue.labels == i.labels && w.issue.assignee
                == i.assignee && w.issue.notes == i.notes && w.issue.created_at == i.created_at
            &&& w.issue.updated_at == if w.changed.len() == 0 {
                i.updated_at
            } else {
                now
            }
        }),
    decreases ids.len(),
{
    if ids.len() > 0 {
        let front = ids.drop_last();
        lemma_blocked_deps(i, front, now);
        let c = blocked(i, front, now);
        let w = blocked(i, ids, now);
        let n = i.dependencies.len() as int;
        assert forall|k: int| 0 <= k < w.changed.len() implies {
            let d = #[trigger] w.issue.dependencies[n + k];
            d.issue_id == i.id && d.depends_on_id == w.changed[k] && d.dep_type
                == DependencyType::Blocks && d.created_at == now
        } by {
            if k < c.changed.len() {
                assert(w.issue.dependencies[n + k] == c.issue.dependencies[n + k]);
            }
        }
    }
}

/// Blocking an issue adds one dependency for each id that is reported as added, on that id and
/// of the blocking kind, and changes nothing else of the issue but when it was last changed.
pub proof fn blocking_adds_only_what_it_reports(i: IssueView, ids: Seq<Seq<char>>, now: Timestamp)
    ensures
        ({
            let w = blocked(i, ids, now);
            let n = i.dependencies.len() as int;
            &&& w.issue.dependencies.len() == n + w.changed.len()
            &&& forall|k: int|
                0 <= k < w.changed.len() ==> {
                    let d = #[trigger] w.issue.dependencies[n + k];
                    d.issue_id == i.id && d.depends_on_id == w.changed[k] && d.dep_type
                        == DependencyType::Blocks && d.created_at == now
                }
            &&& w.issue.id == i.id && w.issue.title == i.title && w.issue.description
                == i.description && w.issue.status == i.status && w.issue.priority == i.priority
            &&& w.issue.issue_type == i.issue_type && w.issue.labels == i.labels && w.issue.assignee
                == i.assignee && w.issue.notes == i.notes && w.issue.created_at == i.created_at
            &&& w.issue.updated_at == if w.changed.len() == 0 {
                i.updated_at
            } else {
                now
            }
        }),
{
    lemma_blocked_deps(i, ids, now);
}

/// Unblocking takes away the dependencies on each of the ids, of whatever kind, and no others;
/// it reports as removed just the ids on which there was one.
pub proof fn unblocking_removes_what_was_named(
    i: IssueView,
    ids: Seq<Seq<char>>,
    now: Timestamp,
    d: DependencyView,
)
    ensures
        unblocked(i, ids, now).issue.dependencies.contains(d) <==> i.dependencies.contains(d)
            && !ids.contains(d.depends_on_id),
        unblocked(i, ids, now).changed.len() + unblocked(i, ids, now).unchanged.len() == ids.len(),
        forall|k: int|
            0 <= k < unblocked(i, ids, now).changed.len() ==> ids.contains(
                #[trigger] unblocked(i, ids, now).changed[k],
            ),
        i.dependencies.contains(d) && ids.contains(d.depends_on_id) ==> unblocked(
            i,
            ids,
            now,
        ).changed.contains(d.depends_on_id),
        unblocked(i, ids, now).issue.id == i.id,
        unblocked(i, ids, now).issue.title == i.title,
        unblocked(i, ids, now).issue.description == i.description,
        unblocked(i, ids, now).issue.status == i.status,
        unblocked(i, ids, now).issue.priority == i.priority,
        unblocked(i, ids, now).issue.issue_type == i.issue_type,
        unblocked(i, ids, now).issue.labels == i.labels,
        unblocked(i, ids, now).issue.created_at == i.created_at,
        ids.len() > 0 ==> unblocked(i, ids, now).issue.updated_at == now,
    decreases ids.len(),
{
    if ids.len() > 0 {
        let front = ids.drop_last();
        let id = ids.last();
        unblocking_removes_what_was_named(i, front, now, d);
        let c = unblocked(i, front, now);
        let w = unblocked(i, ids, now);
        filtering_keeps_what_passes(
            c.issue.dependencies,
            |d: DependencyView| d.depends_on_id != id,
            d,
        );
        assert(ids[ids.len() - 1] == id);
        assert(ids.contains(d.depends_on_id) <==> front.contains(d.depends_on_id)
            || d.depends_on_id == id) by {
            if front.contains(d.depends_on_id) {
                let k = choose|k: int| 0 <= k < front.len() && front[k] == d.depends_on_id;
                assert(ids[k] == d.depends_on_id);
            }
            if ids.contains(d.depends_on_id) {
                let k = choose|k: int| 0 <= k < ids.len() && ids[k] == d.depends_on_id;
                if k < front.len() {
                    assert(front[k] == d.depends_on_id);
                }
            }
        }
        assert forall|k: int| 0 <= k < w.changed.len() implies ids.contains(
            #[trigger] w.changed[k],
        ) by {
            if k < c.changed.len() {
                assert(w.changed[k] == c.changed[k]);
                let m = choose|m: int| 0 <= m < front.len() && front[m] == c.changed[k];
                assert(ids[m] == c.changed[k]);
            }
        }
        if i.dependencies.contains(d) && ids.contains(d.depends_on_id) {
            if front.contains(d.depends_on_id) {
                let k = choose|k: int| 0 <= k < c.changed.len() && c.changed[k] == d.depends_on_id;
                assert(w.changed[k] == d.depends_on_id);
            } else {
                let deps = c.issue.dependencies;
                let k = choose|k: int| 0 <= k < deps.len() && deps[k] == d;
                assert(deps[k].depends_on_id == id);
                assert(points_to(c.issue, id));
                assert(w.changed[c.changed.len() as int] == id);
            }
        }
    }
}

/// Afterwards the issue is blocked by each of the ids, and has lost no dependency.
pub proof fn blocking_adds_every_blocker(i: IssueView, ids: Seq<Seq<char>>, now: Timestamp)
    ensures
        forall|k: int|
            0 <= k < ids.len() ==> has_dependency(
                blocked(i, ids, now).issue.dependencies,
                #[trigger] ids[k],
                DependencyType::Blocks,
            ),
        blocked(i, ids, now).issue.dependencies.len() >= i.dependencies.len(),
        blocked(i, ids, now).issue.dependencies.take(i.dependencies.len() as int)
            == i.dependencies,
        blocked(i, ids, now).changed.len() + blocked(i, ids, now).unchanged.len() == ids.len(),
    decreases ids.len(),
{
    if ids.len() == 0 {
        assert(i.dependencies.take(i.dependencies.len() as int) =~= i.dependencies);
    } else {
        let front = ids.drop_last();
        blocking_adds_every_blocker(i, front, now);
        let c = blocked(i, front, now);
        let w = blocked(i, ids, now);
        let old_deps = c.issue.dependencies;
        let new_deps = w.issue.dependencies;
        crate::issue::adding_dependency_twice_adds_once(
            c.issue,
            ids.last(),
            DependencyType::Blocks,
            now,
            now,
        );
        assert(new_deps.take(i.dependencies.len() as int) =~= old_deps.take(
            i.dependencies.len() as int,
        ));
        assert forall|k: int| 0 <= k < ids.len() implies has_dependency(
            new_deps,
            #[trigger] ids[k],
            DependencyType::Blocks,
        ) by {
            if k < front.len() {
                assert(front[k] == ids[k]);
                let m = choose|m: int|
                    0 <= m < old_deps.len() && (#[trigger] old_deps[m]).depends_on_id == ids[k]
                        && old_deps[m].dep_type == DependencyType::Blocks;
                assert(new_deps[m] == old_deps[m]);
            }
        }
    }
}

/// Law: an issue is closed with the reason that was given, unless something is missed and not
/// passed over. The event is on that issue, says that it was closed, and notes the reason.
pub proof fn closings_are_logged(
    r: Result<Closed, Error>,
    g: CloseGateView,
    issue: IssueView,
    reason: Option<Seq<char>>,
    override_reason: Option<Seq<char>>,
    ctx: AgentCtx,
    now: Timestamp,
)
    requires
        is_closing(r, g, issue, reason, override_reason, ctx, now),
    ensures
        r is Ok <==> g.allowed || override_reason is Some,
        r is Ok ==> {
            let c = r->Ok_0;
            &&& c.issue@.id == issue.id && c.issue@.title == issue.title
            &&& c.issue@.status == Status::Closed
            &&& c.issue@.closed_at == Some(now) && c.issue@.updated_at == now
            &&& c.issue@.close_reason == reason
            &&& c.issue@.priority == issue.priority && c.issue@.dependencies == issue.dependencies
            &&& c.event@.issue_id == issue.id
            &&& c.event@.action == EventAction::Closed
            &&& c.event@.user_id == ctx.user_id.deep_view()
            &&& override_reason is None ==> c.event@.note == reason
            &&& override_reason is Some ==> c.event@.note is Some
        },
{
}

/// Law: the ids of a list that is parted by commas are its parts without the space round them.
pub proof fn listed_ids_are_parted_by_commas(a: Seq<char>, b: Seq<char>)
    requires
        !a.contains(','),
        !b.contains(','),
    ensures
        comma_ids(a) == seq![trimmed(a)],
        comma_ids(a + seq![','] + b) == seq![trimmed(a), trimmed(b)],
{
    lemma_one_part(a);
    lemma_two_parts(a, b);
    assert(comma_ids(a) =~= seq![trimmed(a)]);
    assert(comma_ids(a + seq![','] + b) =~= seq![trimmed(a), trimmed(b)]);
}

proof fn lemma_one_part(a: Seq<char>)
    requires
        !a.contains(','),
    ensures
        split_on(a, ',') == seq![a],
    decreases a.len(),
{
    if a.len() > 0 {
        let front = a.drop_last();
        assert(!front.contains(',')) by {
            if front.contains(',') {
                let k = choose|k: int| 0 <= k < front.len() && front[k] == ',';
                assert(a[k] == ',');
            }
        }
        lemma_one_part(front);
        assert(a.contains(a[a.len() - 1]));
        assert(front.push(a.last()) =~= a);
    } else {
        assert(a =~= Seq::empty());
    }
    assert(split_on(a, ',') =~= seq![a]);
}

proof fn lemma_two_parts(a: Seq<char>, b: Seq<char>)
    requires
        !a.contains(','),
        !b.contains(','),
    ensures
        split_on(a + seq![','] + b, ',') == seq![a, b],
    decreases b.len(),
{
    let s = a + seq![','] + b;
    if b.len() == 0 {
        lemma_one_part(a);
        assert(s.drop_last() =~= a);
        assert(s.last() == ',');
        assert(b =~= Seq::empty());
    } else {
        let front = b.drop_last();
        assert(!front.contains(',')) by {
            if front.contains(',') {
                let k = choose|k: int| 0 <= k < front.len() && front[k] == ',';
                assert(b[k] == ',');
            }
        }
        lemma_two_parts(a, front);
        assert(s.drop_last() =~= a + seq![','] + front);
        assert(b.contains(b[b.len() - 1]));
        assert(s.last() == b.last());
        assert(front.push(b.last()) =~= b);
    }
    assert(split_on(s, ',') =~= seq![a, b]);
}

/// Law: blocking asks for every id: it is refused with the first that names no issue, and only
/// where there is one.
pub proof fn missing_blockers_are_named(entries: Seq<IssueView>, ids: Seq<Seq<char>>, k: int)
    ensures
        first_missing(entries, ids) is None <==> forall|j: int|
            0 <= j < ids.len() ==> lookup(entries, #[trigger] ids[j]) is Some,
        0 <= k < ids.len() && lookup(entries, ids[k]) is None && (forall|j: int|
            0 <= j < k ==> lookup(entries, #[trigger] ids[j]) is Some) ==> first_missing(
            entries,
            ids,
        ) == Some(ids[k]),
    decreases ids.len(),
{
    if ids.len() > 0 {
        let rest = ids.drop_first();
        missing_blockers_are_named(entries, rest, k - 1);
        assert forall|j: int| 0 <= j < rest.len() implies rest[j] == #[trigger] ids[j + 1] by {}
        if first_missing(entries, ids) is None {
            assert forall|j: int| 0 <= j < ids.len() implies lookup(entries, #[trigger] ids[j])
                is Some by {
                if j > 0 {
                    assert(rest[j - 1] == ids[j]);
                }
            }
        }
        if forall|j: int| 0 <= j < ids.len() ==> lookup(entries, #[trigger] ids[j]) is Some {
            assert(lookup(entries, ids[0]) is Some);
            assert forall|j: int| 0 <= j < rest.len() implies lookup(entries, #[trigger] rest[j])
                is Some by {
                assert(lookup(entries, ids[j + 1]) is Some);
            }
        }
        if 0 < k < ids.len() && lookup(entries, ids[k]) is None && (forall|j: int|
            0 <= j < k ==> lookup(entries, #[trigger] ids[j]) is Some) {
            assert(lookup(entries, ids[0]) is Some);
            assert(rest[k - 1] == ids[k]);
            assert forall|j: int| 0 <= j < k - 1 implies lookup(entries, #[trigger] rest[j])
                is Some by {
                assert(lookup(entries, ids[j + 1]) is Some);
            }
        }
    }
}

} // verus!
