//! Issues, their states and the dependencies between them.
use crate::error::{Error, ErrorView};
use crate::text::{concat, same_text};
use crate::time::Timestamp;
use vstd::prelude::*;

verus! {

/// The state of an issue.
#[derive(Clone, Copy, Debug, PartialEq, Eq, Hash, Structural)]
pub enum Status {
    Open,
    InProgress,
    Blocked,
    Closed,
    /// Deleted; kept so that the deletion survives a merge.
    Tombstone,
}

/// What kind of work an issue describes.
#[derive(Clone, Copy, Debug, PartialEq, Eq, Hash, Structural)]
pub enum IssueType {
    Bug,
    Feature,
    Task,
    Epic,
    Chore,
}

/// How one issue depends on another.
#[derive(Clone, Copy, Debug, PartialEq, Eq, Hash, Structural)]
pub enum DependencyType {
    Blocks,
    ParentChild,
    Related,
}

/// An edge from one issue to another that it depends on.
#[derive(Clone, Debug)]
pub struct Dependency {
    pub issue_id: String,
    pub depends_on_id: String,
    pub dep_type: DependencyType,
    pub created_at: Timestamp,
    pub created_by: Option<String>,
}

#[derive(Clone, Debug)]
pub struct Issue {
    pub id: String,
    pub title: String,
    pub description: Option<String>,
    pub status: Status,
    /// 0 is critical, 4 is backlog.
    pub priority: u8,
    pub issue_type: IssueType,
    pub labels: Vec<String>,
    pub assignee: Option<String>,
    pub notes: Option<String>,
    pub created_at: Timestamp,
    pub updated_at: Timestamp,
    pub closed_at: Option<Timestamp>,
    pub close_reason: Option<String>,
    pub created_by: Option<String>,
    pub deleted_at: Option<Timestamp>,
    pub deleted_by: Option<String>,
    pub delete_reason: Option<String>,
    /// The type that a deleted issue had.
    pub original_type: Option<String>,
    /// The sessions that touched the issue.
    pub sessions: Vec<String>,
    pub dependencies: Vec<Dependency>,
}

pub struct DependencyView {
    pub issue_id: Seq<char>,
    pub depends_on_id: Seq<char>,
    pub dep_type: DependencyType,
    pub created_at: Timestamp,
    pub created_by: Option<Seq<char>>,
}

pub struct IssueView {
    pub id: Seq<char>,
    pub title: Seq<char>,
    pub description: Option<Seq<char>>,
    pub status: Status,
    pub priority: u8,
    pub issue_type: IssueType,
    pub labels: Seq<Seq<char>>,
    pub assignee: Option<Seq<char>>,
    pub notes: Option<Seq<char>>,
    pub created_at: Timestamp,
    pub updated_at: Timestamp,
    pub closed_at: Option<Timestamp>,
    pub close_reason: Option<Seq<char>>,
    pub created_by: Option<Seq<char>>,
    pub deleted_at: Option<Timestamp>,
    pub deleted_by: Option<Seq<char>>,
    pub delete_reason: Option<Seq<char>>,
    pub original_type: Option<Seq<char>>,
    pub sessions: Seq<Seq<char>>,
    pub dependencies: Seq<DependencyView>,
}

impl View for Dependency {
    type V = DependencyView;

    open spec fn view(&self) -> DependencyView {
        DependencyView {
            issue_id: self.issue_id@,
            depends_on_id: self.depends_on_id@,
            dep_type: self.dep_type,
            created_at: self.created_at,
            created_by: self.created_by.deep_view(),
        }
    }
}

impl DeepView for Dependency {
    type V = DependencyView;

    open spec fn deep_view(&self) -> DependencyView {
        self.view()
    }
}

impl View for Issue {
    type V = IssueView;

    open spec fn view(&self) -> IssueView {
        IssueView {
            id: self.id@,
            title: self.title@,
            description: self.description.deep_view(),
            status: self.status,
            priority: self.priority,
            issue_type: self.issue_type,
            labels: self.labels.deep_view(),
            assignee: self.assignee.deep_view(),
            notes: self.notes.deep_view(),
            created_at: self.created_at,
            updated_at: self.updated_at,
            closed_at: self.closed_at,
            close_reason: self.close_reason.deep_view(),
            created_by: self.created_by.deep_view(),
            deleted_at: self.deleted_at,
            deleted_by: self.deleted_by.deep_view(),
            delete_reason: self.delete_reason.deep_view(),
            original_type: self.original_type.deep_view(),
            sessions: self.sessions.deep_view(),
            dependencies: self.dependencies.deep_view(),
        }
    }
}

impl DeepView for Issue {
    type V = IssueView;

    open spec fn deep_view(&self) -> IssueView {
        self.view()
    }
}

// --------------------------------------------------------------------- states

impl Status {
    /// Work remains: open, in progress or blocked.
    pub open spec fn spec_is_open(self) -> bool {
        self == Status::Open || self == Status::InProgress || self == Status::Blocked
    }

    /// No work remains: closed or deleted.
    pub open spec fn spec_is_closed(self) -> bool {
        self == Status::Closed || self == Status::Tombstone
    }

    /// The place of the state in the order of the declaration.
    pub open spec fn rank(self) -> int {
        match self {
            Status::Open => 0,
            Status::InProgress => 1,
            Status::Blocked => 2,
            Status::Closed => 3,
            Status::Tombstone => 4,
        }
    }

    pub open spec fn name(self) -> Seq<char> {
        match self {
            Status::Open => "open"@,
            Status::InProgress => "in_progress"@,
            Status::Blocked => "blocked"@,
            Status::Closed => "closed"@,
            Status::Tombstone => "tombstone"@,
        }
    }

    /// The state that a text names.
    pub open spec fn parsed(s: Seq<char>) -> Option<Status> {
        if s == "open"@ {
            Some(Status::Open)
        } else if s == "in_progress"@ || s == "in-progress"@ {
            Some(Status::InProgress)
        } else if s == "blocked"@ {
            Some(Status::Blocked)
        } else if s == "closed"@ {
            Some(Status::Closed)
        } else if s == "tombstone"@ {
            Some(Status::Tombstone)
        } else {
            None
        }
    }

    pub fn is_open(&self) -> (r: bool)
        ensures
            r == self.spec_is_open(),
    {
        match self {
            Status::Open | Status::InProgress | Status::Blocked => true,
            _ => false,
        }
    }

    pub fn is_closed(&self) -> (r: bool)
        ensures
            r == self.spec_is_closed(),
    {
        match self {
            Status::Closed | Status::Tombstone => true,
            _ => false,
        }
    }

    pub fn order(&self) -> (r: u8)
        ensures
            r == self.rank(),
    {
        match self {
            Status::Open => 0,
            Status::InProgress => 1,
            Status::Blocked => 2,
            Status::Closed => 3,
            Status::Tombstone => 4,
        }
    }

    pub fn text(&self) -> (r: &'static str)
        ensures
            r@ == self.name(),
    {
        match self {
            Status::Open => "open",
            Status::InProgress => "in_progress",
            Status::Blocked => "blocked",
            Status::Closed => "closed",
            Status::Tombstone => "tombstone",
        }
    }

    /// Reads a state from its name.
    pub fn parse(s: &str) -> (r: Result<Status, Error>)
        ensures
            match Status::parsed(s@) {
                Some(x) => r == Ok::<Status, Error>(x),
                None => r is Err && r->Err_0@ == ErrorView::Other("invalid status: "@ + s@),
            },
    {
        if same_text(s, "open") {
            Ok(Status::Open)
        } else if same_text(s, "in_progress") || same_text(s, "in-progress") {
            Ok(Status::InProgress)
        } else if same_text(s, "blocked") {
            Ok(Status::Blocked)
        } else if same_text(s, "closed") {
            Ok(Status::Closed)
        } else if same_text(s, "tombstone") {
            Ok(Status::Tombstone)
        } else {
            Err(Error::Other(concat("invalid status: ", s)))
        }
    }
}

impl Default for Status {
    fn default() -> (r: Status)
        ensures
            r == Status::Open,
    {
        Status::Open
    }
}

impl DeepView for Status {
    type V = Status;

    open spec fn deep_view(&self) -> Status {
        *self
    }
}

impl IssueType {
    pub open spec fn name(self) -> Seq<char> {
        match self {
            IssueType::Bug => "bug"@,
            IssueType::Feature => "feature"@,
            IssueType::Task => "task"@,
            IssueType::Epic => "epic"@,
            IssueType::Chore => "chore"@,
        }
    }

    /// The type that a text names.
    pub open spec fn parsed(s: Seq<char>) -> Option<IssueType> {
        if s == "bug"@ {
            Some(IssueType::Bug)
        } else if s == "feature"@ {
            Some(IssueType::Feature)
        } else if s == "task"@ {
            Some(IssueType::Task)
        } else if s == "epic"@ {
            Some(IssueType::Epic)
        } else if s == "chore"@ {
            Some(IssueType::Chore)
        } else {
            None
        }
    }

    pub fn text(&self) -> (r: &'static str)
        ensures
            r@ == self.name(),
    {
        match self {
            IssueType::Bug => "bug",
            IssueType::Feature => "feature",
            IssueType::Task => "task",
            IssueType::Epic => "epic",
            IssueType::Chore => "chore",
        }
    }

    /// Reads a type from its name.
    pub fn parse(s: &str) -> (r: Result<IssueType, Error>)
        ensures
            match IssueType::parsed(s@) {
                Some(x) => r == Ok::<IssueType, Error>(x),
                None => r is Err && r->Err_0@ == ErrorView::Other("invalid issue type: "@ + s@),
            },
    {
        if same_text(s, "bug") {
            Ok(IssueType::Bug)
        } else if same_text(s, "feature") {
            Ok(IssueType::Feature)
        } else if same_text(s, "task") {
            Ok(IssueType::Task)
        } else if same_text(s, "epic") {
            Ok(IssueType::Epic)
        } else if same_text(s, "chore") {
            Ok(IssueType::Chore)
        } else {
            Err(Error::Other(concat("invalid issue type: ", s)))
        }
    }
}

impl Default for IssueType {
    fn default() -> (r: IssueType)
        ensures
            r == IssueType::Task,
    {
        IssueType::Task
    }
}

impl DeepView for IssueType {
    type V = IssueType;

    open spec fn deep_view(&self) -> IssueType {
        *self
    }
}

impl DependencyType {
    pub open spec fn name(self) -> Seq<char> {
        match self {
            DependencyType::Blocks => "blocks"@,
            DependencyType::ParentChild => "parent_child"@,
            DependencyType::Related => "related"@,
        }
    }

    pub fn text(&self) -> (r: &'static str)
        ensures
            r@ == self.name(),
    {
        match self {
            DependencyType::Blocks => "blocks",
            DependencyType::ParentChild => "parent_child",
            DependencyType::Related => "related",
        }
    }
}

impl DependencyType {
    /// The type that a text names.
    pub open spec fn parsed(s: Seq<char>) -> Option<DependencyType> {
        if s == "blocks"@ {
            Some(DependencyType::Blocks)
        } else if s == "parent_child"@ || s == "parent-child"@ {
            Some(DependencyType::ParentChild)
        } else if s == "related"@ {
            Some(DependencyType::Related)
        } else {
            None
        }
    }

    /// Reads a type from its name.
    pub fn parse(s: &str) -> (r: Option<DependencyType>)
        ensures
            r == DependencyType::parsed(s@),
    {
        if same_text(s, "blocks") {
            Some(DependencyType::Blocks)
        } else if same_text(s, "parent_child") || same_text(s, "parent-child") {
            Some(DependencyType::ParentChild)
        } else if same_text(s, "related") {
            Some(DependencyType::Related)
        } else {
            None
        }
    }
}

impl Default for DependencyType {
    fn default() -> (r: DependencyType)
        ensures
            r == DependencyType::Blocks,
    {
        DependencyType::Blocks
    }
}

/// The name of a state reads back as that state.
pub proof fn status_names_read_back(s: Status)
    ensures
        Status::parsed(s.name()) == Some(s),
{
    reveal_strlit("open");
    reveal_strlit("in_progress");
    reveal_strlit("in-progress");
    reveal_strlit("blocked");
    reveal_strlit("closed");
    reveal_strlit("tombstone");
    assert("open"@.len() == 4 && "in_progress"@.len() == 11 && "in-progress"@.len() == 11
        && "blocked"@.len() == 7 && "closed"@.len() == 6 && "tombstone"@.len() == 9);
}

/// The name of a type reads back as that type.
pub proof fn issue_type_names_read_back(t: IssueType)
    ensures
        IssueType::parsed(t.name()) == Some(t),
{
    reveal_strlit("bug");
    reveal_strlit("feature");
    reveal_strlit("task");
    reveal_strlit("epic");
    reveal_strlit("chore");
    assert("bug"@.len() == 3 && "feature"@.len() == 7 && "chore"@.len() == 5);
    assert("task"@[0] == 't' && "epic"@[0] == 'e');
    assert("task"@.len() == 4 && "epic"@.len() == 4);
}

/// Every state is either open or closed, never both.
pub proof fn open_and_closed_are_opposites(s: Status)
    ensures
        s.spec_is_open() != s.spec_is_closed(),
{
}

// --------------------------------------------------------------------- issues

/// A new issue: open, of type task, priority 2, with nothing else set.
pub open spec fn fresh_issue(id: Seq<char>, title: Seq<char>, now: Timestamp) -> IssueView {
    IssueView {
        id,
        title,
        description: None,
        status: Status::Open,
        priority: 2,
        issue_type: IssueType::Task,
        labels: seq![],
        assignee: None,
        notes: None,
        created_at: now,
        updated_at: now,
        closed_at: None,
        close_reason: None,
        created_by: None,
        deleted_at: None,
        deleted_by: None,
        delete_reason: None,
        original_type: None,
        sessions: seq![],
        dependencies: seq![],
    }
}

/// Whether an issue lists a dependency of that type on that issue.
pub open spec fn has_dependency(
    deps: Seq<DependencyView>,
    depends_on: Seq<char>,
    dep_type: DependencyType,
) -> bool {
    exists|i: int|
        0 <= i < deps.len() && (#[trigger] deps[i]).depends_on_id == depends_on && deps[i].dep_type
            == dep_type
}

impl IssueView {
    /// The issue after it was closed at `now`.
    pub open spec fn after_close(self, reason: Option<Seq<char>>, now: Timestamp) -> IssueView {
        IssueView {
            status: Status::Closed,
            closed_at: Some(now),
            close_reason: reason,
            updated_at: now,
            ..self
        }
    }

    /// The issue after it was deleted at `now`.
    pub open spec fn after_delete(
        self,
        by: Option<Seq<char>>,
        reason: Option<Seq<char>>,
        now: Timestamp,
    ) -> IssueView {
        IssueView {
            status: Status::Tombstone,
            deleted_at: Some(now),
            deleted_by: by,
            delete_reason: reason,
            original_type: Some(self.issue_type.name()),
            updated_at: now,
            ..self
        }
    }

    /// The issue after a dependency was added at `now`, which happens where it has none on
    /// that issue of that type.
    pub open spec fn after_add_dependency(
        self,
        depends_on: Seq<char>,
        dep_type: DependencyType,
        now: Timestamp,
    ) -> IssueView {
        if has_dependency(self.dependencies, depends_on, dep_type) {
            self
        } else {
            IssueView {
                dependencies: self.dependencies.push(
                    DependencyView {
                        issue_id: self.id,
                        depends_on_id: depends_on,
                        dep_type,
                        created_at: now,
                        created_by: None,
                    },
                ),
                updated_at: now,
                ..self
            }
        }
    }

    /// The issue after its dependencies on `depends_on` were removed at `now`.
    pub open spec fn after_remove_dependency(
        self,
        depends_on: Seq<char>,
        now: Timestamp,
    ) -> IssueView {
        IssueView {
            dependencies: self.dependencies.filter(
                |d: DependencyView| d.depends_on_id != depends_on,
            ),
            updated_at: now,
            ..self
        }
    }
}

/// The first dependency of type parent-child: the issue's parent.
pub open spec fn parent_of(deps: Seq<DependencyView>) -> Option<Seq<char>>
    decreases deps.len(),
{
    if deps.len() == 0 {
        None
    } else if deps[0].dep_type == DependencyType::ParentChild {
        Some(deps[0].depends_on_id)
    } else {
        parent_of(deps.drop_first())
    }
}

/// The ids of the issues that block, in the order of the dependencies.
pub open spec fn blockers_of(deps: Seq<DependencyView>) -> Seq<Seq<char>>
    decreases deps.len(),
{
    if deps.len() == 0 {
        seq![]
    } else if deps.last().dep_type == DependencyType::Blocks {
        blockers_of(deps.drop_last()).push(deps.last().depends_on_id)
    } else {
        blockers_of(deps.drop_last())
    }
}

impl Dependency {
    pub fn copy(&self) -> (r: Dependency)
        ensures
            r@ == self@,
    {
        Dependency {
            issue_id: self.issue_id.clone(),
            depends_on_id: self.depends_on_id.clone(),
            dep_type: self.dep_type,
            created_at: self.created_at,
            created_by: self.created_by.clone(),
        }
    }
}

/// A copy of a list of texts.
pub fn copy_texts(v: &Vec<String>) -> (r: Vec<String>)
    ensures
        r.deep_view() == v.deep_view(),
{
    let r = v.clone();
    assert(r@ =~= v@);
    r
}

pub fn copy_dependencies(v: &Vec<Dependency>) -> (r: Vec<Dependency>)
    ensures
        r.deep_view() == v.deep_view(),
{
    let mut r: Vec<Dependency> = Vec::new();
    let mut i: usize = 0;
    while i < v.len()
        invariant
            i <= v.len(),
            r.len() == i,
            forall|j: int| 0 <= j < i ==> (#[trigger] r@[j])@ == v@[j]@,
        decreases v.len() - i,
    {
        r.push(v[i].copy());
        i += 1;
    }
    assert(r.deep_view() =~= v.deep_view());
    r
}

impl Issue {
    /// A new issue, created now.
    pub fn new(id: String, title: String) -> (r: Issue)
        ensures
            r@ == fresh_issue(id@, title@, r.created_at),
    {
        let now = Timestamp::now();
        Issue::new_at(id, title, now)
    }

    /// A new issue, created at `now`.
    pub fn new_at(id: String, title: String, now: Timestamp) -> (r: Issue)
        ensures
            r@ == fresh_issue(id@, title@, now),
    {
        let r = Issue {
            id,
            title,
            description: None,
            status: Status::Open,
            priority: 2,
            issue_type: IssueType::Task,
            labels: Vec::new(),
            assignee: None,
            notes: None,
            created_at: now,
            updated_at: now,
            closed_at: None,
            close_reason: None,
            created_by: None,
            deleted_at: None,
            deleted_by: None,
            delete_reason: None,
            original_type: None,
            sessions: Vec::new(),
            dependencies: Vec::new(),
        };
        assert(r.labels.deep_view() =~= seq![]);
        assert(r.sessions.deep_view() =~= seq![]);
        assert(r.dependencies.deep_view() =~= seq![]);
        r
    }

    pub fn copy(&self) -> (r: Issue)
        ensures
            r@ == self@,
    {
        Issue {
            id: self.id.clone(),
            title: self.title.clone(),
            description: self.description.clone(),
            status: self.status,
            priority: self.priority,
            issue_type: self.issue_type,
            labels: copy_texts(&self.labels),
            assignee: self.assignee.clone(),
            notes: self.notes.clone(),
            created_at: self.created_at,
            updated_at: self.updated_at,
            closed_at: self.closed_at,
            close_reason: self.close_reason.clone(),
            created_by: self.created_by.clone(),
            deleted_at: self.deleted_at,
            deleted_by: self.deleted_by.clone(),
            delete_reason: self.delete_reason.clone(),
            original_type: self.original_type.clone(),
            sessions: copy_texts(&self.sessions),
            dependencies: copy_dependencies(&self.dependencies),
        }
    }

    /// Closes the issue now.
    pub fn close(&mut self, reason: Option<String>)
        ensures
            final(self)@ == old(self)@.after_close(reason.deep_view(), final(self).updated_at),
    {
        let now = Timestamp::now();
        self.close_at(reason, now);
    }

    /// Closes the issue at `now`.
    pub fn close_at(&mut self, reason: Option<String>, now: Timestamp)
        ensures
            final(self)@ == old(self)@.after_close(reason.deep_view(), now),
    {
        self.status = Status::Closed;
        self.closed_at = Some(now);
        self.close_reason = reason;
        self.updated_at = now;
    }

    /// Turns the issue into a tombstone now.
    pub fn delete(&mut self, by: Option<String>, reason: Option<String>)
        ensures
            final(self)@ == old(self)@.after_delete(
                by.deep_view(),
                reason.deep_view(),
                final(self).updated_at,
            ),
    {
        let now = Timestamp::now();
        self.delete_at(by, reason, now);
    }

    /// Turns the issue into a tombstone at `now`.
    pub fn delete_at(&mut self, by: Option<String>, reason: Option<String>, now: Timestamp)
        ensures
            final(self)@ == old(self)@.after_delete(by.deep_view(), reason.deep_view(), now),
    {
        self.status = Status::Tombstone;
        self.deleted_at = Some(now);
        self.deleted_by = by;
        self.delete_reason = reason;
        self.original_type = Some(self.issue_type.text().to_owned());
        self.updated_at = now;
    }

    /// Whether the issue lists such a dependency.
    pub fn depends_on(&self, id: &str, dep_type: DependencyType) -> (r: bool)
        ensures
            r == has_dependency(self@.dependencies, id@, dep_type),
    {
        let mut i: usize = 0;
        while i < self.dependencies.len()
            invariant
                i <= self.dependencies.len(),
                forall|j: int|
                    0 <= j < i ==> !((#[trigger] self@.dependencies[j]).depends_on_id == id@
                        && self@.dependencies[j].dep_type == dep_type),
            decreases self.dependencies.len() - i,
        {
            let d = &self.dependencies[i];
            assert(self@.dependencies[i as int] == d@);
            if same_text(&d.depends_on_id, id) && d.dep_type == dep_type {
                return true;
            }
            i += 1;
        }
        false
    }

    /// Adds a dependency now. Says whether it was new.
    pub fn add_dependency(&mut self, depends_on: String, dep_type: DependencyType) -> (r: bool)
        ensures
            r == !has_dependency(old(self)@.dependencies, depends_on@, dep_type),
            final(self)@ == old(self)@.after_add_dependency(
                depends_on@,
                dep_type,
                final(self).updated_at,
            ),
    {
        let now = Timestamp::now();
        self.add_dependency_at(depends_on, dep_type, now)
    }

    /// Adds a dependency at `now`. Says whether it was new.
    pub fn add_dependency_at(
        &mut self,
        depends_on: String,
        dep_type: DependencyType,
        now: Timestamp,
    ) -> (r: bool)
        ensures
            r == !has_dependency(old(self)@.dependencies, depends_on@, dep_type),
            final(self)@ == old(self)@.after_add_dependency(depends_on@, dep_type, now),
    {
        if self.depends_on(&depends_on, dep_type) {
            return false;
        }
        let ghost before = self.dependencies.deep_view();
        let d = Dependency {
            issue_id: self.id.clone(),
            depends_on_id: depends_on,
            dep_type,
            created_at: now,
            created_by: None,
        };
        let ghost dv = d@;
        self.dependencies.push(d);
        assert(self.dependencies.deep_view() =~= before.push(dv));
        self.updated_at = now;
        true
    }

    /// Removes every dependency on `depends_on` now.
    pub fn remove_dependency(&mut self, depends_on: &str)
        ensures
            final(self)@ == old(self)@.after_remove_dependency(
                depends_on@,
                final(self).updated_at,
            ),
    {
        let now = Timestamp::now();
        self.remove_dependency_at(depends_on, now);
    }

    /// Removes every dependency on `depends_on` at `now`.
    pub fn remove_dependency_at(&mut self, depends_on: &str, now: Timestamp)
        ensures
            final(self)@ == old(self)@.after_remove_dependency(depends_on@, now),
    {
        let mut kept: Vec<Dependency> = Vec::new();
        let mut i: usize = 0;
        let ghost deps = self@.dependencies;
        let ghost f = |d: DependencyView| d.depends_on_id != depends_on@;
        proof {
            reveal(Seq::filter);
            assert(kept.deep_view() =~= deps.take(0).filter(f));
        }
        while i < self.dependencies.len()
            invariant
                i <= self.dependencies.len(),
                deps == self@.dependencies,
                f == (|d: DependencyView| d.depends_on_id != depends_on@),
                kept.deep_view() == deps.take(i as int).filter(f),
            decreases self.dependencies.len() - i,
        {
            let ghost before = kept.deep_view();
            let d = &self.dependencies[i];
            assert(deps[i as int] == d@);
            proof {
                crate::text::lemma_filter_push(deps.take(i as int), d@, f);
                assert(deps.take(i + 1) =~= deps.take(i as int).push(d@));
            }
            if !same_text(&d.depends_on_id, depends_on) {
                kept.push(d.copy());
                assert(kept.deep_view() =~= before.push(d@));
            }
            i += 1;
        }
        assert(deps.take(deps.len() as int) =~= deps);
        self.dependencies = kept;
        self.updated_at = now;
    }

    /// Whether a blocking dependency of the issue is on one of these ids.
    pub fn is_blocked_by(&self, open_ids: &Vec<String>) -> (r: bool)
        ensures
            r == (exists|i: int|
                0 <= i < blockers_of(self@.dependencies).len() && open_ids.deep_view().contains(
                    #[trigger] blockers_of(self@.dependencies)[i],
                )),
    {
        let ids = self.blocker_ids();
        let mut i: usize = 0;
        while i < ids.len()
            invariant
                i <= ids.len(),
                ids.deep_view() == blockers_of(self@.dependencies),
                forall|j: int|
                    0 <= j < i ==> !open_ids.deep_view().contains(#[trigger] ids.deep_view()[j]),
            decreases ids.len() - i,
        {
            assert(ids.deep_view()[i as int] == ids@[i as int]@);
            if contains_text(open_ids, &ids[i]) {
                return true;
            }
            i += 1;
        }
        false
    }

    /// The id of the parent issue, where the issue has one.
    pub fn parent(&self) -> (r: Option<String>)
        ensures
            r.deep_view() == parent_of(self@.dependencies),
    {
        let ghost deps = self@.dependencies;
        let mut i: usize = 0;
        assert(deps.skip(0) =~= deps);
        while i < self.dependencies.len()
            invariant
                i <= self.dependencies.len(),
                deps == self@.dependencies,
                parent_of(deps) == parent_of(deps.skip(i as int)),
            decreases self.dependencies.len() - i,
        {
            let d = &self.dependencies[i];
            assert(deps[i as int] == d@);
            assert(deps.skip(i as int).drop_first() =~= deps.skip(i + 1));
            if d.dep_type == DependencyType::ParentChild {
                return Some(d.depends_on_id.clone());
            }
            i += 1;
        }
        None
    }

    /// The ids of the issues that block this one.
    pub fn blocker_ids(&self) -> (r: Vec<String>)
        ensures
            r.deep_view() == blockers_of(self@.dependencies),
    {
        let ghost deps = self@.dependencies;
        let mut r: Vec<String> = Vec::new();
        let mut i: usize = 0;
        assert(r.deep_view() =~= blockers_of(deps.take(0)));
        while i < self.dependencies.len()
            invariant
                i <= self.dependencies.len(),
                deps == self@.dependencies,
                r.deep_view() == blockers_of(deps.take(i as int)),
            decreases self.dependencies.len() - i,
        {
            let ghost before = r.deep_view();
            let d = &self.dependencies[i];
            assert(deps[i as int] == d@);
            assert(deps.take(i + 1).drop_last() =~= deps.take(i as int));
            if d.dep_type == DependencyType::Blocks {
                r.push(d.depends_on_id.clone());
                assert(r.deep_view() =~= before.push(d@.depends_on_id));
            }
            i += 1;
        }
        assert(deps.take(deps.len() as int) =~= deps);
        r
    }
}

/// Whether a list of texts holds `s`.
pub fn contains_text(v: &Vec<String>, s: &str) -> (r: bool)
    ensures
        r == v.deep_view().contains(s@),
{
    let mut i: usize = 0;
    while i < v.len()
        invariant
            i <= v.len(),
            forall|j: int| 0 <= j < i ==> #[trigger] v.deep_view()[j] != s@,
        decreases v.len() - i,
    {
        assert(v.deep_view()[i as int] == v@[i as int]@);
        if same_text(&v[i], s) {
            return true;
        }
        i += 1;
    }
    false
}

/// Closing an issue leaves it closed, with its reason, and changes neither what it says
/// nor what it depends on.
pub proof fn closing_keeps_content(i: IssueView, reason: Option<Seq<char>>, now: Timestamp)
    ensures
        i.after_close(reason, now).status.spec_is_closed(),
        i.after_close(reason, now).close_reason == reason,
        i.after_close(reason, now).id == i.id,
        i.after_close(reason, now).title == i.title,
        i.after_close(reason, now).description == i.description,
        i.after_close(reason, now).dependencies == i.dependencies,
{
}

/// Adding a dependency twice is the same as adding it once.
pub proof fn adding_dependency_twice_adds_once(
    i: IssueView,
    on: Seq<char>,
    t: DependencyType,
    now: Timestamp,
    later: Timestamp,
)
    ensures
        i.after_add_dependency(on, t, now).after_add_dependency(on, t, later)
            == i.after_add_dependency(on, t, now),
        has_dependency(i.after_add_dependency(on, t, now).dependencies, on, t),
{
    let a = i.after_add_dependency(on, t, now);
    if !has_dependency(i.dependencies, on, t) {
        assert(a.dependencies[i.dependencies.len() as int].depends_on_id == on);
    }
}

/// After its removal no dependency on that issue is left, and no other is lost.
pub proof fn removed_dependency_is_gone(i: IssueView, on: Seq<char>, now: Timestamp)
    ensures
        forall|k: int|
            0 <= k < i.after_remove_dependency(on, now).dependencies.len()
                ==> (#[trigger] i.after_remove_dependency(on, now).dependencies[k]).depends_on_id
                != on,
        forall|k: int|
            0 <= k < i.dependencies.len() && (#[trigger] i.dependencies[k]).depends_on_id != on
                ==> i.after_remove_dependency(on, now).dependencies.contains(i.dependencies[k]),
{
    broadcast use vstd::seq_lib::group_filter_ensures;

    let f = |d: DependencyView| d.depends_on_id != on;
    let kept = i.dependencies.filter(f);
    assert forall|k: int| 0 <= k < kept.len() implies (#[trigger] kept[k]).depends_on_id != on by {
        assert(f(kept[k]));
    }
    assert forall|k: int|
        0 <= k < i.dependencies.len() && (#[trigger] i.dependencies[k]).depends_on_id
            != on implies kept.contains(i.dependencies[k]) by {
        assert(f(i.dependencies[k]));
    }
}

/// The names under which states, types and kinds of dependency are written, and the further
/// spellings that are read.
pub proof fn names_are_these()
    ensures
        Status::Open.name() == "open"@ && Status::InProgress.name() == "in_progress"@
            && Status::Blocked.name() == "blocked"@ && Status::Closed.name() == "closed"@
            && Status::Tombstone.name() == "tombstone"@,
        IssueType::Bug.name() == "bug"@ && IssueType::Feature.name() == "feature"@
            && IssueType::Task.name() == "task"@ && IssueType::Epic.name() == "epic"@
            && IssueType::Chore.name() == "chore"@,
        DependencyType::Blocks.name() == "blocks"@ && DependencyType::ParentChild.name()
            == "parent_child"@ && DependencyType::Related.name() == "related"@,
        Status::parsed("in-progress"@) == Some(Status::InProgress),
        DependencyType::parsed("parent-child"@) == Some(DependencyType::ParentChild),
        forall|d: DependencyType| DependencyType::parsed(#[trigger] d.name()) == Some(d),
        forall|s: Seq<char>| #[trigger]
            Status::parsed(s) is Some ==> s == "in-progress"@ || s == (Status::parsed(s)->0).name(),
        forall|s: Seq<char>| #[trigger]
            IssueType::parsed(s) is Some ==> s == (IssueType::parsed(s)->0).name(),
        forall|s: Seq<char>| #[trigger]
            DependencyType::parsed(s) is Some ==> s == "parent-child"@ || s == (
            DependencyType::parsed(s)->0).name(),
{
    reveal_strlit("open");
    reveal_strlit("in_progress");
    reveal_strlit("in-progress");
    reveal_strlit("blocks");
    reveal_strlit("parent_child");
    reveal_strlit("parent-child");
    reveal_strlit("related");
    assert("in-progress"@[2] == '-' && "in_progress"@[2] == '_' && "open"@.len() == 4);
    assert("in-progress"@.len() == 11);
    assert("blocks"@.len() == 6 && "related"@.len() == 7 && "parent_child"@.len() == 12);
}

/// A new issue is an open task of medium priority with its id and title, made and last changed
/// now, and nothing else.
pub proof fn new_issues_are_blank(id: Seq<char>, title: Seq<char>, now: Timestamp)
    ensures
        ({
            let i = fresh_issue(id, title, now);
            &&& i.id == id && i.title == title
            &&& i.status == Status::Open && i.priority == 2 && i.issue_type == IssueType::Task
            &&& i.created_at == now && i.updated_at == now
            &&& i.description is None && i.assignee is None && i.notes is None && i.closed_at is None
            &&& i.close_reason is None && i.created_by is None && i.deleted_at is None
            &&& i.deleted_by is None && i.delete_reason is None && i.original_type is None
            &&& i.labels.len() == 0 && i.sessions.len() == 0 && i.dependencies.len() == 0
        }),
{
}

/// Closing an issue makes it closed, now and for that reason, and changes nothing else.
pub proof fn closing_closes(i: IssueView, reason: Option<Seq<char>>, now: Timestamp)
    ensures
        i.after_close(reason, now).status == Status::Closed,
        i.after_close(reason, now).closed_at == Some(now),
        i.after_close(reason, now).close_reason == reason,
        i.after_close(reason, now).updated_at == now,
        i.after_close(reason, now).id == i.id,
        i.after_close(reason, now).title == i.title,
        i.after_close(reason, now).description == i.description,
        i.after_close(reason, now).priority == i.priority,
        i.after_close(reason, now).issue_type == i.issue_type,
        i.after_close(reason, now).labels == i.labels,
        i.after_close(reason, now).assignee == i.assignee,
        i.after_close(reason, now).notes == i.notes,
        i.after_close(reason, now).created_at == i.created_at,
        i.after_close(reason, now).created_by == i.created_by,
        i.after_close(reason, now).deleted_at == i.deleted_at,
        i.after_close(reason, now).deleted_by == i.deleted_by,
        i.after_close(reason, now).delete_reason == i.delete_reason,
        i.after_close(reason, now).original_type == i.original_type,
        i.after_close(reason, now).sessions == i.sessions,
        i.after_close(reason, now).dependencies == i.dependencies,
{
}

/// Deleting an issue keeps it as a tombstone that says when, by whom and why it was deleted and
/// of what type it was, and changes nothing else.
pub proof fn deleting_leaves_a_tombstone(
    i: IssueView,
    by: Option<Seq<char>>,
    reason: Option<Seq<char>>,
    now: Timestamp,
)
    ensures
        i.after_delete(by, reason, now).status == Status::Tombstone,
        i.after_delete(by, reason, now).deleted_at == Some(now),
        i.after_delete(by, reason, now).deleted_by == by,
        i.after_delete(by, reason, now).delete_reason == reason,
        i.after_delete(by, reason, now).original_type == Some(i.issue_type.name()),
        i.after_delete(by, reason, now).updated_at == now,
        i.after_delete(by, reason, now).id == i.id,
        i.after_delete(by, reason, now).title == i.title,
        i.after_delete(by, reason, now).description == i.description,
        i.after_delete(by, reason, now).priority == i.priority,
        i.after_delete(by, reason, now).issue_type == i.issue_type,
        i.after_delete(by, reason, now).labels == i.labels,
        i.after_delete(by, reason, now).assignee == i.assignee,
        i.after_delete(by, reason, now).notes == i.notes,
        i.after_delete(by, reason, now).created_at == i.created_at,
        i.after_delete(by, reason, now).closed_at == i.closed_at,
        i.after_delete(by, reason, now).close_reason == i.close_reason,
        i.after_delete(by, reason, now).created_by == i.created_by,
        i.after_delete(by, reason, now).sessions == i.sessions,
        i.after_delete(by, reason, now).dependencies == i.dependencies,
{
}

/// Adding a dependency that is not there yet puts it behind the others, with the two issues, its
/// kind and the time; one that is there changes nothing.
pub proof fn added_dependency_comes_last(
    i: IssueView,
    on: Seq<char>,
    t: DependencyType,
    now: Timestamp,
)
    ensures
        ({
            let a = i.after_add_dependency(on, t, now);
            let there = exists|d: DependencyView| #[trigger]
                i.dependencies.contains(d) && d.depends_on_id == on && d.dep_type == t;
            let n = i.dependencies.len() as int;
            &&& there ==> a == i
            &&& !there ==> a.dependencies.len() == n + 1 && a.dependencies.take(n)
                == i.dependencies && a.dependencies[n].issue_id == i.id
                && a.dependencies[n].depends_on_id == on && a.dependencies[n].dep_type == t
                && a.dependencies[n].created_at == now && a.dependencies[n].created_by is None
                && a.updated_at == now
            &&& a.id == i.id && a.title == i.title && a.description == i.description && a.status
                == i.status && a.priority == i.priority && a.issue_type == i.issue_type
            &&& a.labels == i.labels && a.assignee == i.assignee && a.notes == i.notes
                && a.created_at == i.created_at && a.closed_at == i.closed_at && a.close_reason
                == i.close_reason
            &&& a.created_by == i.created_by && a.deleted_at == i.deleted_at && a.deleted_by
                == i.deleted_by && a.delete_reason == i.delete_reason && a.original_type
                == i.original_type && a.sessions == i.sessions
        }),
{
    let deps = i.dependencies;
    let a = i.after_add_dependency(on, t, now);
    if has_dependency(deps, on, t) {
        let k = choose|k: int|
            0 <= k < deps.len() && (#[trigger] deps[k]).depends_on_id == on && deps[k].dep_type == t;
        assert(deps.contains(deps[k]));
    } else {
        assert(a.dependencies.take(deps.len() as int) =~= deps);
        assert forall|d: DependencyView| #[trigger] deps.contains(d) implies !(d.depends_on_id == on
            && d.dep_type == t) by {
            let k = choose|k: int| 0 <= k < deps.len() && deps[k] == d;
            assert(deps[k] == d);
        }
    }
}

/// The parent of an issue is what its first dependency of that kind is on; its blockers are
/// what its blocking dependencies are on.
pub proof fn parents_and_blockers_are_dependencies(deps: Seq<DependencyView>, k: int)
    ensures
        0 <= k < deps.len() && deps[k].dep_type == DependencyType::ParentChild && (forall|j: int|
            0 <= j < k ==> (#[trigger] deps[j]).dep_type != DependencyType::ParentChild)
            ==> parent_of(deps) == Some(deps[k].depends_on_id),
        (forall|j: int|
            0 <= j < deps.len() ==> (#[trigger] deps[j]).dep_type != DependencyType::ParentChild)
            ==> parent_of(deps) is None,
        0 <= k < deps.len() && deps[k].dep_type == DependencyType::Blocks ==> blockers_of(
            deps,
        ).contains(deps[k].depends_on_id),
        0 <= k < blockers_of(deps).len() ==> exists|j: int|
            0 <= j < deps.len() && (#[trigger] deps[j]).dep_type == DependencyType::Blocks
                && deps[j].depends_on_id == blockers_of(deps)[k],
    decreases deps.len(),
{
    if deps.len() > 0 {
        let rest = deps.drop_first();
        let front = deps.drop_last();
        parents_and_blockers_are_dependencies(rest, k - 1);
        parents_and_blockers_are_dependencies(front, k);
        assert forall|j: int| 0 <= j < rest.len() implies rest[j] == #[trigger] deps[j + 1] by {}
        if 0 < k < deps.len() && deps[k].dep_type == DependencyType::ParentChild && (forall|j: int|
            0 <= j < k ==> (#[trigger] deps[j]).dep_type != DependencyType::ParentChild) {
            assert(deps[0].dep_type != DependencyType::ParentChild);
            assert(rest[k - 1] == deps[k]);
            assert forall|j: int| 0 <= j < k - 1 implies (#[trigger] rest[j]).dep_type
                != DependencyType::ParentChild by {
                assert(rest[j] == deps[j + 1]);
            }
        }
        if forall|j: int|
            0 <= j < deps.len() ==> (#[trigger] deps[j]).dep_type != DependencyType::ParentChild {
            assert(deps[0].dep_type != DependencyType::ParentChild);
            assert forall|j: int| 0 <= j < rest.len() implies (#[trigger] rest[j]).dep_type
                != DependencyType::ParentChild by {
                assert(rest[j] == deps[j + 1]);
            }
        }
        let b = blockers_of(front);
        let r = blockers_of(deps);
        assert(deps[deps.len() - 1] == deps.last());
        if 0 <= k < deps.len() && deps[k].dep_type == DependencyType::Blocks {
            if k < front.len() {
                assert(front[k] == deps[k]);
                let m = choose|m: int| 0 <= m < b.len() && b[m] == deps[k].depends_on_id;
                assert(r[m] == deps[k].depends_on_id);
            } else {
                assert(r[b.len() as int] == deps[k].depends_on_id);
            }
        }
        if 0 <= k < r.len() {
            if k < b.len() {
                assert(r[k] == b[k]);
                let j = choose|j: int|
                    0 <= j < front.len() && (#[trigger] front[j]).dep_type
                        == DependencyType::Blocks && front[j].depends_on_id == b[k];
                assert(deps[j] == front[j]);
            }
        }
    }
}

} // verus!
