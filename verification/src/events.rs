//! The event log: which session touched which issue, when and how.
use crate::agent_ctx::AgentCtx;
use crate::error::{Error, ErrorView};
use crate::id::{digest_text, random_uuid, short_digest};
use crate::issue::{contains_text, copy_texts, Issue, IssueView};
use crate::jsonl::{
    appended_value_reads_back, framed, framed_all, is_framed, is_line, keep_well_formed,
    line_values, log_values, numbered, parses, skipped_numbers, values_in, well_formed, LogLine,
    LogLineView,
};
use crate::path::{join_path, joined_path};
use crate::text::{concat, lines_of, same_text};
use crate::time::Timestamp;
use vstd::prelude::*;

verus! {

/// What kind of change an event describes.
#[derive(Clone, Copy, Debug, PartialEq, Eq, Hash, Structural)]
pub enum EventAction {
    Created,
    Updated,
    Closed,
    Reopened,
    Deleted,
    Restored,
    DepAdded,
    DepRemoved,
    SessionLinked,
    VerificationAdded,
}

/// The value of a field before or after a change.
#[derive(Clone, Debug)]
pub enum FieldValue {
    Null,
    Text(String),
    Number(u64),
    List(Vec<String>),
    /// Any other value, as compact JSON.
    Raw(String),
}

pub enum FieldValueView {
    Null,
    Text(Seq<char>),
    Number(u64),
    List(Seq<Seq<char>>),
    Raw(Seq<char>),
}

/// The change of one field.
#[derive(Clone, Debug)]
pub struct FieldChange {
    pub field: String,
    pub from: Option<FieldValue>,
    pub to: Option<FieldValue>,
}

pub struct FieldChangeView {
    pub field: Seq<char>,
    pub from: Option<FieldValueView>,
    pub to: Option<FieldValueView>,
}

/// One entry of the log. A missing identity field means that its variable was not set.
#[derive(Clone, Debug)]
pub struct Event {
    pub id: String,
    pub issue_id: String,
    pub action: EventAction,
    pub timestamp: Timestamp,
    pub user_id: Option<String>,
    pub platform: Option<String>,
    pub platform_version: Option<String>,
    pub harness: Option<String>,
    pub platform_session_id: Option<String>,
    pub harness_session_id: Option<String>,
    pub session_name: Option<String>,
    pub workspace_id: Option<String>,
    pub model: Option<String>,
    pub request_id: Option<String>,
    pub correlation_id: Option<String>,
    pub changes: Vec<FieldChange>,
    pub note: Option<String>,
}

pub struct EventView {
    pub id: Seq<char>,
    pub issue_id: Seq<char>,
    pub action: EventAction,
    pub timestamp: Timestamp,
    pub user_id: Option<Seq<char>>,
    pub platform: Option<Seq<char>>,
    pub platform_version: Option<Seq<char>>,
    pub harness: Option<Seq<char>>,
    pub platform_session_id: Option<Seq<char>>,
    pub harness_session_id: Option<Seq<char>>,
    pub session_name: Option<Seq<char>>,
    pub workspace_id: Option<Seq<char>>,
    pub model: Option<Seq<char>>,
    pub request_id: Option<Seq<char>>,
    pub correlation_id: Option<Seq<char>>,
    pub changes: Seq<FieldChangeView>,
    pub note: Option<Seq<char>>,
}

impl DeepView for EventAction {
    type V = EventAction;

    open spec fn deep_view(&self) -> EventAction {
        *self
    }
}

impl DeepView for FieldValue {
    type V = FieldValueView;

    open spec fn deep_view(&self) -> FieldValueView {
        match self {
            FieldValue::Null => FieldValueView::Null,
            FieldValue::Text(s) => FieldValueView::Text(s@),
            FieldValue::Number(n) => FieldValueView::Number(*n),
            FieldValue::List(v) => FieldValueView::List(v.deep_view()),
            FieldValue::Raw(s) => FieldValueView::Raw(s@),
        }
    }
}

impl DeepView for FieldChange {
    type V = FieldChangeView;

    open spec fn deep_view(&self) -> FieldChangeView {
        FieldChangeView {
            field: self.field@,
            from: self.from.deep_view(),
            to: self.to.deep_view(),
        }
    }
}

impl View for Event {
    type V = EventView;

    open spec fn view(&self) -> EventView {
        EventView {
            id: self.id@,
            issue_id: self.issue_id@,
            action: self.action,
            timestamp: self.timestamp,
            user_id: self.user_id.deep_view(),
            platform: self.platform.deep_view(),
            platform_version: self.platform_version.deep_view(),
            harness: self.harness.deep_view(),
            platform_session_id: self.platform_session_id.deep_view(),
            harness_session_id: self.harness_session_id.deep_view(),
            session_name: self.session_name.deep_view(),
            workspace_id: self.workspace_id.deep_view(),
            model: self.model.deep_view(),
            request_id: self.request_id.deep_view(),
            correlation_id: self.correlation_id.deep_view(),
            changes: self.changes.deep_view(),
            note: self.note.deep_view(),
        }
    }
}

impl DeepView for Event {
    type V = EventView;

    open spec fn deep_view(&self) -> EventView {
        self.view()
    }
}

// -------------------------------------------------------------------- actions

impl EventAction {
    pub open spec fn name(self) -> Seq<char> {
        match self {
            EventAction::Created => "created"@,
            EventAction::Updated => "updated"@,
            EventAction::Closed => "closed"@,
            EventAction::Reopened => "reopened"@,
            EventAction::Deleted => "deleted"@,
            EventAction::Restored => "restored"@,
            EventAction::DepAdded => "dep_added"@,
            EventAction::DepRemoved => "dep_removed"@,
            EventAction::SessionLinked => "session_linked"@,
            EventAction::VerificationAdded => "verification_added"@,
        }
    }

    /// The action that a text names; words may be joined by `_` or `-`.
    pub open spec fn parsed(s: Seq<char>) -> Option<EventAction> {
        if s == "created"@ {
            Some(EventAction::Created)
        } else if s == "updated"@ {
            Some(EventAction::Updated)
        } else if s == "closed"@ {
            Some(EventAction::Closed)
        } else if s == "reopened"@ {
            Some(EventAction::Reopened)
        } else if s == "deleted"@ {
            Some(EventAction::Deleted)
        } else if s == "restored"@ {
            Some(EventAction::Restored)
        } else if s == "dep_added"@ || s == "dep-added"@ {
            Some(EventAction::DepAdded)
        } else if s == "dep_removed"@ || s == "dep-removed"@ {
            Some(EventAction::DepRemoved)
        } else if s == "session_linked"@ || s == "session-linked"@ {
            Some(EventAction::SessionLinked)
        } else if s == "verification_added"@ || s == "verification-added"@ {
            Some(EventAction::VerificationAdded)
        } else {
            None
        }
    }

    pub fn text(&self) -> (r: &'static str)
        ensures
            r@ == self.name(),
    {
        match self {
            EventAction::Created => "created",
            EventAction::Updated => "updated",
            EventAction::Closed => "closed",
            EventAction::Reopened => "reopened",
            EventAction::Deleted => "deleted",
            EventAction::Restored => "restored",
            EventAction::DepAdded => "dep_added",
            EventAction::DepRemoved => "dep_removed",
            EventAction::SessionLinked => "session_linked",
            EventAction::VerificationAdded => "verification_added",
        }
    }

    /// Reads an action from its name.
    pub fn parse(s: &str) -> (r: Result<EventAction, Error>)
        ensures
            match EventAction::parsed(s@) {
                Some(a) => r == Ok::<EventAction, Error>(a),
                None => r is Err && r->Err_0@ == ErrorView::Other("unknown event action: "@ + s@),
            },
    {
        if same_text(s, "created") {
            Ok(EventAction::Created)
        } else if same_text(s, "updated") {
            Ok(EventAction::Updated)
        } else if same_text(s, "closed") {
            Ok(EventAction::Closed)
        } else if same_text(s, "reopened") {
            Ok(EventAction::Reopened)
        } else if same_text(s, "deleted") {
            Ok(EventAction::Deleted)
        } else if same_text(s, "restored") {
            Ok(EventAction::Restored)
        } else if same_text(s, "dep_added") || same_text(s, "dep-added") {
            Ok(EventAction::DepAdded)
        } else if same_text(s, "dep_removed") || same_text(s, "dep-removed") {
            Ok(EventAction::DepRemoved)
        } else if same_text(s, "session_linked") || same_text(s, "session-linked") {
            Ok(EventAction::SessionLinked)
        } else if same_text(s, "verification_added") || same_text(s, "verification-added") {
            Ok(EventAction::VerificationAdded)
        } else {
            Err(Error::Other(concat("unknown event action: ", s)))
        }
    }
}

impl std::str::FromStr for EventAction {
    type Err = Error;

    fn from_str(s: &str) -> (r: Result<EventAction, Error>)
        ensures
            match EventAction::parsed(s@) {
                Some(a) => r == Ok::<EventAction, Error>(a),
                None => r is Err && r->Err_0@ == ErrorView::Other("unknown event action: "@ + s@),
            },
    {
        EventAction::parse(s)
    }
}

/// The name of an action reads back as that action.
pub proof fn action_names_read_back(a: EventAction)
    ensures
        EventAction::parsed(a.name()) == Some(a),
{
    reveal_strlit("created");
    reveal_strlit("updated");
    reveal_strlit("closed");
    reveal_strlit("reopened");
    reveal_strlit("deleted");
    reveal_strlit("restored");
    reveal_strlit("dep_added");
    reveal_strlit("dep-added");
    reveal_strlit("dep_removed");
    reveal_strlit("dep-removed");
    reveal_strlit("session_linked");
    reveal_strlit("session-linked");
    reveal_strlit("verification_added");
    reveal_strlit("verification-added");
    assert("created"@.len() == 7 && "updated"@.len() == 7 && "closed"@.len() == 6
        && "reopened"@.len() == 8 && "deleted"@.len() == 7 && "restored"@.len() == 8
        && "dep_added"@.len() == 9 && "dep-added"@.len() == 9 && "dep_removed"@.len() == 11
        && "dep-removed"@.len() == 11 && "session_linked"@.len() == 14
        && "session-linked"@.len() == 14 && "verification_added"@.len() == 18);
    assert("created"@[0] == 'c' && "updated"@[0] == 'u' && "deleted"@[0] == 'd');
    assert("reopened"@[2] == 'o' && "restored"@[2] == 's');
}

// --------------------------------------------------------------------- events

/// The id of an event made from random bytes and an instant: eight lower-case characters of
/// the digest over both.
pub open spec fn event_id(random: Seq<u8>, at: Timestamp) -> Seq<char> {
    "evt_"@ + digest_text(random, at, 8)
}

/// The id of the event that drew those random bytes at that instant.
pub fn event_id_from(random: &Vec<u8>, at: &Timestamp) -> (r: String)
    ensures
        r@ == event_id(random@, *at),
        r@.len() == 12,
{
    proof {
        reveal_strlit("evt_");
    }
    concat("evt_", &short_digest(random, at, 8))
}

/// The id was drawn: it is made from sixteen random bytes and an instant.
pub open spec fn is_drawn_id(id: Seq<char>) -> bool {
    id.len() == 12 && exists|random: Seq<u8>, at: Timestamp|
        random.len() == 16 && id == #[trigger] event_id(random, at)
}

/// A new event id.
pub fn generate_event_id() -> (r: String)
    ensures
        is_drawn_id(r@),
{
    let random = random_uuid();
    let at = Timestamp::now();
    event_id_from(&random, &at)
}

/// An event with the identity of a context and neither changes nor note.
pub open spec fn plain_event(
    id: Seq<char>,
    issue_id: Seq<char>,
    action: EventAction,
    ctx: AgentCtx,
    at: Timestamp,
) -> EventView {
    EventView {
        id,
        issue_id,
        action,
        timestamp: at,
        user_id: ctx.user_id.deep_view(),
        platform: ctx.platform.deep_view(),
        platform_version: ctx.platform_version.deep_view(),
        harness: ctx.harness.deep_view(),
        platform_session_id: ctx.platform_session_id.deep_view(),
        harness_session_id: ctx.harness_session_id.deep_view(),
        session_name: ctx.session_name.deep_view(),
        workspace_id: ctx.workspace_id.deep_view(),
        model: ctx.model.deep_view(),
        request_id: ctx.request_id.deep_view(),
        correlation_id: ctx.correlation_id.deep_view(),
        changes: seq![],
        note: None,
    }
}

impl EventView {
    /// The event was made just now: its id was drawn, and its time read from the clock.
    pub open spec fn is_fresh(self) -> bool {
        is_drawn_id(self.id) && self.timestamp.is_plain()
    }

    /// Whether the platform's or the harness's session id is this one.
    pub open spec fn in_session(self, session: Seq<char>) -> bool {
        self.platform_session_id == Some(session) || self.harness_session_id == Some(session)
    }

    /// The id under which events are grouped: the platform's, else the harness's.
    pub open spec fn key(self) -> Option<Seq<char>> {
        match self.platform_session_id {
            Some(p) => Some(p),
            None => self.harness_session_id,
        }
    }
}

impl Event {
    /// An event on an issue, now, with the identity of the context.
    pub fn new(issue_id: &str, action: EventAction, ctx: &AgentCtx) -> (r: Event)
        ensures
            r@ == plain_event(r@.id, issue_id@, action, *ctx, r@.timestamp),
            r@.is_fresh(),
    {
        let id = generate_event_id();
        let now = Timestamp::now();
        Event::with_identity(id, issue_id, action, ctx, now)
    }

    /// An event with that id and instant.
    pub fn with_identity(
        id: String,
        issue_id: &str,
        action: EventAction,
        ctx: &AgentCtx,
        at: Timestamp,
    ) -> (r: Event)
        ensures
            r@ == plain_event(id@, issue_id@, action, *ctx, at),
    {
        let r = Event {
            id,
            issue_id: issue_id.to_owned(),
            action,
            timestamp: at,
            user_id: ctx.user_id.clone(),
            platform: ctx.platform.clone(),
            platform_version: ctx.platform_version.clone(),
            harness: ctx.harness.clone(),
            platform_session_id: ctx.platform_session_id.clone(),
            harness_session_id: ctx.harness_session_id.clone(),
            session_name: ctx.session_name.clone(),
            workspace_id: ctx.workspace_id.clone(),
            model: ctx.model.clone(),
            request_id: ctx.request_id.clone(),
            correlation_id: ctx.correlation_id.clone(),
            changes: Vec::new(),
            note: None,
        };
        assert(r.changes.deep_view() =~= seq![]);
        r
    }

    /// The event with those changes.
    pub fn with_changes(self, changes: Vec<FieldChange>) -> (r: Event)
        ensures
            r@ == (EventView { changes: changes.deep_view(), ..self@ }),
    {
        let mut e = self;
        e.changes = changes;
        e
    }

    /// The event with that note.
    pub fn with_note(self, note: &str) -> (r: Event)
        ensures
            r@ == (EventView { note: Some(note@), ..self@ }),
    {
        let mut e = self;
        e.note = Some(note.to_owned());
        e
    }

    /// Whether the event carries that session id, the platform's or the harness's.
    pub fn matches_session(&self, session_id: &str) -> (r: bool)
        ensures
            r == self@.in_session(session_id@),
    {
        opt_is(&self.platform_session_id, session_id) || opt_is(
            &self.harness_session_id,
            session_id,
        )
    }

    /// The session id under which the event is grouped.
    pub fn session_key(&self) -> (r: Option<String>)
        ensures
            r.deep_view() == self@.key(),
    {
        match &self.platform_session_id {
            Some(p) => Some(p.clone()),
            None => self.harness_session_id.clone(),
        }
    }
}

/// Whether an optional text is there and equal to `s`.
pub fn opt_is(o: &Option<String>, s: &str) -> (r: bool)
    ensures
        r == (o.deep_view() == Some(s@)),
{
    match o {
        Some(x) => same_text(x, s),
        None => false,
    }
}

/// Whether two optional texts are the same.
pub fn same_opt(a: &Option<String>, b: &Option<String>) -> (r: bool)
    ensures
        r == (a.deep_view() == b.deep_view()),
{
    match (a, b) {
        (Some(x), Some(y)) => same_text(x, y),
        (None, None) => true,
        _ => false,
    }
}

/// Whether two lists of texts are the same.
pub fn same_list(a: &Vec<String>, b: &Vec<String>) -> (r: bool)
    ensures
        r == (a.deep_view() == b.deep_view()),
{
    if a.len() != b.len() {
        assert(a.deep_view().len() != b.deep_view().len());
        return false;
    }
    let mut i: usize = 0;
    while i < a.len()
        invariant
            i <= a.len(),
            a.len() == b.len(),
            forall|j: int| 0 <= j < i ==> (#[trigger] a@[j])@ == b@[j]@,
        decreases a.len() - i,
    {
        if !same_text(&a[i], &b[i]) {
            assert(a.deep_view()[i as int] != b.deep_view()[i as int]);
            return false;
        }
        i += 1;
    }
    assert(a.deep_view() =~= b.deep_view());
    true
}

// ---------------------------------------------------------------- differences

pub open spec fn opt_value(o: Option<Seq<char>>) -> FieldValueView {
    match o {
        Some(s) => FieldValueView::Text(s),
        None => FieldValueView::Null,
    }
}

/// One change where the values differ, none where they are equal.
pub open spec fn change_of(
    field: Seq<char>,
    from: FieldValueView,
    to: FieldValueView,
) -> Seq<FieldChangeView> {
    if from == to {
        seq![]
    } else {
        seq![FieldChangeView { field, from: Some(from), to: Some(to) }]
    }
}

/// The changes between two states of an issue, over the fields that are logged.
pub open spec fn issue_changes(b: IssueView, a: IssueView) -> Seq<FieldChangeView> {
    change_of("title"@, FieldValueView::Text(b.title), FieldValueView::Text(a.title)) + change_of(
        "description"@,
        opt_value(b.description),
        opt_value(a.description),
    ) + change_of(
        "status"@,
        FieldValueView::Text(b.status.name()),
        FieldValueView::Text(a.status.name()),
    ) + change_of(
        "priority"@,
        FieldValueView::Number(b.priority as u64),
        FieldValueView::Number(a.priority as u64),
    ) + change_of(
        "issue_type"@,
        FieldValueView::Text(b.issue_type.name()),
        FieldValueView::Text(a.issue_type.name()),
    ) + change_of("labels"@, FieldValueView::List(b.labels), FieldValueView::List(a.labels))
        + change_of("assignee"@, opt_value(b.assignee), opt_value(a.assignee)) + change_of(
        "notes"@,
        opt_value(b.notes),
        opt_value(a.notes),
    ) + change_of("close_reason"@, opt_value(b.close_reason), opt_value(a.close_reason))
        + change_of("sessions"@, FieldValueView::List(b.sessions), FieldValueView::List(a.sessions))
}

fn value_of_opt(o: &Option<String>) -> (r: FieldValue)
    ensures
        r.deep_view() == opt_value(o.deep_view()),
{
    match o {
        Some(s) => FieldValue::Text(s.clone()),
        None => FieldValue::Null,
    }
}

fn push_change(changes: &mut Vec<FieldChange>, field: &str, from: FieldValue, to: FieldValue)
    requires
        from.deep_view() != to.deep_view(),
    ensures
        final(changes).deep_view() == old(changes).deep_view() + change_of(
            field@,
            from.deep_view(),
            to.deep_view(),
        ),
{
    let ghost before = changes.deep_view();
    let c = FieldChange { field: field.to_owned(), from: Some(from), to: Some(to) };
    changes.push(c);
    assert(changes.deep_view() =~= before + change_of(field@, from.deep_view(), to.deep_view()));
}

fn push_opt_change(
    changes: &mut Vec<FieldChange>,
    field: &str,
    from: &Option<String>,
    to: &Option<String>,
)
    ensures
        final(changes).deep_view() == old(changes).deep_view() + change_of(
            field@,
            opt_value(from.deep_view()),
            opt_value(to.deep_view()),
        ),
{
    if same_opt(from, to) {
        assert(changes.deep_view() =~= changes.deep_view() + Seq::<FieldChangeView>::empty());
    } else {
        let f = value_of_opt(from);
        let t = value_of_opt(to);
        push_change(changes, field, f, t);
    }
}

fn push_text_change(changes: &mut Vec<FieldChange>, field: &str, from: &str, to: &str)
    ensures
        final(changes).deep_view() == old(changes).deep_view() + change_of(
            field@,
            FieldValueView::Text(from@),
            FieldValueView::Text(to@),
        ),
{
    if same_text(from, to) {
        assert(changes.deep_view() =~= changes.deep_view() + Seq::<FieldChangeView>::empty());
    } else {
        push_change(
            changes,
            field,
            FieldValue::Text(from.to_owned()),
            FieldValue::Text(to.to_owned()),
        );
    }
}

fn push_list_change(
    changes: &mut Vec<FieldChange>,
    field: &str,
    from: &Vec<String>,
    to: &Vec<String>,
)
    ensures
        final(changes).deep_view() == old(changes).deep_view() + change_of(
            field@,
            FieldValueView::List(from.deep_view()),
            FieldValueView::List(to.deep_view()),
        ),
{
    if same_list(from, to) {
        assert(changes.deep_view() =~= changes.deep_view() + Seq::<FieldChangeView>::empty());
    } else {
        push_change(
            changes,
            field,
            FieldValue::List(copy_texts(from)),
            FieldValue::List(copy_texts(to)),
        );
    }
}

fn push_number_change(changes: &mut Vec<FieldChange>, field: &str, from: u64, to: u64)
    ensures
        final(changes).deep_view() == old(changes).deep_view() + change_of(
            field@,
            FieldValueView::Number(from),
            FieldValueView::Number(to),
        ),
{
    if from == to {
        assert(changes.deep_view() =~= changes.deep_view() + Seq::<FieldChangeView>::empty());
    } else {
        push_change(changes, field, FieldValue::Number(from), FieldValue::Number(to));
    }
}

/// The changes from `before` to `after` over the fields that users set. The time of the
/// last update and the bookkeeping of deletion are left out.
pub fn diff_issue(before: &Issue, after: &Issue) -> (r: Vec<FieldChange>)
    ensures
        r.deep_view() == issue_changes(before@, after@),
{
    let mut r: Vec<FieldChange> = Vec::new();
    assert(r.deep_view() =~= seq![]);
    push_text_change(&mut r, "title", &before.title, &after.title);
    assert(r.deep_view() =~= change_of(
        "title"@,
        FieldValueView::Text(before@.title),
        FieldValueView::Text(after@.title),
    ));
    push_opt_change(&mut r, "description", &before.description, &after.description);
    push_text_change(&mut r, "status", before.status.text(), after.status.text());
    push_number_change(&mut r, "priority", before.priority as u64, after.priority as u64);
    push_text_change(&mut r, "issue_type", before.issue_type.text(), after.issue_type.text());
    push_list_change(&mut r, "labels", &before.labels, &after.labels);
    push_opt_change(&mut r, "assignee", &before.assignee, &after.assignee);
    push_opt_change(&mut r, "notes", &before.notes, &after.notes);
    push_opt_change(&mut r, "close_reason", &before.close_reason, &after.close_reason);
    push_list_change(&mut r, "sessions", &before.sessions, &after.sessions);
    r
}

/// The fields of an issue that are logged.
pub open spec fn same_logged_fields(b: IssueView, a: IssueView) -> bool {
    &&& b.title == a.title
    &&& b.description == a.description
    &&& b.status == a.status
    &&& b.priority == a.priority
    &&& b.issue_type == a.issue_type
    &&& b.labels == a.labels
    &&& b.assignee == a.assignee
    &&& b.notes == a.notes
    &&& b.close_reason == a.close_reason
    &&& b.sessions == a.sessions
}

/// Two states of an issue show no change exactly where their logged fields agree.
pub proof fn no_changes_means_same_fields(b: IssueView, a: IssueView)
    ensures
        issue_changes(b, a).len() == 0 <==> same_logged_fields(b, a),
{
    crate::issue::status_names_read_back(b.status);
    crate::issue::status_names_read_back(a.status);
    crate::issue::issue_type_names_read_back(b.issue_type);
    crate::issue::issue_type_names_read_back(a.issue_type);
    assert(b.status.name() == a.status.name() <==> b.status == a.status);
    assert(b.issue_type.name() == a.issue_type.name() <==> b.issue_type == a.issue_type);
    assert(opt_value(b.description) == opt_value(a.description) <==> b.description
        == a.description);
    assert(opt_value(b.assignee) == opt_value(a.assignee) <==> b.assignee == a.assignee);
    assert(opt_value(b.notes) == opt_value(a.notes) <==> b.notes == a.notes);
    assert(opt_value(b.close_reason) == opt_value(a.close_reason) <==> b.close_reason
        == a.close_reason);
}

// ----------------------------------------------------------------- enrichment

/// `list` with those of `ids` appended that it lacks.
pub open spec fn with_missing(list: Seq<Seq<char>>, ids: Seq<Seq<char>>) -> Seq<Seq<char>>
    decreases ids.len(),
{
    if ids.len() == 0 {
        list
    } else {
        let l = with_missing(list, ids.drop_last());
        if l.contains(ids.last()) {
            l
        } else {
            l.push(ids.last())
        }
    }
}

/// The issue with its creator filled from the context, where it has none, and the session
/// ids of the context among its sessions.
pub open spec fn enriched(i: IssueView, ctx: AgentCtx) -> IssueView {
    IssueView {
        created_by: if i.created_by is None {
            ctx.user_id.deep_view()
        } else {
            i.created_by
        },
        sessions: with_missing(i.sessions, ctx.ids()),
        ..i
    }
}

proof fn lemma_with_missing_keeps(list: Seq<Seq<char>>, ids: Seq<Seq<char>>)
    ensures
        list.len() <= with_missing(list, ids).len(),
        with_missing(list, ids).take(list.len() as int) == list,
        forall|x: Seq<char>| list.contains(x) ==> with_missing(list, ids).contains(x),
        forall|k: int| 0 <= k < ids.len() ==> with_missing(list, ids).contains(#[trigger] ids[k]),
    decreases ids.len(),
{
    if ids.len() == 0 {
        assert(list.take(list.len() as int) =~= list);
    } else {
        let l = with_missing(list, ids.drop_last());
        let m = with_missing(list, ids);
        lemma_with_missing_keeps(list, ids.drop_last());
        assert(m.take(list.len() as int) =~= l.take(list.len() as int));
        assert forall|x: Seq<char>| l.contains(x) implies m.contains(x) by {
            let k = choose|k: int| 0 <= k < l.len() && l[k] == x;
            assert(m[k] == x);
        }
        if !l.contains(ids.last()) {
            assert(m[l.len() as int] == ids.last());
        }
        assert forall|k: int| 0 <= k < ids.len() implies m.contains(#[trigger] ids[k]) by {
            if k < ids.len() - 1 {
                assert(ids.drop_last()[k] == ids[k]);
            }
        }
    }
}

proof fn lemma_with_missing_fixed(list: Seq<Seq<char>>, ids: Seq<Seq<char>>)
    requires
        forall|k: int| 0 <= k < ids.len() ==> list.contains(#[trigger] ids[k]),
    ensures
        with_missing(list, ids) == list,
    decreases ids.len(),
{
    if ids.len() > 0 {
        assert forall|k: int| 0 <= k < ids.len() - 1 implies list.contains(
            #[trigger] ids.drop_last()[k],
        ) by {
            assert(ids.drop_last()[k] == ids[k]);
        }
        lemma_with_missing_fixed(list, ids.drop_last());
        assert(list.contains(ids[ids.len() - 1]));
    }
}

/// Fills in what the context knows of an issue. Says whether anything changed.
pub fn enrich_issue(issue: &mut Issue, ctx: &AgentCtx) -> (r: bool)
    ensures
        final(issue)@ == enriched(old(issue)@, *ctx),
        r == (final(issue)@ != old(issue)@),
{
    let mut touched: bool = false;
    let ghost start = issue@;
    if issue.created_by.is_none() {
        match &ctx.user_id {
            Some(uid) => {
                issue.created_by = Some(uid.clone());
                touched = true;
            },
            None => {},
        }
    }
    let ids = ctx.session_ids();
    let ghost named = issue@;
    let mut i: usize = 0;
    assert(ids.deep_view().take(0) =~= seq![]);
    while i < ids.len()
        invariant
            i <= ids.len(),
            ids.deep_view() == ctx.ids(),
            issue@ == (IssueView {
                sessions: with_missing(start.sessions, ctx.ids().take(i as int)),
                ..named
            }),
            named.sessions == start.sessions,
            named == (IssueView { created_by: named.created_by, ..start }),
            touched == (issue@.sessions.len() != start.sessions.len() || named.created_by
                != start.created_by),
            issue@.sessions.len() >= start.sessions.len(),
        decreases ids.len() - i,
    {
        assert(ctx.ids().take(i + 1).drop_last() =~= ctx.ids().take(i as int));
        assert(ids.deep_view()[i as int] == ids@[i as int]@);
        if !contains_text(&issue.sessions, &ids[i]) {
            let ghost before = issue.sessions.deep_view();
            issue.sessions.push(ids[i].clone());
            assert(issue.sessions.deep_view() =~= before.push(ids@[i as int]@));
            touched = true;
        }
        i += 1;
    }
    assert(ctx.ids().take(ctx.ids().len() as int) =~= ctx.ids());
    proof {
        lemma_with_missing_keeps(start.sessions, ctx.ids());
        if issue@.sessions.len() == start.sessions.len() {
            assert(issue@.sessions =~= issue@.sessions.take(start.sessions.len() as int));
        }
    }
    touched
}

/// Applying the same context a second time changes nothing.
pub proof fn enriching_twice_is_enriching_once(i: IssueView, ctx: AgentCtx)
    ensures
        enriched(enriched(i, ctx), ctx) == enriched(i, ctx),
{
    lemma_with_missing_keeps(i.sessions, ctx.ids());
    lemma_with_missing_fixed(with_missing(i.sessions, ctx.ids()), ctx.ids());
}

/// A creator that is set stays, and so does every session, in its place.
pub proof fn enriching_overwrites_nothing(i: IssueView, ctx: AgentCtx)
    ensures
        i.created_by is Some ==> enriched(i, ctx).created_by == i.created_by,
        i.sessions.len() <= enriched(i, ctx).sessions.len(),
        enriched(i, ctx).sessions.take(i.sessions.len() as int) == i.sessions,
        forall|k: int|
            0 <= k < ctx.ids().len() ==> enriched(i, ctx).sessions.contains(
                #[trigger] ctx.ids()[k],
            ),
{
    lemma_with_missing_keeps(i.sessions, ctx.ids());
}

/// One of the changes tells that this field had one value and has another.
pub open spec fn tells(
    changes: Seq<FieldChangeView>,
    field: Seq<char>,
    from: FieldValueView,
    to: FieldValueView,
) -> bool {
    changes.contains(FieldChangeView { field, from: Some(from), to: Some(to) })
}

/// An optional text as it is logged.
pub open spec fn opt_field(o: Option<Seq<char>>) -> FieldValueView {
    if o is Some {
        FieldValueView::Text(o->0)
    } else {
        FieldValueView::Null
    }
}

proof fn lemma_in_sum(a: Seq<FieldChangeView>, b: Seq<FieldChangeView>, c: FieldChangeView)
    ensures
        (a + b).contains(c) <==> a.contains(c) || b.contains(c),
{
    if a.contains(c) {
        let k = choose|k: int| 0 <= k < a.len() && a[k] == c;
        assert((a + b)[k] == c);
    }
    if b.contains(c) {
        let k = choose|k: int| 0 <= k < b.len() && b[k] == c;
        assert((a + b)[a.len() + k] == c);
    }
    if (a + b).contains(c) {
        let k = choose|k: int| 0 <= k < (a + b).len() && (a + b)[k] == c;
        if k < a.len() {
            assert(a[k] == c);
        } else {
            assert(b[k - a.len()] == c);
        }
    }
}

/// The change is the one of this field, from one value to another.
spec fn is_change(
    c: FieldChangeView,
    field: Seq<char>,
    from: FieldValueView,
    to: FieldValueView,
) -> bool {
    c == (FieldChangeView { field, from: Some(from), to: Some(to) }) && from != to
}

proof fn lemma_one_change(
    field: Seq<char>,
    from: FieldValueView,
    to: FieldValueView,
    c: FieldChangeView,
)
    ensures
        change_of(field, from, to).contains(c) <==> is_change(c, field, from, to),
{
    if is_change(c, field, from, to) {
        assert(change_of(field, from, to)[0] == c);
    }
}

#[verifier::spinoff_prover]
proof fn lemma_changes(b: IssueView, a: IssueView, c: FieldChangeView)
    ensures
        issue_changes(b, a).contains(c) <==> {
            ||| is_change(c, "title"@, FieldValueView::Text(b.title), FieldValueView::Text(a.title))
            ||| is_change(c, "description"@, opt_value(b.description), opt_value(a.description))
            ||| is_change(c, "status"@, FieldValueView::Text(b.status.name()), FieldValueView::Text(a.status.name()))
            ||| is_change(c, "priority"@, FieldValueView::Number(b.priority as u64), FieldValueView::Number(a.priority as u64))
            ||| is_change(c, "issue_type"@, FieldValueView::Text(b.issue_type.name()), FieldValueView::Text(a.issue_type.name()))
            ||| is_change(c, "labels"@, FieldValueView::List(b.labels), FieldValueView::List(a.labels))
            ||| is_change(c, "assignee"@, opt_value(b.assignee), opt_value(a.assignee))
            ||| is_change(c, "notes"@, opt_value(b.notes), opt_value(a.notes))
            ||| is_change(c, "close_reason"@, opt_value(b.close_reason), opt_value(a.close_reason))
            ||| is_change(c, "sessions"@, FieldValueView::List(b.sessions), FieldValueView::List(a.sessions))
        },
        issue_changes(b, a).len() <= 10,
{
    let p0 = change_of("title"@, FieldValueView::Text(b.title), FieldValueView::Text(a.title));
    let p1 = change_of("description"@, opt_value(b.description), opt_value(a.description));
    let p2 = change_of("status"@, FieldValueView::Text(b.status.name()), FieldValueView::Text(a.status.name()));
    let p3 = change_of("priority"@, FieldValueView::Number(b.priority as u64), FieldValueView::Number(a.priority as u64));
    let p4 = change_of("issue_type"@, FieldValueView::Text(b.issue_type.name()), FieldValueView::Text(a.issue_type.name()));
    let p5 = change_of("labels"@, FieldValueView::List(b.labels), FieldValueView::List(a.labels));
    let p6 = change_of("assignee"@, opt_value(b.assignee), opt_value(a.assignee));
    let p7 = change_of("notes"@, opt_value(b.notes), opt_value(a.notes));
    let p8 = change_of("close_reason"@, opt_value(b.close_reason), opt_value(a.close_reason));
    let p9 = change_of("sessions"@, FieldValueView::List(b.sessions), FieldValueView::List(a.sessions));
    let s0 = p0;
    let s1 = s0 + p1;
    let s2 = s1 + p2;
    let s3 = s2 + p3;
    let s4 = s3 + p4;
    let s5 = s4 + p5;
    let s6 = s5 + p6;
    let s7 = s6 + p7;
    let s8 = s7 + p8;
    let s9 = s8 + p9;
    assert(issue_changes(b, a) == s9);
    lemma_one_change("title"@, FieldValueView::Text(b.title), FieldValueView::Text(a.title), c);
    lemma_one_change("description"@, opt_value(b.description), opt_value(a.description), c);
    lemma_one_change("status"@, FieldValueView::Text(b.status.name()), FieldValueView::Text(a.status.name()), c);
    lemma_one_change("priority"@, FieldValueView::Number(b.priority as u64), FieldValueView::Number(a.priority as u64), c);
    lemma_one_change("issue_type"@, FieldValueView::Text(b.issue_type.name()), FieldValueView::Text(a.issue_type.name()), c);
    lemma_one_change("labels"@, FieldValueView::List(b.labels), FieldValueView::List(a.labels), c);
    lemma_one_change("assignee"@, opt_value(b.assignee), opt_value(a.assignee), c);
    lemma_one_change("notes"@, opt_value(b.notes), opt_value(a.notes), c);
    lemma_one_change("close_reason"@, opt_value(b.close_reason), opt_value(a.close_reason), c);
    lemma_one_change("sessions"@, FieldValueView::List(b.sessions), FieldValueView::List(a.sessions), c);
    lemma_in_sum(s0, p1, c);
    lemma_in_sum(s1, p2, c);
    lemma_in_sum(s2, p3, c);
    lemma_in_sum(s3, p4, c);
    lemma_in_sum(s4, p5, c);
    lemma_in_sum(s5, p6, c);
    lemma_in_sum(s6, p7, c);
    lemma_in_sum(s7, p8, c);
    lemma_in_sum(s8, p9, c);
}

/// Of every field that is logged and differs between two states of an issue, the changes tell
/// what it was and what it is. Each is a change from one value to another of such a field.
#[verifier::spinoff_prover]
pub proof fn changes_tell_what_differs(b: IssueView, a: IssueView)
    ensures
        b.title != a.title ==> tells(issue_changes(b, a), "title"@, FieldValueView::Text(b.title), FieldValueView::Text(a.title)),
        b.description != a.description ==> tells(issue_changes(b, a), "description"@, opt_field(b.description), opt_field(a.description)),
        b.status != a.status ==> tells(issue_changes(b, a), "status"@, FieldValueView::Text(b.status.name()), FieldValueView::Text(a.status.name())),
        b.priority != a.priority ==> tells(issue_changes(b, a), "priority"@, FieldValueView::Number(b.priority as u64), FieldValueView::Number(a.priority as u64)),
        b.issue_type != a.issue_type ==> tells(issue_changes(b, a), "issue_type"@, FieldValueView::Text(b.issue_type.name()), FieldValueView::Text(a.issue_type.name())),
        b.labels != a.labels ==> tells(issue_changes(b, a), "labels"@, FieldValueView::List(b.labels), FieldValueView::List(a.labels)),
        b.assignee != a.assignee ==> tells(issue_changes(b, a), "assignee"@, opt_field(b.assignee), opt_field(a.assignee)),
        b.notes != a.notes ==> tells(issue_changes(b, a), "notes"@, opt_field(b.notes), opt_field(a.notes)),
        b.close_reason != a.close_reason ==> tells(issue_changes(b, a), "close_reason"@, opt_field(b.close_reason), opt_field(a.close_reason)),
        b.sessions != a.sessions ==> tells(issue_changes(b, a), "sessions"@, FieldValueView::List(b.sessions), FieldValueView::List(a.sessions)),
        forall|c: FieldChangeView| #[trigger]
            issue_changes(b, a).contains(c) ==> c.from is Some && c.to is Some && c.from != c.to && (
            c.field == "title"@ || c.field == "description"@ || c.field == "status"@ || c.field
                == "priority"@ || c.field == "issue_type"@ || c.field == "labels"@ || c.field
                == "assignee"@ || c.field == "notes"@ || c.field == "close_reason"@ || c.field
                == "sessions"@),
        issue_changes(b, a).len() <= 10,
{
    crate::issue::status_names_read_back(b.status);
    crate::issue::status_names_read_back(a.status);
    crate::issue::issue_type_names_read_back(b.issue_type);
    crate::issue::issue_type_names_read_back(a.issue_type);
    lemma_changes(
        b,
        a,
        FieldChangeView { field: "title"@, from: Some(FieldValueView::Text(b.title)), to: Some(FieldValueView::Text(a.title)) },
    );
    lemma_changes(
        b,
        a,
        FieldChangeView { field: "description"@, from: Some(opt_value(b.description)), to: Some(opt_value(a.description)) },
    );
    lemma_changes(
        b,
        a,
        FieldChangeView { field: "status"@, from: Some(FieldValueView::Text(b.status.name())), to: Some(FieldValueView::Text(a.status.name())) },
    );
    lemma_changes(
        b,
        a,
        FieldChangeView { field: "priority"@, from: Some(FieldValueView::Number(b.priority as u64)), to: Some(FieldValueView::Number(a.priority as u64)) },
    );
    lemma_changes(
        b,
        a,
        FieldChangeView { field: "issue_type"@, from: Some(FieldValueView::Text(b.issue_type.name())), to: Some(FieldValueView::Text(a.issue_type.name())) },
    );
    lemma_changes(
        b,
        a,
        FieldChangeView { field: "labels"@, from: Some(FieldValueView::List(b.labels)), to: Some(FieldValueView::List(a.labels)) },
    );
    lemma_changes(
        b,
        a,
        FieldChangeView { field: "assignee"@, from: Some(opt_value(b.assignee)), to: Some(opt_value(a.assignee)) },
    );
    lemma_changes(
        b,
        a,
        FieldChangeView { field: "notes"@, from: Some(opt_value(b.notes)), to: Some(opt_value(a.notes)) },
    );
    lemma_changes(
        b,
        a,
        FieldChangeView { field: "close_reason"@, from: Some(opt_value(b.close_reason)), to: Some(opt_value(a.close_reason)) },
    );
    lemma_changes(
        b,
        a,
        FieldChangeView { field: "sessions"@, from: Some(FieldValueView::List(b.sessions)), to: Some(FieldValueView::List(a.sessions)) },
    );
    assert forall|c: FieldChangeView| #[trigger] issue_changes(b, a).contains(c) implies c.from is Some
        && c.to is Some && c.from != c.to && (c.field == "title"@ || c.field == "description"@
        || c.field == "status"@ || c.field == "priority"@ || c.field == "issue_type"@ || c.field
        == "labels"@ || c.field == "assignee"@ || c.field == "notes"@ || c.field
        == "close_reason"@ || c.field == "sessions"@) by {
        lemma_changes(b, a, c);
    }
}

/// An event says what happened to which issue and when, and who did it with what: every part of
/// the context has its place in it.
pub proof fn events_carry_their_context(
    id: Seq<char>,
    issue_id: Seq<char>,
    action: EventAction,
    ctx: AgentCtx,
    at: Timestamp,
)
    ensures
        ({
            let e = plain_event(id, issue_id, action, ctx, at);
            &&& e.id == id && e.issue_id == issue_id && e.action == action && e.timestamp == at
            &&& e.user_id == ctx.user_id.deep_view() && e.platform == ctx.platform.deep_view()
            &&& e.platform_version == ctx.platform_version.deep_view() && e.harness
                == ctx.harness.deep_view()
            &&& e.platform_session_id == ctx.platform_session_id.deep_view()
                && e.harness_session_id == ctx.harness_session_id.deep_view()
            &&& e.session_name == ctx.session_name.deep_view() && e.workspace_id
                == ctx.workspace_id.deep_view()
            &&& e.model == ctx.model.deep_view() && e.request_id == ctx.request_id.deep_view()
                && e.correlation_id == ctx.correlation_id.deep_view()
            &&& e.changes.len() == 0 && e.note is None
        }),
{
}

/// An event belongs to the session of its platform and to that of its harness; it is grouped
/// under the platform's, and under the harness's where there is no other.
pub proof fn events_belong_to_their_sessions(e: EventView, session: Seq<char>)
    ensures
        e.in_session(session) <==> e.platform_session_id == Some(session) || e.harness_session_id
            == Some(session),
        e.platform_session_id is Some ==> e.key() == e.platform_session_id,
        e.platform_session_id is None ==> e.key() == e.harness_session_id,
{
}

proof fn lemma_with_missing_adds_only(list: Seq<Seq<char>>, ids: Seq<Seq<char>>, x: Seq<char>)
    ensures
        with_missing(list, ids).contains(x) ==> list.contains(x) || ids.contains(x),
    decreases ids.len(),
{
    if ids.len() > 0 {
        let front = ids.drop_last();
        let l = with_missing(list, front);
        lemma_with_missing_adds_only(list, front, x);
        if with_missing(list, ids).contains(x) && !l.contains(x) {
            let m = with_missing(list, ids);
            let k = choose|k: int| 0 <= k < m.len() && m[k] == x;
            if k < l.len() {
                assert(l[k] == x);
            }
            assert(ids[ids.len() - 1] == x);
        } else if front.contains(x) {
            let k = choose|k: int| 0 <= k < front.len() && front[k] == x;
            assert(ids[k] == x);
        }
    }
}

/// A context names the creator of an issue that has none and adds its sessions; it adds no
/// others and changes nothing else.
pub proof fn enriching_adds_only_the_context(i: IssueView, ctx: AgentCtx, x: Seq<char>)
    ensures
        i.created_by is None ==> enriched(i, ctx).created_by == ctx.user_id.deep_view(),
        enriched(i, ctx).sessions.contains(x) ==> i.sessions.contains(x) || ctx.ids().contains(x),
        enriched(i, ctx).id == i.id,
        enriched(i, ctx).title == i.title,
        enriched(i, ctx).description == i.description,
        enriched(i, ctx).status == i.status,
        enriched(i, ctx).priority == i.priority,
        enriched(i, ctx).issue_type == i.issue_type,
        enriched(i, ctx).labels == i.labels,
        enriched(i, ctx).assignee == i.assignee,
        enriched(i, ctx).notes == i.notes,
        enriched(i, ctx).created_at == i.created_at,
        enriched(i, ctx).updated_at == i.updated_at,
        enriched(i, ctx).closed_at == i.closed_at,
        enriched(i, ctx).close_reason == i.close_reason,
        enriched(i, ctx).deleted_at == i.deleted_at,
        enriched(i, ctx).deleted_by == i.deleted_by,
        enriched(i, ctx).delete_reason == i.delete_reason,
        enriched(i, ctx).original_type == i.original_type,
        enriched(i, ctx).dependencies == i.dependencies,
{
    lemma_with_missing_adds_only(i.sessions, ctx.ids(), x);
}

/// The names under which actions are written.
pub proof fn action_names_are_these()
    ensures
        EventAction::Created.name() == "created"@ && EventAction::Updated.name() == "updated"@
            && EventAction::Closed.name() == "closed"@ && EventAction::Reopened.name()
            == "reopened"@,
        EventAction::Deleted.name() == "deleted"@ && EventAction::Restored.name() == "restored"@
            && EventAction::DepAdded.name() == "dep_added"@ && EventAction::DepRemoved.name()
            == "dep_removed"@,
        EventAction::SessionLinked.name() == "session_linked"@
            && EventAction::VerificationAdded.name() == "verification_added"@,
{
}

// ------------------------------------------------------------------------ log

/// The log of a `.trx` directory.
pub struct EventLog {
    path: String,
}

impl EventLog {
    pub closed spec fn spec_path(self) -> Seq<char> {
        self.path@
    }

    /// The log of the given `.trx` directory.
    pub fn at(trx_dir: &str) -> (r: EventLog)
        ensures
            r.spec_path() == joined_path(trx_dir@, "events.jsonl"@),
    {
        EventLog { path: join_path(trx_dir, "events.jsonl") }
    }

    pub fn path(&self) -> (r: &String)
        ensures
            r@ == self.spec_path(),
    {
        &self.path
    }

    /// The events of the log in file order, and the numbers of the lines that hold none.
    /// `parsed` holds what each line of the file that is not blank was read as.
    pub fn read_all(&self, lines: &Vec<LogLine>, parsed: Vec<Option<Event>>) -> (r: (
        Vec<Event>,
        Vec<usize>,
    ))
        requires
            lines.len() == parsed.len(),
        ensures
            r.0.deep_view() == well_formed(parsed.deep_view()),
            r.1@ == skipped_numbers(lines.deep_view(), parsed.deep_view()),
            forall|parse: spec_fn(Seq<char>) -> Option<EventView>| #[trigger]
                parses(lines.deep_view(), parsed.deep_view(), parse) ==> r.0.deep_view()
                    == values_in(lines.deep_view(), parse),
    {
        keep_well_formed(lines, parsed)
    }
}

/// An event that is appended to the log is the last that `read_all` gives back; every earlier one
/// is still there, in file order and unchanged, and blank or malformed lines behind it add
/// nothing. `lines` and `parsed` are what stands in the log then and what it was read as.
pub proof fn appended_event_reads_back(
    content: Seq<char>,
    line: Seq<char>,
    rest: Seq<Seq<char>>,
    parse: spec_fn(Seq<char>) -> Option<EventView>,
    added: EventView,
    lines: Seq<LogLineView>,
    parsed: Seq<Option<EventView>>,
)
    requires
        is_framed(content),
        is_line(line),
        parse(line) == Some(added),
        forall|i: int|
            0 <= i < rest.len() ==> !(#[trigger] rest[i]).contains('\n') && line_values(
                rest[i],
                parse,
            ) == Seq::<EventView>::empty(),
        lines == numbered(lines_of(content + framed(line) + framed_all(rest))),
        parses(lines, parsed, parse),
    ensures
        well_formed(parsed) == log_values(content, parse).push(added),
{
    appended_value_reads_back(content, line, rest, parse, added);
    assert(parsed =~= Seq::new(lines.len(), |i: int| parse(lines[i].text)));
}

} // verus!
