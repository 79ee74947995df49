//! The state of the interactive view, and what each key does to it. What has to be read or
//! written is handed out as an effect.
use crate::editing::{add_note, describe, described, noted};
use crate::error::{Error, ErrorView};
use crate::events::{Event, EventView};
use crate::filter::{keep, Test};
use crate::form::{
    drop_last_char, empty_form, form_issue, form_of, form_step, form_update, without_last, FormView, IssueForm, KeyAction,
};
use crate::issue::{contains_text, Issue, IssueType, IssueView, Status};
use crate::query::{issue_mentions, key_le, mentions, SortKey};
use crate::selection::{SelectionState, SelectionView};
use crate::sort::{stable_sort, stable_sorted, Order};
use crate::store::{
    copy_issues, lines_for, listed, listed_open, lookup, with_issue, Store, Stored,
};
use crate::text::{concat, decimal, decimal_text, holds_text, is_blank, is_blank_text, lowercased, same_text, to_lowercase};
use crate::time::Timestamp;
use crate::timeline::{
    group_id, group_of, older_first, summaries, summarize_sessions, SessionSummary, SessionSummaryView,
};
use vstd::prelude::*;

verus! {

// --------------------------------------------------------------------- filters

/// A set of states.
#[derive(Clone, Copy, Debug, PartialEq, Eq, Structural)]
pub struct StatusSet {
    pub open: bool,
    pub in_progress: bool,
    pub blocked: bool,
    pub closed: bool,
    pub tombstone: bool,
}

/// A set of types.
#[derive(Clone, Copy, Debug, PartialEq, Eq, Structural)]
pub struct TypeSet {
    pub bug: bool,
    pub feature: bool,
    pub task: bool,
    pub epic: bool,
    pub chore: bool,
}

impl StatusSet {
    pub open spec fn has(self, s: Status) -> bool {
        match s {
            Status::Open => self.open,
            Status::InProgress => self.in_progress,
            Status::Blocked => self.blocked,
            Status::Closed => self.closed,
            Status::Tombstone => self.tombstone,
        }
    }

    /// The set with that state put in or taken out.
    pub open spec fn flipped(self, s: Status) -> StatusSet {
        match s {
            Status::Open => StatusSet { open: !self.open, ..self },
            Status::InProgress => StatusSet { in_progress: !self.in_progress, ..self },
            Status::Blocked => StatusSet { blocked: !self.blocked, ..self },
            Status::Closed => StatusSet { closed: !self.closed, ..self },
            Status::Tombstone => StatusSet { tombstone: !self.tombstone, ..self },
        }
    }

    pub fn contains(&self, s: Status) -> (r: bool)
        ensures
            r == self.has(s),
    {
        match s {
            Status::Open => self.open,
            Status::InProgress => self.in_progress,
            Status::Blocked => self.blocked,
            Status::Closed => self.closed,
            Status::Tombstone => self.tombstone,
        }
    }

    pub fn flip(&mut self, s: Status)
        ensures
            *final(self) == old(self).flipped(s),
    {
        match s {
            Status::Open => self.open = !self.open,
            Status::InProgress => self.in_progress = !self.in_progress,
            Status::Blocked => self.blocked = !self.blocked,
            Status::Closed => self.closed = !self.closed,
            Status::Tombstone => self.tombstone = !self.tombstone,
        }
    }
}

impl TypeSet {
    pub open spec fn has(self, t: IssueType) -> bool {
        match t {
            IssueType::Bug => self.bug,
            IssueType::Feature => self.feature,
            IssueType::Task => self.task,
            IssueType::Epic => self.epic,
            IssueType::Chore => self.chore,
        }
    }

    /// The set with that type put in or taken out.
    pub open spec fn flipped(self, t: IssueType) -> TypeSet {
        match t {
            IssueType::Bug => TypeSet { bug: !self.bug, ..self },
            IssueType::Feature => TypeSet { feature: !self.feature, ..self },
            IssueType::Task => TypeSet { task: !self.task, ..self },
            IssueType::Epic => TypeSet { epic: !self.epic, ..self },
            IssueType::Chore => TypeSet { chore: !self.chore, ..self },
        }
    }

    pub fn contains(&self, t: IssueType) -> (r: bool)
        ensures
            r == self.has(t),
    {
        match t {
            IssueType::Bug => self.bug,
            IssueType::Feature => self.feature,
            IssueType::Task => self.task,
            IssueType::Epic => self.epic,
            IssueType::Chore => self.chore,
        }
    }

    pub fn flip(&mut self, t: IssueType)
        ensures
            *final(self) == old(self).flipped(t),
    {
        match t {
            IssueType::Bug => self.bug = !self.bug,
            IssueType::Feature => self.feature = !self.feature,
            IssueType::Task => self.task = !self.task,
            IssueType::Epic => self.epic = !self.epic,
            IssueType::Chore => self.chore = !self.chore,
        }
    }
}

/// Which issues are shown.
pub struct FilterState {
    pub show_closed: bool,
    pub enabled_statuses: StatusSet,
    pub enabled_types: TypeSet,
    pub enabled_labels: Vec<String>,
    pub ready_only: bool,
    pub show_blocked: bool,
}

pub struct FilterView {
    pub show_closed: bool,
    pub statuses: StatusSet,
    pub types: TypeSet,
    pub labels: Seq<Seq<char>>,
    pub ready_only: bool,
    pub show_blocked: bool,
}

impl View for FilterState {
    type V = FilterView;

    open spec fn view(&self) -> FilterView {
        FilterView {
            show_closed: self.show_closed,
            statuses: self.enabled_statuses,
            types: self.enabled_types,
            labels: self.enabled_labels.deep_view(),
            ready_only: self.ready_only,
            show_blocked: self.show_blocked,
        }
    }
}

/// The filter at the start: open work of every type.
pub open spec fn default_filter() -> FilterView {
    FilterView {
        show_closed: false,
        statuses: StatusSet {
            open: true,
            in_progress: true,
            blocked: true,
            closed: false,
            tombstone: false,
        },
        types: TypeSet { bug: true, feature: true, task: true, epic: true, chore: true },
        labels: seq![],
        ready_only: false,
        show_blocked: false,
    }
}

impl FilterView {
    /// Whether an issue is shown. With `show_blocked` none is: what blocks an issue is not
    /// looked at here.
    pub open spec fn shows(self, i: IssueView, query: Seq<char>) -> bool {
        &&& self.show_closed || !i.status.spec_is_closed()
        &&& self.statuses.has(i.status) || (self.show_closed && i.status == Status::Closed)
        &&& self.types.has(i.issue_type)
        &&& self.labels.len() == 0 || exists|k: int|
            0 <= k < i.labels.len() && self.labels.contains(#[trigger] i.labels[k])
        &&& !self.show_blocked
        &&& query.len() == 0 || mentions(i, lowercased(query))
    }
}

impl FilterState {
    pub fn new() -> (r: FilterState)
        ensures
            r@ == default_filter(),
    {
        let r = FilterState {
            show_closed: false,
            enabled_statuses: StatusSet {
                open: true,
                in_progress: true,
                blocked: true,
                closed: false,
                tombstone: false,
            },
            enabled_types: TypeSet { bug: true, feature: true, task: true, epic: true, chore: true },
            enabled_labels: Vec::new(),
            ready_only: false,
            show_blocked: false,
        };
        assert(r.enabled_labels.deep_view() =~= seq![]);
        r
    }

    fn has_enabled_label(&self, issue: &Issue) -> (r: bool)
        ensures
            r == exists|k: int|
                0 <= k < issue@.labels.len() && self@.labels.contains(#[trigger] issue@.labels[k]),
    {
        let mut i: usize = 0;
        while i < issue.labels.len()
            invariant
                i <= issue.labels.len(),
                forall|k: int| 0 <= k < i ==> !self@.labels.contains(#[trigger] issue@.labels[k]),
            decreases issue.labels.len() - i,
        {
            assert(issue@.labels[i as int] == issue.labels@[i as int]@);
            if contains_text(&self.enabled_labels, &issue.labels[i]) {
                return true;
            }
            i += 1;
        }
        false
    }

    /// Whether an issue is shown.
    pub fn matches(&self, issue: &Issue, query: &str) -> (r: bool)
        ensures
            r == self@.shows(issue@, query@),
    {
        if !self.show_closed && issue.status.is_closed() {
            return false;
        }
        if !self.enabled_statuses.contains(issue.status) && !(self.show_closed && issue.status
            == Status::Closed) {
            return false;
        }
        if !self.enabled_types.contains(issue.issue_type) {
            return false;
        }
        assert(self.enabled_labels@.len() == self@.labels.len());
        if self.enabled_labels.len() > 0 && !self.has_enabled_label(issue) {
            return false;
        }
        let no_ids: Vec<String> = Vec::new();
        let blocked = issue.is_blocked_by(&no_ids);
        assert(!blocked) by {
            assert(no_ids.deep_view() =~= seq![]);
        }
        if self.ready_only && blocked {
            return false;
        }
        if self.show_blocked && !blocked {
            return false;
        }
        if !query.is_empty() {
            let needle = to_lowercase(query);
            if !issue_mentions(issue, &needle) {
                return false;
            }
        }
        true
    }
}

// ----------------------------------------------------------------------- state

#[derive(Clone, Copy, Debug, PartialEq, Eq, Structural)]
pub enum WhichKeyContext {
    Status,
    Priority,
    Type,
    Labels,
}

#[derive(Clone, Copy, Debug, PartialEq, Eq, Structural)]
pub enum AppMode {
    Normal,
    Search,
    Help,
    Sort,
    Filter,
    WhichKey(WhichKeyContext),
    AddIssue,
    EditIssue,
    Dashboard,
}

/// Which list the middle pane shows.
#[derive(Clone, Copy, Debug, PartialEq, Eq, Structural)]
pub enum MiddleView {
    Issues,
    Sessions,
}

/// What the right pane shows.
#[derive(Clone, Copy, Debug, PartialEq, Eq, Structural)]
pub enum DetailView {
    Issue,
    Activity,
}

/// What has to be done outside after a key.
#[derive(Clone, Copy, Debug, PartialEq, Eq, Structural)]
pub enum Effect {
    Idle,
    Quit,
    /// Read the event log, then say that all is refreshed.
    Refresh,
    /// Store the issue that the form describes.
    Create,
    /// Store what the form says of the current issue.
    Update,
    /// Store the current issue with this state.
    SetStatus(Status),
    /// Store the current issue as closed.
    Close,
    /// Read the event log and show the issues anew.
    Follow,
    /// Open an editor on the description of the current issue.
    EditDescription,
    /// Open an editor on a new note.
    AddNote,
}

pub struct App {
    pub filtered_issues: Vec<Issue>,
    pub mode: AppMode,
    pub g_prefix: bool,
    pub search_query: String,
    pub filter_state: FilterState,
    pub selection: SelectionState,
    pub details_scroll: usize,
    pub store: Store,
    pub status_message: Option<String>,
    /// When the message was shown, in milliseconds of the clock that the calls are given.
    pub status_message_time: Option<u64>,
    pub issue_form: IssueForm,
    /// Oldest first.
    pub events: Vec<Event>,
    pub sessions: Vec<SessionSummary>,
    pub session_selection: SelectionState,
    pub middle_view: MiddleView,
    pub detail_view: DetailView,
    pub verbose_ctx: bool,
    pub follow: bool,
    pub follow_counter: u32,
}

pub struct AppView {
    pub filtered: Seq<IssueView>,
    pub mode: AppMode,
    pub g_prefix: bool,
    pub query: Seq<char>,
    pub filter: FilterView,
    pub selection: SelectionView,
    pub scroll: usize,
    pub entries: Seq<IssueView>,
    pub root: Seq<char>,
    pub pending: bool,
    pub message: Option<Seq<char>>,
    pub message_time: Option<u64>,
    pub form: FormView,
    pub events: Seq<EventView>,
    pub sessions: Seq<SessionSummaryView>,
    pub session_selection: SelectionView,
    pub middle: MiddleView,
    pub detail: DetailView,
    pub verbose: bool,
    pub follow: bool,
    pub follow_counter: u32,
}

impl View for App {
    type V = AppView;

    open spec fn view(&self) -> AppView {
        AppView {
            filtered: self.filtered_issues.deep_view(),
            mode: self.mode,
            g_prefix: self.g_prefix,
            query: self.search_query@,
            filter: self.filter_state@,
            selection: self.selection@,
            scroll: self.details_scroll,
            entries: self.store.entries(),
            root: self.store.spec_root(),
            pending: self.store.pending(),
            message: self.status_message.deep_view(),
            message_time: self.status_message_time,
            form: self.issue_form@,
            events: self.events.deep_view(),
            sessions: self.sessions.deep_view(),
            session_selection: self.session_selection@,
            middle: self.middle_view,
            detail: self.detail_view,
            verbose: self.verbose_ctx,
            follow: self.follow,
            follow_counter: self.follow_counter,
        }
    }
}

/// The list moves by pages of this size.
pub const PAGE: usize = 20;

/// The issues that a filter shows, by priority and from the newest on.
pub open spec fn shown_issues(
    entries: Seq<IssueView>,
    filter: FilterView,
    query: Seq<char>,
) -> Seq<IssueView> {
    stable_sorted(
        (if filter.show_closed {
            listed(entries, false)
        } else {
            listed_open(entries)
        }).filter(|i: IssueView| filter.shows(i, query)),
        |a: IssueView, b: IssueView| key_le(SortKey::Priority, a, b),
    )
}

/// The events from the oldest on.
pub open spec fn in_time(events: Seq<EventView>) -> Seq<EventView> {
    stable_sorted(events, |a: EventView, b: EventView| older_first(a, b))
}

impl AppView {
    pub open spec fn with_message(self, message: Seq<char>, now: u64) -> AppView {
        AppView { message: Some(message), message_time: Some(now), ..self }
    }

    /// The issues shown anew, with the cursor kept in the list.
    pub open spec fn refiltered(self, now: u64) -> AppView {
        let filtered = shown_issues(self.entries, self.filter, self.query);
        AppView {
            filtered,
            selection: self.selection.within(filtered.len() as int),
            ..self
        }.with_message("Showing "@ + decimal(filtered.len()) + " issues"@, now)
    }

    /// The events of the log taken in.
    pub open spec fn with_events(self, events: Seq<EventView>) -> AppView {
        let sorted = in_time(events);
        let sessions = summaries(sorted);
        AppView {
            events: sorted,
            sessions,
            session_selection: self.session_selection.within(sessions.len() as int),
            ..self
        }
    }

    /// The event log taken in, or what went wrong with it.
    pub open spec fn with_log(self, log: Result<Seq<EventView>, Seq<char>>, now: u64) -> AppView {
        match log {
            Ok(events) => self.with_events(events),
            Err(e) => self.with_message("event log error: "@ + e, now),
        }
    }

    /// The issue at the cursor.
    pub open spec fn current(self) -> Option<IssueView> {
        if 0 <= self.selection.index < self.filtered.len() {
            Some(self.filtered[self.selection.index])
        } else {
            None
        }
    }

    /// Only the issues of one priority are shown on.
    pub open spec fn only_priority(self, p: u8, now: u64) -> AppView {
        AppView {
            filtered: self.filtered.filter(|i: IssueView| i.priority == p),
            mode: AppMode::Normal,
            ..self
        }.with_message("Filtered to P"@ + decimal(p as nat), now)
    }

    pub open spec fn toggle_status(self, s: Status, now: u64) -> AppView {
        AppView {
            filter: FilterView { statuses: self.filter.statuses.flipped(s), ..self.filter },
            ..self
        }.refiltered(now)
    }

    pub open spec fn toggle_type(self, t: IssueType, now: u64) -> AppView {
        AppView {
            filter: FilterView { types: self.filter.types.flipped(t), ..self.filter },
            ..self
        }.refiltered(now)
    }

    pub open spec fn toggle_closed(self, now: u64) -> AppView {
        AppView {
            filter: FilterView { show_closed: !self.filter.show_closed, ..self.filter },
            ..self
        }.refiltered(now)
    }

    pub open spec fn reset(self, now: u64) -> AppView {
        AppView {
            mode: AppMode::Normal,
            ..AppView { filter: default_filter(), ..self }.refiltered(now)
        }.with_message("Filters reset"@, now)
    }
}

// -------------------------------------------------------------------- transitions

/// The list that the middle pane shows moved.
pub open spec fn scrolled(a: AppView, action: KeyAction) -> AppView {
    match a.middle {
        MiddleView::Issues => AppView {
            selection: moved(a.selection, action, a.filtered.len() as int),
            ..a
        },
        MiddleView::Sessions => AppView {
            session_selection: moved(a.session_selection, action, a.sessions.len() as int),
            ..a
        },
    }
}

pub open spec fn moved(s: SelectionView, action: KeyAction, max: int) -> SelectionView {
    match action {
        KeyAction::Up => s.moved_up(1),
        KeyAction::Down => s.moved_down(1, max, PAGE as int),
        KeyAction::PageDown => s.moved_down(PAGE as int, max, PAGE as int),
        KeyAction::PageUp => s.moved_up(10),
        _ => s,
    }
}

/// What a key does in the normal mode, but for the scroll of the details.
pub open spec fn normal_action(a: AppView, action: KeyAction, now: u64) -> (AppView, Effect) {
    match action {
        KeyAction::Quit => (a, Effect::Quit),
        KeyAction::Escape => (AppView { mode: AppMode::Normal, g_prefix: false, ..a }, Effect::Idle),
        KeyAction::Up => (scrolled(a, action), Effect::Idle),
        KeyAction::Down => (scrolled(a, action), Effect::Idle),
        KeyAction::PageDown => (scrolled(a, action), Effect::Idle),
        KeyAction::PageUp => (scrolled(a, action), Effect::Idle),
        KeyAction::SelectAll => (
            AppView {
                selection: a.selection.all_selected(a.filtered.len() as int),
                ..a
            }.with_message("All items selected"@, now),
            Effect::Idle,
        ),
        KeyAction::Enter => (AppView { mode: AppMode::Normal, ..a }, Effect::Idle),
        KeyAction::ToggleSelect => (marked(a), Effect::Idle),
        KeyAction::Char(c) => normal_char(a, c, now),
        _ => (AppView { g_prefix: false, ..a }, Effect::Idle),
    }
}

/// The mark at the cursor set or taken off, and the cursor on the next issue.
pub open spec fn marked(a: AppView) -> AppView {
    AppView {
        selection: a.selection.toggled().moved_down(1, a.filtered.len() as int, PAGE as int),
        ..a
    }
}

/// What a character does in the normal mode.
#[verifier::opaque]
pub open spec fn normal_char(a: AppView, c: char, now: u64) -> (AppView, Effect) {
    if c == 'g' {
        if a.g_prefix {
            (AppView { selection: a.selection.at_top(), g_prefix: false, ..a }, Effect::Idle)
        } else {
            (AppView { g_prefix: true, ..a }, Effect::Idle)
        }
    } else if c == 'G' {
        (
            AppView {
                selection: a.selection.at_bottom(a.filtered.len() as int, PAGE as int),
                g_prefix: false,
                ..a
            },
            Effect::Idle,
        )
    } else if c == 'q' {
        (a, Effect::Quit)
    } else if c == 'a' {
        (AppView { mode: AppMode::AddIssue, ..a }, Effect::Idle)
    } else if c == 'e' {
        match a.current() {
            Some(i) => (
                AppView { form: form_of(i), mode: AppMode::EditIssue, ..a },
                Effect::Idle,
            ),
            None => (a, Effect::Idle),
        }
    } else if c == '1' {
        (a, Effect::SetStatus(Status::Open))
    } else if c == '2' {
        (a, Effect::SetStatus(Status::InProgress))
    } else if c == '3' {
        (a, Effect::SetStatus(Status::Blocked))
    } else if c == '4' {
        (a, Effect::SetStatus(Status::Closed))
    } else if c == 'c' {
        (a, Effect::Close)
    } else if c == ' ' {
        (marked(a), Effect::Idle)
    } else if c == 'V' {
        (
            AppView { selection: a.selection.none_selected(), ..a }.with_message(
                "Selection cleared"@,
                now,
            ),
            Effect::Idle,
        )
    } else if c == '/' {
        (AppView { mode: AppMode::Search, query: seq![], ..a }, Effect::Idle)
    } else if c == '?' {
        (AppView { mode: AppMode::Help, ..a }, Effect::Idle)
    } else if c == 's' {
        (AppView { mode: AppMode::Sort, ..a }, Effect::Idle)
    } else if c == 'r' {
        (a.refiltered(now), Effect::Refresh)
    } else if c == 'S' {
        match a.middle {
            MiddleView::Issues => (
                AppView {
                    middle: MiddleView::Sessions,
                    detail: DetailView::Activity,
                    ..a
                }.with_message("View: Sessions"@, now),
                Effect::Idle,
            ),
            MiddleView::Sessions => (
                AppView { middle: MiddleView::Issues, ..a }.with_message("View: Issues"@, now),
                Effect::Idle,
            ),
        }
    } else if c == 'T' {
        match a.detail {
            DetailView::Issue => (
                AppView { detail: DetailView::Activity, ..a }.with_message(
                    "Right pane: Activity"@,
                    now,
                ),
                Effect::Idle,
            ),
            DetailView::Activity => (
                AppView { detail: DetailView::Issue, ..a }.with_message(
                    "Right pane: Issue details"@,
                    now,
                ),
                Effect::Idle,
            ),
        }
    } else if c == 'v' {
        (
            AppView { verbose: !a.verbose, ..a }.with_message(
                if a.verbose {
                    "AGENT_CTX: compact"@
                } else {
                    "AGENT_CTX: verbose"@
                },
                now,
            ),
            Effect::Idle,
        )
    } else if c == 'F' {
        (follow_toggled(a, now), Effect::Idle)
    } else if c == 'D' {
        (
            AppView { mode: AppMode::Dashboard, ..a }.with_message(
                "Dashboard — press D or Esc to exit"@,
                now,
            ),
            Effect::Idle,
        )
    } else if c == 't' {
        (AppView { mode: AppMode::WhichKey(WhichKeyContext::Type), ..a }, Effect::Idle)
    } else if c == 'p' {
        (AppView { mode: AppMode::WhichKey(WhichKeyContext::Priority), ..a }, Effect::Idle)
    } else if c == 'l' {
        (AppView { mode: AppMode::WhichKey(WhichKeyContext::Labels), ..a }, Effect::Idle)
    } else if c == 'f' {
        (AppView { mode: AppMode::Filter, ..a }, Effect::Idle)
    } else {
        (AppView { g_prefix: false, ..a }, Effect::Idle)
    }
}

pub open spec fn follow_toggled(a: AppView, now: u64) -> AppView {
    AppView { follow: !a.follow, ..a }.with_message(
        if a.follow {
            "Follow: off"@
        } else {
            "Follow: ON"@
        },
        now,
    )
}

/// What a key does in the normal mode.
pub open spec fn normal_step(a: AppView, action: KeyAction, now: u64) -> (AppView, Effect) {
    let (b, effect) = normal_action(a, action, now);
    if effect == Effect::Quit {
        (b, effect)
    } else {
        (AppView { scroll: 0, ..b }, effect)
    }
}

/// What a key does on the dashboard.
pub open spec fn dashboard_step(a: AppView, action: KeyAction, now: u64) -> (AppView, Effect) {
    match action {
        KeyAction::Quit => (a, Effect::Quit),
        KeyAction::Escape => (AppView { mode: AppMode::Normal, scroll: 0, ..a }, Effect::Idle),
        KeyAction::Char(c) => if c == 'D' || c == 'q' {
            (AppView { mode: AppMode::Normal, scroll: 0, ..a }, Effect::Idle)
        } else if c == 'F' {
            (follow_toggled(a, now), Effect::Idle)
        } else if c == 'r' {
            (a, Effect::Refresh)
        } else if c == '?' {
            (AppView { mode: AppMode::Help, ..a }, Effect::Idle)
        } else {
            (a, Effect::Idle)
        },
        _ => (a, Effect::Idle),
    }
}

/// What a key does while a search is typed.
pub open spec fn search_step(a: AppView, action: KeyAction, now: u64) -> (AppView, Effect) {
    match action {
        KeyAction::Quit => (a, Effect::Quit),
        KeyAction::Escape => (AppView { mode: AppMode::Normal, ..a }, Effect::Idle),
        KeyAction::Enter => (
            AppView { mode: AppMode::Normal, ..a }.refiltered(now),
            Effect::Idle,
        ),
        KeyAction::Backspace => (
            AppView { query: without_last(a.query), ..a }.refiltered(now),
            Effect::Idle,
        ),
        KeyAction::Char(c) => if c == 'q' {
            (a, Effect::Quit)
        } else {
            (AppView { query: a.query.push(c), ..a }.refiltered(now), Effect::Idle)
        },
        _ => (a, Effect::Idle),
    }
}

/// What a key does while the help is shown.
pub open spec fn help_step(a: AppView, action: KeyAction) -> AppView {
    if action == KeyAction::Escape || action == KeyAction::Char('q') {
        AppView { mode: AppMode::Normal, ..a }
    } else {
        a
    }
}

/// What a key does while an order is chosen.
pub open spec fn sort_step(a: AppView, action: KeyAction, now: u64) -> AppView {
    if action == KeyAction::Escape {
        AppView { mode: AppMode::Normal, ..a }
    } else if action == KeyAction::Char('1') {
        AppView {
            filtered: stable_sorted(
                a.filtered,
                |x: IssueView, y: IssueView| view_le(ViewOrder::Priority, x, y),
            ),
            mode: AppMode::Normal,
            ..a
        }.with_message("Sorted by priority"@, now)
    } else if action == KeyAction::Char('2') {
        AppView {
            filtered: stable_sorted(
                a.filtered,
                |x: IssueView, y: IssueView| view_le(ViewOrder::Date, x, y),
            ),
            mode: AppMode::Normal,
            ..a
        }.with_message("Sorted by date"@, now)
    } else if action == KeyAction::Char('3') {
        AppView {
            filtered: stable_sorted(
                a.filtered,
                |x: IssueView, y: IssueView| view_le(ViewOrder::Status, x, y),
            ),
            mode: AppMode::Normal,
            ..a
        }.with_message("Sorted by status"@, now)
    } else {
        a
    }
}

/// The orders that can be chosen.
#[derive(Clone, Copy, Debug, PartialEq, Eq, Structural)]
pub enum ViewOrder {
    Priority,
    Date,
    Status,
    /// By priority, then from the newest on.
    Default,
}

pub open spec fn view_le(order: ViewOrder, a: IssueView, b: IssueView) -> bool {
    match order {
        ViewOrder::Priority => a.priority <= b.priority,
        ViewOrder::Date => b.created_at.le(a.created_at),
        ViewOrder::Status => a.status.rank() <= b.status.rank(),
        ViewOrder::Default => key_le(SortKey::Priority, a, b),
    }
}

impl Order<Issue> for ViewOrder {
    open spec fn le(&self, a: IssueView, b: IssueView) -> bool {
        view_le(*self, a, b)
    }

    proof fn lawful(&self) {
    }

    fn at_most(&self, a: &Issue, b: &Issue) -> (r: bool) {
        match self {
            ViewOrder::Priority => a.priority <= b.priority,
            ViewOrder::Date => b.created_at.at_most(&a.created_at),
            ViewOrder::Status => a.status.order() <= b.status.order(),
            ViewOrder::Default => a.priority < b.priority || (a.priority == b.priority
                && b.created_at.at_most(&a.created_at)),
        }
    }
}

/// What a key does while filters are chosen.
pub open spec fn filter_step(a: AppView, action: KeyAction, now: u64) -> AppView {
    match action {
        KeyAction::Escape => AppView { mode: AppMode::Normal, ..a },
        KeyAction::Char(c) => if c == 'o' {
            a.toggle_status(Status::Open, now)
        } else if c == 'i' {
            a.toggle_status(Status::InProgress, now)
        } else if c == 'b' {
            a.toggle_status(Status::Blocked, now)
        } else if c == 'c' {
            a.toggle_closed(now)
        } else if c == 'B' {
            a.toggle_type(IssueType::Bug, now)
        } else if c == 'F' {
            a.toggle_type(IssueType::Feature, now)
        } else if c == 'T' {
            a.toggle_type(IssueType::Task, now)
        } else if c == 'E' {
            a.toggle_type(IssueType::Epic, now)
        } else if c == 'C' {
            a.toggle_type(IssueType::Chore, now)
        } else if c == '0' {
            a.only_priority(0, now)
        } else if c == '1' {
            a.only_priority(1, now)
        } else if c == '2' {
            a.only_priority(2, now)
        } else if c == '3' {
            a.only_priority(3, now)
        } else if c == '4' {
            a.only_priority(4, now)
        } else if c == 'r' {
            a.reset(now)
        } else {
            a
        },
        _ => a,
    }
}

/// What a key does while one of a few choices is made.
pub open spec fn which_key_step(
    a: AppView,
    ctx: WhichKeyContext,
    action: KeyAction,
    now: u64,
) -> AppView {
    match action {
        KeyAction::Escape => AppView { mode: AppMode::Normal, ..a },
        KeyAction::Char(c) => if c == '1' {
            match ctx {
                WhichKeyContext::Status => a.toggle_status(Status::Open, now),
                WhichKeyContext::Type => a.toggle_type(IssueType::Bug, now),
                WhichKeyContext::Priority => a.only_priority(0, now),
                WhichKeyContext::Labels => a,
            }
        } else if c == '2' {
            match ctx {
                WhichKeyContext::Status => a.toggle_status(Status::InProgress, now),
                WhichKeyContext::Type => a.toggle_type(IssueType::Feature, now),
                WhichKeyContext::Priority => a.only_priority(1, now),
                WhichKeyContext::Labels => a,
            }
        } else if c == '3' {
            match ctx {
                WhichKeyContext::Status => a.toggle_status(Status::Blocked, now),
                WhichKeyContext::Type => a.toggle_type(IssueType::Task, now),
                WhichKeyContext::Priority => a.only_priority(2, now),
                WhichKeyContext::Labels => a,
            }
        } else if c == '4' {
            match ctx {
                WhichKeyContext::Type => a.toggle_type(IssueType::Epic, now),
                WhichKeyContext::Priority => a.only_priority(3, now),
                _ => a,
            }
        } else if c == '5' {
            match ctx {
                WhichKeyContext::Type => a.toggle_type(IssueType::Chore, now),
                WhichKeyContext::Priority => a.only_priority(4, now),
                _ => a,
            }
        } else if c == 'c' && ctx == WhichKeyContext::Status {
            AppView { mode: AppMode::Normal, ..a.toggle_closed(now) }
        } else if c == 'r' {
            AppView { mode: AppMode::Normal, ..a.refiltered(now) }
        } else {
            a
        },
        _ => a,
    }
}

/// What a key does while a new issue is entered.
pub open spec fn add_step(a: AppView, action: KeyAction, now: u64) -> (AppView, Effect) {
    match action {
        KeyAction::Quit => (a, Effect::Quit),
        KeyAction::Escape => (
            AppView { mode: AppMode::Normal, form: empty_form(), ..a },
            Effect::Idle,
        ),
        KeyAction::Enter => if is_blank_text(a.form.title) {
            (a.with_message("Title cannot be empty"@, now), Effect::Idle)
        } else {
            (a, Effect::Create)
        },
        KeyAction::Char(c) => if c == 'q' {
            (a, Effect::Quit)
        } else {
            (AppView { form: form_step(a.form, action), ..a }, Effect::Idle)
        },
        _ => (AppView { form: form_step(a.form, action), ..a }, Effect::Idle),
    }
}

/// What a key does while an issue is edited.
pub open spec fn edit_step(a: AppView, action: KeyAction, now: u64) -> (AppView, Effect) {
    match action {
        KeyAction::Escape => (AppView { mode: AppMode::Normal, ..a }, Effect::Idle),
        KeyAction::Enter => if is_blank_text(a.form.title) {
            (a.with_message("Title cannot be empty"@, now), Effect::Idle)
        } else {
            (a, Effect::Update)
        },
        _ => (AppView { form: form_step(a.form, action), ..a }, Effect::Idle),
    }
}

/// What a key does where no editor is to be opened.
pub open spec fn mode_step(a: AppView, action: KeyAction, now: u64) -> (AppView, Effect) {
    match a.mode {
        AppMode::Normal => normal_step(a, action, now),
        AppMode::Search => search_step(a, action, now),
        AppMode::Help => (help_step(a, action), Effect::Idle),
        AppMode::Sort => (sort_step(a, action, now), Effect::Idle),
        AppMode::Filter => (filter_step(a, action, now), Effect::Idle),
        AppMode::WhichKey(ctx) => (which_key_step(a, ctx, action, now), Effect::Idle),
        AppMode::AddIssue => add_step(a, action, now),
        AppMode::EditIssue => edit_step(a, action, now),
        AppMode::Dashboard => dashboard_step(a, action, now),
    }
}

/// What a key does, whatever the mode. An editor is opened on an issue only.
pub open spec fn app_step(a: AppView, action: KeyAction, now: u64) -> (AppView, Effect) {
    if a.mode == AppMode::Normal && (action == KeyAction::Char('E') || action == KeyAction::Char(
        'N',
    )) {
        if a.current() is None {
            (a.with_message("No issue selected"@, now), Effect::Idle)
        } else if action == KeyAction::Char('E') {
            (a, Effect::EditDescription)
        } else {
            (a, Effect::AddNote)
        }
    } else {
        mode_step(a, action, now)
    }
}

/// A message is shown for this many milliseconds.
pub const MESSAGE_MS: u64 = 3000;

/// With `follow`, the event log is read at every so many ticks.
pub const FOLLOW_TICKS: u32 = 8;

/// What the passing of time does.
pub open spec fn tick_step(a: AppView, now: u64) -> (AppView, Effect) {
    let b = match a.message_time {
        Some(t) if now > t && now - t > MESSAGE_MS => AppView {
            message: None,
            message_time: None,
            ..a
        },
        _ => a,
    };
    if !b.follow {
        (b, Effect::Idle)
    } else if b.follow_counter + 1 >= FOLLOW_TICKS {
        (AppView { follow_counter: 0, ..b }, Effect::Follow)
    } else {
        (AppView { follow_counter: (b.follow_counter + 1) as u32, ..b }, Effect::Idle)
    }
}

/// The issue with another state.
pub open spec fn with_status(i: IssueView, status: Status, now: Timestamp) -> IssueView {
    IssueView {
        status,
        closed_at: if status == Status::Closed {
            Some(now)
        } else {
            i.closed_at
        },
        updated_at: now,
        ..i
    }
}

/// What storing a changed issue makes of the entries.
pub open spec fn updated_entries(stored: Stored, issue: IssueView) -> Seq<IssueView> {
    match lookup(stored.amounts_to(), issue.id) {
        Some(_) => with_issue(stored.amounts_to(), issue),
        None => stored.amounts_to(),
    }
}

/// What is to be written for a changed issue, if it is stored at all.
pub open spec fn update_lines(
    stored: Stored,
    issue: IssueView,
) -> Result<Seq<IssueView>, ErrorView> {
    match lookup(stored.amounts_to(), issue.id) {
        Some(_) => Ok(lines_for(stored, issue)),
        None => Err(ErrorView::NotFound(issue.id)),
    }
}

pub open spec fn lines_view(r: Result<Vec<Issue>, Error>) -> Result<Seq<IssueView>, ErrorView> {
    match r {
        Ok(v) => Ok(v.deep_view()),
        Err(e) => Err(e@),
    }
}

/// What a change to the current issue does: nothing where there is no such issue.
pub open spec fn change_step(
    a: AppView,
    stored: Stored,
    change: spec_fn(IssueView) -> IssueView,
) -> (AppView, Option<Result<Seq<IssueView>, ErrorView>>) {
    match a.current() {
        None => (a, None),
        Some(i) => (
            AppView {
                entries: updated_entries(stored, change(i)),
                pending: stored.is_legacy(),
                ..a
            },
            Some(update_lines(stored, change(i))),
        ),
    }
}

// ------------------------------------------------------------------------ the app

struct ShownTest<'f> {
    filter: &'f FilterState,
    query: &'f String,
}

impl<'f, 'a> Test<&'a Issue> for ShownTest<'f> {
    closed spec fn holds(&self, v: IssueView) -> bool {
        self.filter@.shows(v, self.query@)
    }

    fn test(&self, x: &&'a Issue) -> (r: bool) {
        self.filter.matches(x, self.query)
    }
}

struct PriorityTest {
    priority: u8,
}

impl Test<Issue> for PriorityTest {
    closed spec fn holds(&self, v: IssueView) -> bool {
        v.priority == self.priority
    }

    fn test(&self, x: &Issue) -> (r: bool) {
        x.priority == self.priority
    }
}

fn clone_refs(v: &Vec<&Issue>) -> (r: Vec<Issue>)
    ensures
        r.deep_view() == v.deep_view(),
{
    let mut r: Vec<Issue> = Vec::new();
    let mut i: usize = 0;
    while i < v.len()
        invariant
            i <= v.len(),
            r@.len() == i,
            forall|k: int| 0 <= k < i ==> (#[trigger] r@[k])@ == v@[k]@,
        decreases v.len() - i,
    {
        r.push(v[i].copy());
        i += 1;
    }
    assert(r.deep_view() =~= v.deep_view());
    r
}

fn show_issues(store: &Store, filter: &FilterState, query: &String) -> (r: Vec<Issue>)
    ensures
        r.deep_view() == shown_issues(store.entries(), filter@, query@),
{
    let all = if filter.show_closed {
        store.list(false)
    } else {
        store.list_open()
    };
    let t = ShownTest { filter, query };
    let kept = keep(all, &t);
    let copies = clone_refs(&kept);
    let r = stable_sort(copies, &ViewOrder::Default);
    proof {
        let ghost f = filter@;
        assert((|v: IssueView| t.holds(v)) =~= (|i: IssueView| f.shows(i, query@)));
        assert((|a: IssueView, b: IssueView| key_le(SortKey::Priority, a, b)) =~= (|
            a: IssueView,
            b: IssueView,
        | <ViewOrder as Order<Issue>>::le(&ViewOrder::Default, a, b)));
    }
    r
}

/// Events from the oldest on.
struct InTime;

impl Order<Event> for InTime {
    closed spec fn le(&self, a: EventView, b: EventView) -> bool {
        older_first(a, b)
    }

    proof fn lawful(&self) {
    }

    fn at_most(&self, a: &Event, b: &Event) -> (r: bool) {
        a.timestamp.at_most(&b.timestamp)
    }
}

impl App {
    /// The view of a store at the start.
    pub fn new(store: Store, now: u64) -> (r: App)
        ensures
            r@ == (AppView {
                filtered: seq![],
                mode: AppMode::Normal,
                g_prefix: false,
                query: seq![],
                filter: default_filter(),
                selection: SelectionView { index: 0, offset: 0, selected: Set::empty() },
                scroll: 0,
                entries: store.entries(),
                root: store.spec_root(),
                pending: store.pending(),
                message: None,
                message_time: None,
                form: empty_form(),
                events: seq![],
                sessions: seq![],
                session_selection: SelectionView { index: 0, offset: 0, selected: Set::empty() },
                middle: MiddleView::Issues,
                detail: DetailView::Issue,
                verbose: false,
                follow: false,
                follow_counter: 0,
            }).refiltered(now),
            r.store == store,
    {
        let mut app = App {
            filtered_issues: Vec::new(),
            mode: AppMode::Normal,
            g_prefix: false,
            search_query: String::new(),
            filter_state: FilterState::new(),
            selection: SelectionState::new(),
            details_scroll: 0,
            store,
            status_message: None,
            status_message_time: None,
            issue_form: IssueForm::new(),
            events: Vec::new(),
            sessions: Vec::new(),
            session_selection: SelectionState::new(),
            middle_view: MiddleView::Issues,
            detail_view: DetailView::Issue,
            verbose_ctx: false,
            follow: false,
            follow_counter: 0,
        };
        assert(app.filtered_issues.deep_view() =~= seq![]);
        assert(app.search_query@ =~= seq![]);
        assert(app.events.deep_view() =~= seq![]);
        assert(app.sessions.deep_view() =~= seq![]);
        app.apply_filters(now);
        app
    }

    pub fn show_status(&mut self, msg: &str, now: u64)
        ensures
            final(self)@ == old(self)@.with_message(msg@, now),
            final(self).store == old(self).store,
    {
        self.status_message = Some(msg.to_owned());
        self.status_message_time = Some(now);
    }

    /// Shows the issues anew.
    pub fn apply_filters(&mut self, now: u64)
        ensures
            final(self)@ == old(self)@.refiltered(now),
            final(self).store == old(self).store,
    {
        self.filtered_issues = show_issues(&self.store, &self.filter_state, &self.search_query);
        let max: usize = self.filtered_issues.len();
        assert(max == self.filtered_issues.deep_view().len());
        self.selection.clamp_to(max);
        let mut m = concat("Showing ", &decimal_text(max as u64));
        m.append(" issues");
        self.show_status(&m, now);
    }

    /// Takes in the event log, or says what went wrong with it.
    pub fn reload_events(&mut self, log: Result<Vec<Event>, String>, now: u64)
        ensures
            final(self)@ == old(self)@.with_log(log_view(log), now),
            final(self).store == old(self).store,
    {
        match log {
            Ok(all) => {
                let sorted = stable_sort(all, &InTime);
                assert((|a: EventView, b: EventView| older_first(a, b)) =~= (|
                    a: EventView,
                    b: EventView,
                | (InTime).le(a, b)));
                self.sessions = summarize_sessions(&sorted);
                self.events = sorted;
                let max: usize = self.sessions.len();
                assert(max == self.sessions.deep_view().len());
                self.session_selection.clamp_to(max);
            },
            Err(e) => {
                let m = concat("event log error: ", &e);
                self.show_status(&m, now);
            },
        }
    }

    /// The issue at the cursor.
    pub fn current_issue(&self) -> (r: Option<&Issue>)
        ensures
            r.deep_view() == self@.current(),
    {
        if self.selection.index < self.filtered_issues.len() {
            assert(self@.filtered[self.selection.index as int]
                == self.filtered_issues@[self.selection.index as int]@);
            Some(&self.filtered_issues[self.selection.index])
        } else {
            None
        }
    }

    fn keep_priority(&mut self, p: u8, now: u64)
        ensures
            final(self)@ == old(self)@.only_priority(p, now),
            final(self).store == old(self).store,
    {
        let issues = copy_issues(&self.filtered_issues);
        let t = PriorityTest { priority: p };
        self.filtered_issues = keep(issues, &t);
        assert((|v: IssueView| t.holds(v)) =~= (|i: IssueView| i.priority == p));
        self.mode = AppMode::Normal;
        let m = concat("Filtered to P", &decimal_text(p as u64));
        self.show_status(&m, now);
    }

    fn toggle_status_filter(&mut self, s: Status, now: u64)
        ensures
            final(self)@ == old(self)@.toggle_status(s, now),
            final(self).store == old(self).store,
    {
        self.filter_state.enabled_statuses.flip(s);
        self.apply_filters(now);
    }

    fn toggle_type_filter(&mut self, t: IssueType, now: u64)
        ensures
            final(self)@ == old(self)@.toggle_type(t, now),
            final(self).store == old(self).store,
    {
        self.filter_state.enabled_types.flip(t);
        self.apply_filters(now);
    }

    fn toggle_closed_filter(&mut self, now: u64)
        ensures
            final(self)@ == old(self)@.toggle_closed(now),
            final(self).store == old(self).store,
    {
        self.filter_state.show_closed = !self.filter_state.show_closed;
        self.apply_filters(now);
    }

    fn reset_filters(&mut self, now: u64)
        ensures
            final(self)@ == old(self)@.reset(now),
            final(self).store == old(self).store,
    {
        self.filter_state = FilterState::new();
        self.apply_filters(now);
        self.mode = AppMode::Normal;
        self.show_status("Filters reset", now);
    }

    fn toggle_follow(&mut self, now: u64)
        ensures
            final(self)@ == follow_toggled(old(self)@, now),
            final(self).store == old(self).store,
    {
        let was = self.follow;
        self.follow = !was;
        self.show_status(
            if was {
                "Follow: off"
            } else {
                "Follow: ON"
            },
            now,
        );
    }

    fn scroll(&mut self, action: KeyAction)
        requires
            action == KeyAction::Up || action == KeyAction::Down || action == KeyAction::PageDown
                || action == KeyAction::PageUp,
        ensures
            final(self)@ == scrolled(old(self)@, action),
            final(self).store == old(self).store,
    {
        let issues: usize = self.filtered_issues.len();
        let sessions: usize = self.sessions.len();
        assert(issues == self@.filtered.len());
        assert(sessions == self@.sessions.len());
        match self.middle_view {
            MiddleView::Issues => match action {
                KeyAction::Up => self.selection.previous(),
                KeyAction::Down => self.selection.next(issues, PAGE),
                KeyAction::PageDown => self.selection.page_down(issues, PAGE),
                _ => self.selection.page_up(),
            },
            MiddleView::Sessions => match action {
                KeyAction::Up => self.session_selection.previous(),
                KeyAction::Down => self.session_selection.next(sessions, PAGE),
                KeyAction::PageDown => self.session_selection.page_down(sessions, PAGE),
                _ => self.session_selection.page_up(),
            },
        }
    }

    fn mark_issue(&mut self)
        ensures
            final(self)@ == marked(old(self)@),
            final(self).store == old(self).store,
    {
        let issues: usize = self.filtered_issues.len();
        assert(issues == self@.filtered.len());
        self.selection.toggle_selection();
        self.selection.next(issues, PAGE);
    }

    #[verifier::spinoff_prover]
    #[verifier::rlimit(60)]
    fn normal_char_action(&mut self, c: char, now: u64) -> (r: Effect)
        ensures
            (final(self)@, r) == normal_char(old(self)@, c, now),
            final(self).store == old(self).store,
    {
        reveal(normal_char);
        let issues: usize = self.filtered_issues.len();
        assert(issues == self@.filtered.len());
        if c == 'g' {
            if self.g_prefix {
                self.selection.top();
                self.g_prefix = false;
            } else {
                self.g_prefix = true;
            }
        } else if c == 'G' {
            self.selection.bottom(issues, PAGE);
            self.g_prefix = false;
        } else if c == 'q' {
            return Effect::Quit;
        } else if c == 'a' {
            self.mode = AppMode::AddIssue;
        } else if c == 'e' {
            let form = match self.current_issue() {
                Some(issue) => Some(IssueForm::from_issue(issue)),
                None => None,
            };
            match form {
                Some(f) => {
                    self.issue_form = f;
                    self.mode = AppMode::EditIssue;
                },
                None => {},
            }
        } else if c == '1' {
            return Effect::SetStatus(Status::Open);
        } else if c == '2' {
            return Effect::SetStatus(Status::InProgress);
        } else if c == '3' {
            return Effect::SetStatus(Status::Blocked);
        } else if c == '4' {
            return Effect::SetStatus(Status::Closed);
        } else if c == 'c' {
            return Effect::Close;
        } else if c == ' ' {
            self.mark_issue();
        } else if c == 'V' {
            self.selection.deselect_all();
            self.show_status("Selection cleared", now);
        } else if c == '/' {
            self.mode = AppMode::Search;
            self.search_query = String::new();
            assert(self.search_query@ =~= seq![]);
        } else if c == '?' {
            self.mode = AppMode::Help;
        } else if c == 's' {
            self.mode = AppMode::Sort;
        } else if c == 'r' {
            self.apply_filters(now);
            return Effect::Refresh;
        } else if c == 'S' {
            match self.middle_view {
                MiddleView::Issues => {
                    self.middle_view = MiddleView::Sessions;
                    self.detail_view = DetailView::Activity;
                    self.show_status("View: Sessions", now);
                },
                MiddleView::Sessions => {
                    self.middle_view = MiddleView::Issues;
                    self.show_status("View: Issues", now);
                },
            }
        } else if c == 'T' {
            match self.detail_view {
                DetailView::Issue => {
                    self.detail_view = DetailView::Activity;
                    self.show_status("Right pane: Activity", now);
                },
                DetailView::Activity => {
                    self.detail_view = DetailView::Issue;
                    self.show_status("Right pane: Issue details", now);
                },
            }
        } else if c == 'v' {
            let was = self.verbose_ctx;
            self.verbose_ctx = !was;
            self.show_status(
                if was {
                    "AGENT_CTX: compact"
                } else {
                    "AGENT_CTX: verbose"
                },
                now,
            );
        } else if c == 'F' {
            self.toggle_follow(now);
        } else if c == 'D' {
            self.mode = AppMode::Dashboard;
            self.show_status("Dashboard — press D or Esc to exit", now);
        } else if c == 't' {
            self.mode = AppMode::WhichKey(WhichKeyContext::Type);
        } else if c == 'p' {
            self.mode = AppMode::WhichKey(WhichKeyContext::Priority);
        } else if c == 'l' {
            self.mode = AppMode::WhichKey(WhichKeyContext::Labels);
        } else if c == 'f' {
            self.mode = AppMode::Filter;
        } else {
            self.g_prefix = false;
        }
        Effect::Idle
    }

    pub fn handle_normal_mode(&mut self, action: KeyAction, now: u64) -> (r: Effect)
        ensures
            (final(self)@, r) == normal_step(old(self)@, action, now),
            final(self).store == old(self).store,
    {
        let issues: usize = self.filtered_issues.len();
        assert(issues == self@.filtered.len());
        let effect = match action {
            KeyAction::Quit => Effect::Quit,
            KeyAction::Escape => {
                self.mode = AppMode::Normal;
                self.g_prefix = false;
                Effect::Idle
            },
            KeyAction::Up | KeyAction::Down | KeyAction::PageDown | KeyAction::PageUp => {
                self.scroll(action);
                Effect::Idle
            },
            KeyAction::SelectAll => {
                self.selection.select_all(issues);
                self.show_status("All items selected", now);
                Effect::Idle
            },
            KeyAction::Enter => {
                self.mode = AppMode::Normal;
                Effect::Idle
            },
            KeyAction::ToggleSelect => {
                self.mark_issue();
                Effect::Idle
            },
            KeyAction::Char(c) => self.normal_char_action(c, now),
            _ => {
                self.g_prefix = false;
                Effect::Idle
            },
        };
        if effect != Effect::Quit {
            self.details_scroll = 0;
        }
        effect
    }

    pub fn handle_dashboard_mode(&mut self, action: KeyAction, now: u64) -> (r: Effect)
        ensures
            (final(self)@, r) == dashboard_step(old(self)@, action, now),
            final(self).store == old(self).store,
    {
        match action {
            KeyAction::Quit => return Effect::Quit,
            KeyAction::Escape => {
                self.mode = AppMode::Normal;
                self.details_scroll = 0;
            },
            KeyAction::Char(c) => {
                if c == 'D' || c == 'q' {
                    self.mode = AppMode::Normal;
                    self.details_scroll = 0;
                } else if c == 'F' {
                    self.toggle_follow(now);
                } else if c == 'r' {
                    return Effect::Refresh;
                } else if c == '?' {
                    self.mode = AppMode::Help;
                }
            },
            _ => {},
        }
        Effect::Idle
    }

    pub fn handle_search_mode(&mut self, action: KeyAction, now: u64) -> (r: Effect)
        ensures
            (final(self)@, r) == search_step(old(self)@, action, now),
            final(self).store == old(self).store,
    {
        match action {
            KeyAction::Quit => return Effect::Quit,
            KeyAction::Escape => {
                self.mode = AppMode::Normal;
            },
            KeyAction::Enter => {
                self.mode = AppMode::Normal;
                self.apply_filters(now);
            },
            KeyAction::Backspace => {
                self.search_query = drop_last_char(&self.search_query);
                self.apply_filters(now);
            },
            KeyAction::Char(c) => {
                if c == 'q' {
                    return Effect::Quit;
                }
                self.search_query.push(c);
                self.apply_filters(now);
            },
            _ => {},
        }
        Effect::Idle
    }

    pub fn handle_help_mode(&mut self, action: KeyAction)
        ensures
            final(self)@ == help_step(old(self)@, action),
            final(self).store == old(self).store,
    {
        if action == KeyAction::Escape || action == KeyAction::Char('q') {
            self.mode = AppMode::Normal;
        }
    }

    fn sort_view(&mut self, order: ViewOrder)
        ensures
            final(self)@ == (AppView {
                filtered: stable_sorted(
                    old(self)@.filtered,
                    |x: IssueView, y: IssueView| view_le(order, x, y),
                ),
                mode: AppMode::Normal,
                ..old(self)@
            }),
            final(self).store == old(self).store,
    {
        let issues = copy_issues(&self.filtered_issues);
        self.filtered_issues = stable_sort(issues, &order);
        assert((|x: IssueView, y: IssueView| view_le(order, x, y)) =~= (|
            x: IssueView,
            y: IssueView,
        | <ViewOrder as Order<Issue>>::le(&order, x, y)));
        self.mode = AppMode::Normal;
    }

    pub fn handle_sort_mode(&mut self, action: KeyAction, now: u64)
        ensures
            final(self)@ == sort_step(old(self)@, action, now),
            final(self).store == old(self).store,
    {
        if action == KeyAction::Escape {
            self.mode = AppMode::Normal;
        } else if action == KeyAction::Char('1') {
            self.sort_view(ViewOrder::Priority);
            self.show_status("Sorted by priority", now);
        } else if action == KeyAction::Char('2') {
            self.sort_view(ViewOrder::Date);
            self.show_status("Sorted by date", now);
        } else if action == KeyAction::Char('3') {
            self.sort_view(ViewOrder::Status);
            self.show_status("Sorted by status", now);
        }
    }

    pub fn handle_filter_mode(&mut self, action: KeyAction, now: u64)
        ensures
            final(self)@ == filter_step(old(self)@, action, now),
            final(self).store == old(self).store,
    {
        match action {
            KeyAction::Escape => {
                self.mode = AppMode::Normal;
            },
            KeyAction::Char(c) => {
                if c == 'o' {
                    self.toggle_status_filter(Status::Open, now);
                } else if c == 'i' {
                    self.toggle_status_filter(Status::InProgress, now);
                } else if c == 'b' {
                    self.toggle_status_filter(Status::Blocked, now);
                } else if c == 'c' {
                    self.toggle_closed_filter(now);
                } else if c == 'B' {
                    self.toggle_type_filter(IssueType::Bug, now);
                } else if c == 'F' {
                    self.toggle_type_filter(IssueType::Feature, now);
                } else if c == 'T' {
                    self.toggle_type_filter(IssueType::Task, now);
                } else if c == 'E' {
                    self.toggle_type_filter(IssueType::Epic, now);
                } else if c == 'C' {
                    self.toggle_type_filter(IssueType::Chore, now);
                } else if c == '0' {
                    self.keep_priority(0, now);
                } else if c == '1' {
                    self.keep_priority(1, now);
                } else if c == '2' {
                    self.keep_priority(2, now);
                } else if c == '3' {
                    self.keep_priority(3, now);
                } else if c == '4' {
                    self.keep_priority(4, now);
                } else if c == 'r' {
                    self.reset_filters(now);
                }
            },
            _ => {},
        }
    }

    pub fn handle_which_key_mode(&mut self, ctx: WhichKeyContext, action: KeyAction, now: u64)
        ensures
            final(self)@ == which_key_step(old(self)@, ctx, action, now),
            final(self).store == old(self).store,
    {
        match action {
            KeyAction::Escape => {
                self.mode = AppMode::Normal;
            },
            KeyAction::Char(c) => {
                if c == '1' {
                    match ctx {
                        WhichKeyContext::Status => self.toggle_status_filter(Status::Open, now),
                        WhichKeyContext::Type => self.toggle_type_filter(IssueType::Bug, now),
                        WhichKeyContext::Priority => self.keep_priority(0, now),
                        WhichKeyContext::Labels => {},
                    }
                } else if c == '2' {
                    match ctx {
                        WhichKeyContext::Status => self.toggle_status_filter(
                            Status::InProgress,
                            now,
                        ),
                        WhichKeyContext::Type => self.toggle_type_filter(IssueType::Feature, now),
                        WhichKeyContext::Priority => self.keep_priority(1, now),
                        WhichKeyContext::Labels => {},
                    }
                } else if c == '3' {
                    match ctx {
                        WhichKeyContext::Status => self.toggle_status_filter(Status::Blocked, now),
                        WhichKeyContext::Type => self.toggle_type_filter(IssueType::Task, now),
                        WhichKeyContext::Priority => self.keep_priority(2, now),
                        WhichKeyContext::Labels => {},
                    }
                } else if c == '4' {
                    match ctx {
                        WhichKeyContext::Type => self.toggle_type_filter(IssueType::Epic, now),
                        WhichKeyContext::Priority => self.keep_priority(3, now),
                        _ => {},
                    }
                } else if c == '5' {
                    match ctx {
                        WhichKeyContext::Type => self.toggle_type_filter(IssueType::Chore, now),
                        WhichKeyContext::Priority => self.keep_priority(4, now),
                        _ => {},
                    }
                } else if c == 'c' && ctx == WhichKeyContext::Status {
                    self.toggle_closed_filter(now);
                    self.mode = AppMode::Normal;
                } else if c == 'r' {
                    self.apply_filters(now);
                    self.mode = AppMode::Normal;
                }
            },
            _ => {},
        }
    }

    pub fn handle_add_issue_mode(&mut self, action: KeyAction, now: u64) -> (r: Effect)
        ensures
            (final(self)@, r) == add_step(old(self)@, action, now),
            final(self).store == old(self).store,
    {
        match action {
            KeyAction::Quit => return Effect::Quit,
            KeyAction::Escape => {
                self.mode = AppMode::Normal;
                self.issue_form.reset();
            },
            KeyAction::Enter => {
                if is_blank(&self.issue_form.title) {
                    self.show_status("Title cannot be empty", now);
                } else {
                    return Effect::Create;
                }
            },
            KeyAction::Char(c) => {
                if c == 'q' {
                    return Effect::Quit;
                }
                self.issue_form.step(action);
            },
            _ => self.issue_form.step(action),
        }
        Effect::Idle
    }

    pub fn handle_edit_issue_mode(&mut self, action: KeyAction, now: u64) -> (r: Effect)
        ensures
            (final(self)@, r) == edit_step(old(self)@, action, now),
            final(self).store == old(self).store,
    {
        match action {
            KeyAction::Escape => {
                self.mode = AppMode::Normal;
            },
            KeyAction::Enter => {
                if is_blank(&self.issue_form.title) {
                    self.show_status("Title cannot be empty", now);
                } else {
                    return Effect::Update;
                }
            },
            _ => self.issue_form.step(action),
        }
        Effect::Idle
    }

    fn handle_in_mode(&mut self, action: KeyAction, now: u64) -> (r: Effect)
        ensures
            (final(self)@, r) == mode_step(old(self)@, action, now),
            final(self).store == old(self).store,
    {
        match self.mode {
            AppMode::Normal => self.handle_normal_mode(action, now),
            AppMode::Search => self.handle_search_mode(action, now),
            AppMode::Help => {
                self.handle_help_mode(action);
                Effect::Idle
            },
            AppMode::Sort => {
                self.handle_sort_mode(action, now);
                Effect::Idle
            },
            AppMode::Filter => {
                self.handle_filter_mode(action, now);
                Effect::Idle
            },
            AppMode::WhichKey(ctx) => {
                self.handle_which_key_mode(ctx, action, now);
                Effect::Idle
            },
            AppMode::AddIssue => self.handle_add_issue_mode(action, now),
            AppMode::EditIssue => self.handle_edit_issue_mode(action, now),
            AppMode::Dashboard => self.handle_dashboard_mode(action, now),
        }
    }

    /// Takes a key.
    pub fn handle_key_action(&mut self, action: KeyAction, now: u64) -> (r: Effect)
        ensures
            (final(self)@, r) == app_step(old(self)@, action, now),
            final(self).store == old(self).store,
    {
        if self.mode == AppMode::Normal && (action == KeyAction::Char('E') || action
            == KeyAction::Char('N')) {
            if self.current_issue().is_none() {
                self.show_status("No issue selected", now);
                Effect::Idle
            } else if action == KeyAction::Char('E') {
                Effect::EditDescription
            } else {
                Effect::AddNote
            }
        } else {
            self.handle_in_mode(action, now)
        }
    }

    /// Lets time pass.
    pub fn on_tick(&mut self, now: u64) -> (r: Effect)
        ensures
            (final(self)@, r) == tick_step(old(self)@, now),
            final(self).store == old(self).store,
    {
        match self.status_message_time {
            Some(t) => {
                if now > t && now - t > MESSAGE_MS {
                    self.status_message = None;
                    self.status_message_time = None;
                }
            },
            None => {},
        }
        if !self.follow {
            Effect::Idle
        } else if self.follow_counter >= FOLLOW_TICKS - 1 {
            self.follow_counter = 0;
            Effect::Follow
        } else {
            self.follow_counter = self.follow_counter + 1;
            Effect::Idle
        }
    }

    /// Takes in the event log that was asked for by a refresh.
    pub fn finish_refresh(&mut self, log: Result<Vec<Event>, String>, now: u64)
        ensures
            final(self)@ == old(self)@.with_log(log_view(log), now).with_message(
                "Refreshed"@,
                now,
            ),
            final(self).store == old(self).store,
    {
        self.reload_events(log, now);
        self.show_status("Refreshed", now);
    }

    /// Takes in the event log that was asked for by a tick.
    pub fn finish_follow(&mut self, log: Result<Vec<Event>, String>, now: u64)
        ensures
            final(self)@ == old(self)@.with_log(log_view(log), now).refiltered(now),
            final(self).store == old(self).store,
    {
        self.reload_events(log, now);
        self.apply_filters(now);
    }

    /// Stores the issue that the form describes. What comes back is to be written.
    pub fn create_issue(&mut self, stored: Stored, id: String, at: Timestamp) -> (r: Result<
        Vec<Issue>,
        Error,
    >)
        ensures
            ({
                let issue = form_issue(old(self)@.form, id@, at);
                match lookup(stored.amounts_to(), id@) {
                    Some(_) => {
                        &&& lines_view(r) == Err::<Seq<IssueView>, ErrorView>(
                            ErrorView::AlreadyExists(id@),
                        )
                        &&& final(self)@ == (AppView {
                            entries: stored.amounts_to(),
                            pending: stored.is_legacy(),
                            ..old(self)@
                        })
                    },
                    None => {
                        &&& lines_view(r) == Ok::<Seq<IssueView>, ErrorView>(
                            lines_for(stored, issue),
                        )
                        &&& final(self)@ == (AppView {
                            entries: with_issue(stored.amounts_to(), issue),
                            pending: stored.is_legacy(),
                            ..old(self)@
                        })
                    },
                }
            }),
    {
        let issue = self.issue_form.to_issue(id, at);
        self.store.create(stored, issue)
    }

    /// Ends the entry of an issue once it is written.
    pub fn finish_create(&mut self, now: u64)
        ensures
            final(self)@ == (AppView {
                mode: AppMode::Normal,
                form: empty_form(),
                ..old(self)@.refiltered(now)
            }).with_message("Issue created"@, now),
            final(self).store == old(self).store,
    {
        self.apply_filters(now);
        self.mode = AppMode::Normal;
        self.issue_form.reset();
        self.show_status("Issue created", now);
    }

    /// Stores what the form says of the current issue.
    pub fn update_issue(&mut self, stored: Stored, at: Timestamp) -> (r: Option<
        Result<Vec<Issue>, Error>,
    >)
        ensures
            ({
                let form = old(self)@.form;
                (final(self)@, change_view(r)) == change_step(
                    old(self)@,
                    stored,
                    |i: IssueView| form_update(form, i, at),
                )
            }),
    {
        match self.current_issue() {
            Some(issue) => {
                let changed = self.issue_form.apply_to(issue, at);
                Some(self.store.update(stored, changed))
            },
            None => None,
        }
    }

    /// Ends the change of an issue once it is written, or where there was none.
    pub fn finish_update(&mut self, changed: bool, now: u64)
        ensures
            final(self)@ == (AppView {
                mode: AppMode::Normal,
                ..(if changed {
                    old(self)@.refiltered(now)
                } else {
                    old(self)@
                })
            }).with_message("Issue updated"@, now),
            final(self).store == old(self).store,
    {
        if changed {
            self.apply_filters(now);
        }
        self.mode = AppMode::Normal;
        self.show_status("Issue updated", now);
    }

    /// Stores the current issue with another state.
    pub fn change_issue_status(
        &mut self,
        stored: Stored,
        status: Status,
        at: Timestamp,
    ) -> (r: Option<Result<Vec<Issue>, Error>>)
        ensures
            (final(self)@, change_view(r)) == change_step(
                old(self)@,
                stored,
                |i: IssueView| with_status(i, status, at),
            ),
    {
        match self.current_issue() {
            Some(issue) => {
                let mut changed = issue.copy();
                changed.status = status;
                if status == Status::Closed {
                    changed.closed_at = Some(at);
                }
                changed.updated_at = at;
                Some(self.store.update(stored, changed))
            },
            None => None,
        }
    }

    /// Says that the state of an issue was changed, once it is written.
    pub fn finish_status_change(&mut self, status: Status, now: u64)
        ensures
            final(self)@ == old(self)@.refiltered(now).with_message(
                "Issue status changed to "@ + status.name(),
                now,
            ),
            final(self).store == old(self).store,
    {
        self.apply_filters(now);
        let m = concat("Issue status changed to ", &status.text());
        self.show_status(&m, now);
    }

    /// Stores the current issue as closed.
    pub fn close_issue(&mut self, stored: Stored, at: Timestamp) -> (r: Option<
        Result<Vec<Issue>, Error>,
    >)
        ensures
            (final(self)@, change_view(r)) == change_step(
                old(self)@,
                stored,
                |i: IssueView| i.after_close(None, at),
            ),
    {
        match self.current_issue() {
            Some(issue) => {
                let mut changed = issue.copy();
                changed.close_at(None, at);
                Some(self.store.update(stored, changed))
            },
            None => None,
        }
    }

    /// Says that an issue was closed, once it is written.
    pub fn finish_close(&mut self, now: u64)
        ensures
            final(self)@ == old(self)@.refiltered(now).with_message("Issue closed"@, now),
            final(self).store == old(self).store,
    {
        self.apply_filters(now);
        self.show_status("Issue closed", now);
    }

    /// Takes another description for an issue that was edited outside. `fresh` was read
    /// after that, and `stored` under the lock; what comes back is to be written.
    pub fn apply_description(
        &mut self,
        issue: &Issue,
        description: Option<String>,
        fresh: Store,
        stored: Stored,
        at: Timestamp,
        now: u64,
    ) -> (r: Option<Result<Vec<Issue>, Error>>)
        ensures
            ({
                let edited = late_change(
                    fresh.entries(),
                    issue@.id,
                    |i: IssueView| described(i, description.deep_view(), at),
                );
                let changed_since = match lookup(fresh.entries(), issue@.id) {
                    Some(c) => c.updated_at != issue@.updated_at,
                    None => false,
                };
                (final(self)@, change_view(r)) == late_step(
                    old(self)@,
                    issue@.id,
                    edited,
                    fresh.spec_root(),
                    stored,
                    if changed_since {
                        "Issue changed while editing; applied description to latest version"@
                    } else {
                        "Updated description for "@ + issue@.id
                    },
                    now,
                )
            }),
    {
        let mut message = concat("Updated description for ", &issue.id);
        let changed = match fresh.get(&issue.id) {
            Some(current) => {
                if current.updated_at != issue.updated_at {
                    message
                    = "Issue changed while editing; applied description to latest version".to_owned();
                }
                Some(describe(current, description, at))
            },
            None => None,
        };
        self.apply_late(issue, changed, fresh, stored, &message, now)
    }

    /// Takes a note for an issue.
    pub fn apply_note(
        &mut self,
        issue: &Issue,
        note: &str,
        fresh: Store,
        stored: Stored,
        at: Timestamp,
        now: u64,
    ) -> (r: Option<Result<Vec<Issue>, Error>>)
        ensures
            (final(self)@, change_view(r)) == late_step(
                old(self)@,
                issue@.id,
                late_change(fresh.entries(), issue@.id, |i: IssueView| noted(i, note@, at)),
                fresh.spec_root(),
                stored,
                "Added note to "@ + issue@.id,
                now,
            ),
    {
        let message = concat("Added note to ", &issue.id);
        let changed = match fresh.get(&issue.id) {
            Some(current) => Some(add_note(current, note, at)),
            None => None,
        };
        self.apply_late(issue, changed, fresh, stored, &message, now)
    }

    fn apply_late(
        &mut self,
        issue: &Issue,
        changed: Option<Issue>,
        fresh: Store,
        stored: Stored,
        message: &str,
        now: u64,
    ) -> (r: Option<Result<Vec<Issue>, Error>>)
        ensures
            (final(self)@, change_view(r)) == late_step(
                old(self)@,
                issue@.id,
                changed.deep_view(),
                fresh.spec_root(),
                stored,
                message@,
                now,
            ),
    {
        match changed {
            None => {
                let m = concat(&issue.id, " no longer exists");
                self.show_status(&m, now);
                None
            },
            Some(c) => {
                let mut next = fresh;
                let r = next.update(stored, c);
                match r {
                    Ok(lines) => {
                        self.store = next;
                        self.apply_filters(now);
                        self.show_status(message, now);
                        Some(Ok(lines))
                    },
                    Err(e) => Some(Err(e)),
                }
            },
        }
    }

    /// What a description in the editor led to, where nothing is to be stored.
    pub fn description_unchanged(&mut self, now: u64)
        ensures
            final(self)@ == old(self)@.with_message("No description changes"@, now),
            final(self).store == old(self).store,
    {
        self.show_status("No description changes", now);
    }

    /// What an empty note led to.
    pub fn note_discarded(&mut self, now: u64)
        ensures
            final(self)@ == old(self)@.with_message("Empty note discarded"@, now),
            final(self).store == old(self).store,
    {
        self.show_status("Empty note discarded", now);
    }

    /// The session at the cursor.
    pub fn current_session(&self) -> (r: Option<&SessionSummary>)
        ensures
            r.deep_view() == self@.current_group(),
    {
        if self.session_selection.index < self.sessions.len() {
            assert(self@.sessions[self.session_selection.index as int]
                == self.sessions@[self.session_selection.index as int].deep_view());
            Some(&self.sessions[self.session_selection.index])
        } else {
            None
        }
    }

    /// The events of the issue at the cursor.
    pub fn events_for_selected_issue(&self) -> (r: Vec<&Event>)
        ensures
            r.deep_view() == self@.issue_events(),
    {
        match self.current_issue() {
            None => {
                let r: Vec<&Event> = Vec::new();
                assert(r.deep_view() =~= seq![]);
                r
            },
            Some(issue) => {
                let t = OfIssue { id: &issue.id };
                let r = keep(borrow_events(&self.events), &t);
                assert((|v: EventView| t.holds(v)) =~= (|e: EventView| e.issue_id == issue@.id));
                r
            },
        }
    }

    /// The events of one session.
    pub fn events_of(&self, id: &String) -> (r: Vec<&Event>)
        ensures
            r.deep_view() == self@.events.filter(|e: EventView| group_id(e) == id@),
    {
        let t = OfGroup { id };
        let r = keep(borrow_events(&self.events), &t);
        assert((|v: EventView| t.holds(v)) =~= (|e: EventView| group_id(e) == id@));
        r
    }

    /// The events of the session at the cursor.
    pub fn events_for_selected_session(&self) -> (r: Vec<&Event>)
        ensures
            r.deep_view() == self@.session_events(),
    {
        match self.current_session() {
            None => {
                let r: Vec<&Event> = Vec::new();
                assert(r.deep_view() =~= seq![]);
                r
            },
            Some(session) => self.events_of(&session.session_id),
        }
    }

    /// Whether the filter lets a view of the bar through.
    pub fn view_matches(&self, label: &str) -> (r: bool)
        ensures
            r == view_on(self@.filter, label@),
    {
        if same_text(label, "Ready") {
            self.filter_state.ready_only
        } else if same_text(label, "Open") {
            self.filter_state.enabled_statuses.open
        } else if same_text(label, "Blocked") {
            self.filter_state.enabled_statuses.blocked
        } else if same_text(label, "Epics") {
            self.filter_state.enabled_types.epic
        } else {
            false
        }
    }
}

impl AppView {
    pub open spec fn current_group(self) -> Option<SessionSummaryView> {
        if 0 <= self.session_selection.index < self.sessions.len() {
            Some(self.sessions[self.session_selection.index])
        } else {
            None
        }
    }

    pub open spec fn issue_events(self) -> Seq<EventView> {
        match self.current() {
            None => seq![],
            Some(i) => self.events.filter(|e: EventView| e.issue_id == i.id),
        }
    }

    pub open spec fn session_events(self) -> Seq<EventView> {
        match self.current_group() {
            None => seq![],
            Some(s) => self.events.filter(|e: EventView| group_id(e) == s.session_id),
        }
    }
}

pub open spec fn view_on(filter: FilterView, label: Seq<char>) -> bool {
    if label == "Ready"@ {
        filter.ready_only
    } else if label == "Open"@ {
        filter.statuses.open
    } else if label == "Blocked"@ {
        filter.statuses.blocked
    } else if label == "Epics"@ {
        filter.types.epic
    } else {
        false
    }
}

struct OfIssue<'f> {
    id: &'f String,
}

impl<'f, 'a> Test<&'a Event> for OfIssue<'f> {
    closed spec fn holds(&self, v: EventView) -> bool {
        v.issue_id == self.id@
    }

    fn test(&self, x: &&'a Event) -> (r: bool) {
        same_text(&x.issue_id, self.id)
    }
}

struct OfGroup<'f> {
    id: &'f String,
}

impl<'f, 'a> Test<&'a Event> for OfGroup<'f> {
    closed spec fn holds(&self, v: EventView) -> bool {
        group_id(v) == self.id@
    }

    fn test(&self, x: &&'a Event) -> (r: bool) {
        same_text(&group_of(x), self.id)
    }
}

fn borrow_events(events: &Vec<Event>) -> (r: Vec<&Event>)
    ensures
        r.deep_view() == events.deep_view(),
{
    let mut r: Vec<&Event> = Vec::new();
    let mut i: usize = 0;
    while i < events.len()
        invariant
            i <= events.len(),
            r@.len() == i,
            forall|k: int| 0 <= k < i ==> *(#[trigger] r@[k]) == events@[k],
        decreases events.len() - i,
    {
        r.push(&events[i]);
        i += 1;
    }
    assert(r.deep_view() =~= events.deep_view());
    r
}

/// The change to an issue, where it is still there.
pub open spec fn late_change(
    entries: Seq<IssueView>,
    id: Seq<char>,
    change: spec_fn(IssueView) -> IssueView,
) -> Option<IssueView> {
    match lookup(entries, id) {
        Some(i) => Some(change(i)),
        None => None,
    }
}

/// What a change does that was made while the editor was open. `root` is that of the store
/// that was read afterwards.
pub open spec fn late_step(
    a: AppView,
    id: Seq<char>,
    changed: Option<IssueView>,
    root: Seq<char>,
    stored: Stored,
    message: Seq<char>,
    now: u64,
) -> (AppView, Option<Result<Seq<IssueView>, ErrorView>>) {
    match changed {
        None => (a.with_message(id + " no longer exists"@, now), None),
        Some(i) => (
            match update_lines(stored, i) {
                Ok(_) => AppView {
                    entries: updated_entries(stored, i),
                    root,
                    pending: stored.is_legacy(),
                    ..a
                }.refiltered(now).with_message(message, now),
                Err(_) => a,
            },
            Some(update_lines(stored, i)),
        ),
    }
}

pub open spec fn log_view(log: Result<Vec<Event>, String>) -> Result<
    Seq<EventView>,
    Seq<char>,
> {
    match log {
        Ok(events) => Ok(events.deep_view()),
        Err(e) => Err(e@),
    }
}

pub open spec fn change_view(r: Option<Result<Vec<Issue>, Error>>) -> Option<
    Result<Seq<IssueView>, ErrorView>,
> {
    match r {
        Some(x) => Some(lines_view(x)),
        None => None,
    }
}

// ------------------------------------------------------------------------- laws

/// The store and the events are the same.
pub open spec fn same_data(a: AppView, b: AppView) -> bool {
    a.entries == b.entries && a.root == b.root && a.pending == b.pending && a.events == b.events && a.sessions == b.sessions
}

proof fn lemma_filter_data(a: AppView, c: char, now: u64)
    ensures
        same_data(filter_step(a, KeyAction::Char(c), now), a),
{
}

proof fn lemma_which_key_data(a: AppView, ctx: WhichKeyContext, c: char, now: u64)
    ensures
        same_data(which_key_step(a, ctx, KeyAction::Char(c), now), a),
{
}

proof fn lemma_normal_data(a: AppView, c: char, now: u64)
    ensures
        same_data(normal_char(a, c, now).0, a),
{
    reveal(normal_char);
}

#[verifier::spinoff_prover]
#[verifier::rlimit(60)]
proof fn lemma_mode_data(a: AppView, action: KeyAction, now: u64)
    ensures
        same_data(mode_step(a, action, now).0, a),
{
    match a.mode {
        AppMode::Normal => match action {
            KeyAction::Char(c) => lemma_normal_data(a, c, now),
            _ => {},
        },
        AppMode::Filter => match action {
            KeyAction::Char(c) => lemma_filter_data(a, c, now),
            _ => {},
        },
        AppMode::WhichKey(ctx) => match action {
            KeyAction::Char(c) => lemma_which_key_data(a, ctx, c, now),
            _ => {},
        },
        AppMode::Search => {},
        AppMode::Help => {},
        AppMode::Sort => {},
        AppMode::AddIssue => {},
        AppMode::EditIssue => {},
        AppMode::Dashboard => {},
    }
}

/// Law: no key by itself changes an issue or an event. What is to be changed is handed out as
/// an effect.
pub proof fn keys_change_no_issue(a: AppView, action: KeyAction, now: u64)
    ensures
        same_data(app_step(a, action, now).0, a),
{
    lemma_mode_data(a, action, now);
}

/// Law: escape leads back to the normal mode from everywhere, and asks for nothing.
pub proof fn escape_leads_back(a: AppView, now: u64)
    ensures
        app_step(a, KeyAction::Escape, now).0.mode == AppMode::Normal,
        app_step(a, KeyAction::Escape, now).1 == Effect::Idle,
        app_step(a, KeyAction::Escape, now).0.filtered == a.filtered,
{
}

/// Law: an issue is shown if and only if it is stored, not deleted, and the filter and the
/// search let it through.
pub proof fn shown_if_it_matches(
    entries: Seq<IssueView>,
    filter: FilterView,
    query: Seq<char>,
    i: IssueView,
)
    ensures
        shown_issues(entries, filter, query).contains(i) <==> entries.contains(i) && i.status
            != Status::Tombstone && filter.shows(i, query),
{
    let all = if filter.show_closed {
        listed(entries, false)
    } else {
        listed_open(entries)
    };
    let f = |v: IssueView| filter.shows(v, query);
    let le = |a: IssueView, b: IssueView| key_le(SortKey::Priority, a, b);
    let kept = all.filter(f);
    let shown = shown_issues(entries, filter, query);
    crate::sort::sorting_keeps_items(kept, le);
    if shown.contains(i) {
        crate::store::lemma_same_items(shown, kept, i);
    }
    if kept.contains(i) {
        crate::store::lemma_same_items(kept, shown, i);
    }
    lemma_filter_has(all, f, i);
    if filter.show_closed {
        let include_tombstones = false;
        let g = |v: IssueView| include_tombstones || v.status != Status::Tombstone;
        assert(all == entries.filter(g));
        lemma_filter_has(entries, g, i);
    } else {
        let g = |v: IssueView| v.status.spec_is_open();
        assert(all == entries.filter(g));
        lemma_filter_has(entries, g, i);
    }
}

proof fn lemma_filter_has<V>(s: Seq<V>, f: spec_fn(V) -> bool, x: V)
    ensures
        s.filter(f).contains(x) <==> s.contains(x) && f(x),
{
    broadcast use vstd::seq_lib::group_filter_ensures;

    if s.filter(f).contains(x) {
        let m = choose|m: int| 0 <= m < s.filter(f).len() && s.filter(f)[m] == x;
        crate::query::lemma_filter_from(s, f, m);
        assert(f(s.filter(f)[m]));
    }
    if s.contains(x) && f(x) {
        let m = choose|m: int| 0 <= m < s.len() && s[m] == x;
        assert(s.filter(f).contains(s[m]));
    }
}

/// Law: the issues are shown by priority, and from the newest on where it is the same.
pub proof fn shown_in_order(
    entries: Seq<IssueView>,
    filter: FilterView,
    query: Seq<char>,
    j: int,
    k: int,
)
    requires
        0 <= j < k < shown_issues(entries, filter, query).len(),
    ensures
        key_le(
            SortKey::Priority,
            shown_issues(entries, filter, query)[j],
            shown_issues(entries, filter, query)[k],
        ),
{
    let all = if filter.show_closed {
        listed(entries, false)
    } else {
        listed_open(entries)
    };
    let le = |a: IssueView, b: IssueView| key_le(SortKey::Priority, a, b);
    let kept = all.filter(|v: IssueView| filter.shows(v, query));
    crate::sort::sorting_orders(kept, le);
    assert(le(stable_sorted(kept, le)[j], stable_sorted(kept, le)[k]));
}

/// Law: to choose a state or a type twice changes nothing in the filter.
pub proof fn toggling_a_filter_twice(a: AppView, s: Status, t: IssueType, now: u64)
    ensures
        a.toggle_status(s, now).toggle_status(s, now).filter == a.filter,
        a.toggle_type(t, now).toggle_type(t, now).filter == a.filter,
        a.toggle_closed(now).toggle_closed(now).filter == a.filter,
{
}

/// Law: the cursor is on an issue after the issues were shown anew, unless there is none.
pub proof fn cursor_is_on_an_issue(a: AppView, now: u64)
    requires
        a.selection.index >= 0,
    ensures
        a.refiltered(now).filtered.len() > 0 ==> a.refiltered(now).current() is Some,
{
}

/// Law: a message that was just shown stays for three seconds, and goes at the first tick
/// after them.
pub proof fn messages_expire(a: AppView, message: Seq<char>, shown: u64, now: u64)
    ensures
        tick_step(a.with_message(message, shown), now).0.message == (if now > shown + MESSAGE_MS {
            None
        } else {
            Some(message)
        }),
{
}

/// The state and the type of an issue are among those that are ticked, and so is one of its
/// labels where labels are asked for.
pub open spec fn is_ticked(filter: FilterView, i: IssueView) -> bool {
    &&& (i.status == Status::Open ==> filter.statuses.open)
    &&& (i.status == Status::InProgress ==> filter.statuses.in_progress)
    &&& (i.status == Status::Blocked ==> filter.statuses.blocked)
    &&& (i.status == Status::Closed ==> filter.show_closed)
    &&& (i.issue_type == IssueType::Bug ==> filter.types.bug)
    &&& (i.issue_type == IssueType::Feature ==> filter.types.feature)
    &&& (i.issue_type == IssueType::Task ==> filter.types.task)
    &&& (i.issue_type == IssueType::Epic ==> filter.types.epic)
    &&& (i.issue_type == IssueType::Chore ==> filter.types.chore)
    &&& (filter.labels.len() > 0 ==> exists|l: Seq<char>|
        #![auto]
        filter.labels.contains(l) && i.labels.contains(l))
}

/// Law: the issues on the screen are those that are stored and not deleted, whose state, type
/// and label are ticked, and whose title, description or id holds what is searched for,
/// whatever the case. A closed issue is shown if and only if closed ones are asked for.
pub proof fn screen_shows_what_is_ticked(
    entries: Seq<IssueView>,
    filter: FilterView,
    query: Seq<char>,
    i: IssueView,
)
    requires
        !filter.show_blocked,
    ensures
        shown_issues(entries, filter, query).contains(i) <==> {
            &&& entries.contains(i)
            &&& i.status != Status::Tombstone
            &&& is_ticked(filter, i)
            &&& query.len() == 0 || holds_text(lowercased(i.title), lowercased(query))
                || holds_text(lowercased(i.id), lowercased(query)) || (i.description is Some
                && holds_text(lowercased(i.description->0), lowercased(query)))
        },
{
    shown_if_it_matches(entries, filter, query, i);
    let by_label = exists|k: int|
        0 <= k < i.labels.len() && filter.labels.contains(#[trigger] i.labels[k]);
    let ticked = exists|l: Seq<char>|
        #![auto]
        filter.labels.contains(l) && i.labels.contains(l);
    if by_label {
        let k = choose|k: int|
            0 <= k < i.labels.len() && filter.labels.contains(#[trigger] i.labels[k]);
        assert(i.labels.contains(i.labels[k]));
    }
    if ticked {
        let l = choose|l: Seq<char>|
            #![auto]
            filter.labels.contains(l) && i.labels.contains(l);
        let k = choose|k: int| 0 <= k < i.labels.len() && i.labels[k] == l;
        assert(filter.labels.contains(i.labels[k]));
    }
    assert(by_label <==> ticked);
}

/// Law: what is more urgent stands higher on the screen, and of two issues with one priority
/// the newer one.
pub proof fn screen_runs_by_priority(
    entries: Seq<IssueView>,
    filter: FilterView,
    query: Seq<char>,
    j: int,
    k: int,
)
    requires
        0 <= j < k < shown_issues(entries, filter, query).len(),
    ensures
        ({
            let a = shown_issues(entries, filter, query)[j];
            let b = shown_issues(entries, filter, query)[k];
            a.priority < b.priority || (a.priority == b.priority && b.created_at.le(a.created_at))
        }),
{
    shown_in_order(entries, filter, query, j, k);
}

/// Law: at the start every issue that is open is on the screen, and nothing else.
pub proof fn screen_starts_with_open_work(entries: Seq<IssueView>, i: IssueView)
    ensures
        shown_issues(entries, default_filter(), seq![]).contains(i) <==> entries.contains(i) && (
        i.status == Status::Open || i.status == Status::InProgress || i.status
            == Status::Blocked),
{
    screen_shows_what_is_ticked(entries, default_filter(), seq![], i);
}

/// Law: to choose another order moves the issues on the screen and neither drops nor adds one.
/// They then run by priority, from the newest on, or by their state.
pub proof fn chosen_order_is_kept(a: AppView, now: u64, x: IssueView, j: int, k: int)
    requires
        a.mode == AppMode::Sort,
        0 <= j < k < a.filtered.len(),
    ensures
        ({
            let b = app_step(a, KeyAction::Char('1'), now).0;
            &&& b.filtered.len() == a.filtered.len()
            &&& b.filtered.contains(x) <==> a.filtered.contains(x)
            &&& b.filtered[j].priority <= b.filtered[k].priority
            &&& b.mode == AppMode::Normal
        }),
        ({
            let b = app_step(a, KeyAction::Char('2'), now).0;
            &&& b.filtered.len() == a.filtered.len()
            &&& b.filtered.contains(x) <==> a.filtered.contains(x)
            &&& b.filtered[k].created_at.le(b.filtered[j].created_at)
            &&& b.mode == AppMode::Normal
        }),
        ({
            let b = app_step(a, KeyAction::Char('3'), now).0;
            &&& b.filtered.len() == a.filtered.len()
            &&& b.filtered.contains(x) <==> a.filtered.contains(x)
            &&& b.filtered[k].status == Status::Open ==> b.filtered[j].status == Status::Open
            &&& b.filtered[k].status == Status::InProgress ==> b.filtered[j].status == Status::Open
                || b.filtered[j].status == Status::InProgress
            &&& b.filtered[k].status == Status::Blocked ==> b.filtered[j].status != Status::Closed
                && b.filtered[j].status != Status::Tombstone
            &&& b.filtered[j].status == Status::Tombstone ==> b.filtered[k].status
                == Status::Tombstone
            &&& b.mode == AppMode::Normal
        }),
{
    let by_priority = |x: IssueView, y: IssueView| view_le(ViewOrder::Priority, x, y);
    let by_date = |x: IssueView, y: IssueView| view_le(ViewOrder::Date, x, y);
    let by_status = |x: IssueView, y: IssueView| view_le(ViewOrder::Status, x, y);
    crate::sort::sorting_orders(a.filtered, by_priority);
    crate::sort::sorting_orders(a.filtered, by_date);
    crate::sort::sorting_orders(a.filtered, by_status);
    crate::sort::sorting_keeps_each(a.filtered, by_priority, x);
    crate::sort::sorting_keeps_each(a.filtered, by_date, x);
    crate::sort::sorting_keeps_each(a.filtered, by_status, x);
    crate::sort::sorting_keeps_items(a.filtered, by_priority);
    crate::sort::sorting_keeps_items(a.filtered, by_date);
    crate::sort::sorting_keeps_items(a.filtered, by_status);
    let p = stable_sorted(a.filtered, by_priority);
    assert(by_priority(p[j], p[k]));
    let d = stable_sorted(a.filtered, by_date);
    assert(by_date(d[j], d[k]));
    let s = stable_sorted(a.filtered, by_status);
    assert(by_status(s[j], s[k]));
}

/// Law: to narrow the screen to one priority keeps exactly the issues of it that were shown.
pub proof fn one_priority_is_kept(a: AppView, p: u8, now: u64, i: IssueView)
    ensures
        a.only_priority(p, now).filtered.contains(i) <==> a.filtered.contains(i) && i.priority == p,
        a.only_priority(p, now).filter == a.filter,
        a.only_priority(p, now).mode == AppMode::Normal,
{
    crate::filter::filtering_keeps_what_passes(a.filtered, |v: IssueView| v.priority == p, i);
}

/// Law: in the filter mode the digits choose their own priority, and the letters each flip the
/// one state or type that they stand for.
pub proof fn filter_keys_do_what_they_stand_for(a: AppView, now: u64, i: IssueView)
    requires
        a.mode == AppMode::Filter,
    ensures
        app_step(a, KeyAction::Char('0'), now).0.filtered.contains(i) <==> a.filtered.contains(i)
            && i.priority == 0,
        app_step(a, KeyAction::Char('1'), now).0.filtered.contains(i) <==> a.filtered.contains(i)
            && i.priority == 1,
        app_step(a, KeyAction::Char('2'), now).0.filtered.contains(i) <==> a.filtered.contains(i)
            && i.priority == 2,
        app_step(a, KeyAction::Char('3'), now).0.filtered.contains(i) <==> a.filtered.contains(i)
            && i.priority == 3,
        app_step(a, KeyAction::Char('4'), now).0.filtered.contains(i) <==> a.filtered.contains(i)
            && i.priority == 4,
        ({
            let f = app_step(a, KeyAction::Char('o'), now).0.filter;
            f == FilterView {
                statuses: StatusSet { open: !a.filter.statuses.open, ..a.filter.statuses },
                ..a.filter
            }
        }),
        ({
            let f = app_step(a, KeyAction::Char('i'), now).0.filter;
            f == FilterView {
                statuses: StatusSet {
                    in_progress: !a.filter.statuses.in_progress,
                    ..a.filter.statuses
                },
                ..a.filter
            }
        }),
        ({
            let f = app_step(a, KeyAction::Char('b'), now).0.filter;
            f == FilterView {
                statuses: StatusSet { blocked: !a.filter.statuses.blocked, ..a.filter.statuses },
                ..a.filter
            }
        }),
        ({
            let f = app_step(a, KeyAction::Char('c'), now).0.filter;
            f == FilterView { show_closed: !a.filter.show_closed, ..a.filter }
        }),
        ({
            let f = app_step(a, KeyAction::Char('B'), now).0.filter;
            f == FilterView {
                types: TypeSet { bug: !a.filter.types.bug, ..a.filter.types },
                ..a.filter
            }
        }),
        ({
            let f = app_step(a, KeyAction::Char('F'), now).0.filter;
            f == FilterView {
                types: TypeSet { feature: !a.filter.types.feature, ..a.filter.types },
                ..a.filter
            }
        }),
        ({
            let f = app_step(a, KeyAction::Char('T'), now).0.filter;
            f == FilterView {
                types: TypeSet { task: !a.filter.types.task, ..a.filter.types },
                ..a.filter
            }
        }),
        ({
            let f = app_step(a, KeyAction::Char('E'), now).0.filter;
            f == FilterView {
                types: TypeSet { epic: !a.filter.types.epic, ..a.filter.types },
                ..a.filter
            }
        }),
        ({
            let f = app_step(a, KeyAction::Char('C'), now).0.filter;
            f == FilterView {
                types: TypeSet { chore: !a.filter.types.chore, ..a.filter.types },
                ..a.filter
            }
        }),
{
    one_priority_is_kept(a, 0, now, i);
    one_priority_is_kept(a, 1, now, i);
    one_priority_is_kept(a, 2, now, i);
    one_priority_is_kept(a, 3, now, i);
    one_priority_is_kept(a, 4, now, i);
}

/// Law: what is typed in a search is what is searched for: a key adds its character, and the
/// issues that hold the text so far are on the screen at once.
pub proof fn typing_searches(a: AppView, c: char, now: u64, i: IssueView)
    requires
        a.mode == AppMode::Search,
        c != 'q',
        !a.filter.show_blocked,
    ensures
        ({
            let b = app_step(a, KeyAction::Char(c), now).0;
            &&& b.query == a.query.push(c)
            &&& b.mode == AppMode::Search
            &&& (b.filtered.contains(i) <==> {
                &&& a.entries.contains(i)
                &&& i.status != Status::Tombstone
                &&& is_ticked(a.filter, i)
                &&& holds_text(lowercased(i.title), lowercased(a.query.push(c))) || holds_text(
                    lowercased(i.id),
                    lowercased(a.query.push(c)),
                ) || (i.description is Some && holds_text(
                    lowercased(i.description->0),
                    lowercased(a.query.push(c)),
                ))
            })
        }),
        app_step(a, KeyAction::Backspace, now).0.query == (if a.query.len() > 0 {
            a.query.take(a.query.len() - 1)
        } else {
            a.query
        }),
{
    screen_shows_what_is_ticked(a.entries, a.filter, a.query.push(c), i);
    if a.query.len() > 0 {
        assert(a.query.take(a.query.len() - 1) =~= without_last(a.query));
    } else {
        assert(a.query =~= without_last(a.query));
    }
}

/// Law: the keys from one to four ask for their own state, and `c` to close.
pub proof fn state_keys_ask_for_their_state(a: AppView, now: u64)
    requires
        a.mode == AppMode::Normal,
    ensures
        app_step(a, KeyAction::Char('1'), now).1 == Effect::SetStatus(Status::Open),
        app_step(a, KeyAction::Char('2'), now).1 == Effect::SetStatus(Status::InProgress),
        app_step(a, KeyAction::Char('3'), now).1 == Effect::SetStatus(Status::Blocked),
        app_step(a, KeyAction::Char('4'), now).1 == Effect::SetStatus(Status::Closed),
        app_step(a, KeyAction::Char('c'), now).1 == Effect::Close,
        app_step(a, KeyAction::Char('q'), now).1 == Effect::Quit,
{
    reveal(normal_char);
}

/// Law: another state changes the state and the time of the change, and the time of closing
/// where the issue is closed by it. All the rest stays.
pub proof fn another_state_changes_only_the_state(i: IssueView, status: Status, now: Timestamp)
    ensures
        with_status(i, status, now).status == status,
        with_status(i, status, now).updated_at == now,
        status == Status::Closed ==> with_status(i, status, now).closed_at == Some(now),
        status != Status::Closed ==> with_status(i, status, now).closed_at == i.closed_at,
        ({
            let j = with_status(i, status, now);
            IssueView {
                status: i.status,
                updated_at: i.updated_at,
                closed_at: i.closed_at,
                ..j
            } == i
        }),
{
}

/// Law: a change is made to the issue at the cursor and to no other, and what is written for it
/// is a line that holds it. Where that issue is gone, nothing is changed.
pub proof fn changes_go_to_the_issue_at_the_cursor(
    a: AppView,
    stored: Stored,
    change: spec_fn(IssueView) -> IssueView,
    other: Seq<char>,
)
    requires
        0 <= a.selection.index < a.filtered.len(),
        other != change(a.filtered[a.selection.index]).id,
    ensures
        ({
            let now = change(a.filtered[a.selection.index]);
            let (b, written) = change_step(a, stored, change);
            &&& lookup(b.entries, other) == lookup(stored.amounts_to(), other)
            &&& lookup(stored.amounts_to(), now.id) is Some ==> lookup(b.entries, now.id) == Some(now)
            &&& lookup(stored.amounts_to(), now.id) is None ==> b.entries == stored.amounts_to()
                && written == Some(Err::<Seq<IssueView>, ErrorView>(ErrorView::NotFound(now.id)))
            &&& written is Some
        }),
{
    let now = change(a.filtered[a.selection.index]);
    let entries = stored.amounts_to();
    if lookup(entries, now.id) is Some {
        crate::store::put_is_found(entries, now, other);
        crate::store::put_is_found(entries, now, now.id);
    }
}

/// Law: the activity of an issue is made of the events on it, and that of a session of the
/// events in it.
pub proof fn activity_is_that_of_the_chosen(a: AppView, e: EventView)
    ensures
        0 <= a.selection.index < a.filtered.len() ==> (a.issue_events().contains(e)
            <==> a.events.contains(e) && e.issue_id == a.filtered[a.selection.index].id),
        !(0 <= a.selection.index < a.filtered.len()) ==> a.issue_events().len() == 0,
        0 <= a.session_selection.index < a.sessions.len() ==> (a.session_events().contains(e)
            <==> a.events.contains(e) && group_id(e)
            == a.sessions[a.session_selection.index].session_id),
{
    if let Some(i) = a.current() {
        crate::filter::filtering_keeps_what_passes(
            a.events,
            |e: EventView| e.issue_id == i.id,
            e,
        );
    }
    if let Some(s) = a.current_group() {
        crate::filter::filtering_keeps_what_passes(
            a.events,
            |e: EventView| group_id(e) == s.session_id,
            e,
        );
    }
}

/// Law: while the log is followed it is read at every eighth tick, and never otherwise.
pub proof fn log_is_followed_every_eighth_tick(a: AppView, now: u64)
    ensures
        tick_step(a, now).1 == Effect::Follow <==> a.follow && a.follow_counter >= 7,
        a.follow && a.follow_counter < 7 ==> tick_step(a, now).0.follow_counter
            == a.follow_counter + 1,
        a.follow && a.follow_counter >= 7 ==> tick_step(a, now).0.follow_counter == 0,
        tick_step(a, now).1 == Effect::Follow || tick_step(a, now).1 == Effect::Idle,
{
}

/// Law: a title is asked for before an issue is stored from the form, and with one it is.
pub proof fn forms_need_a_title(a: AppView, now: u64)
    requires
        a.mode == AppMode::AddIssue || a.mode == AppMode::EditIssue,
    ensures
        is_blank_text(a.form.title) ==> app_step(a, KeyAction::Enter, now).1 == Effect::Idle
            && app_step(a, KeyAction::Enter, now).0.mode == a.mode,
        !is_blank_text(a.form.title) && a.mode == AppMode::AddIssue ==> app_step(
            a,
            KeyAction::Enter,
            now,
        ).1 == Effect::Create,
        !is_blank_text(a.form.title) && a.mode == AppMode::EditIssue ==> app_step(
            a,
            KeyAction::Enter,
            now,
        ).1 == Effect::Update,
        app_step(a, KeyAction::Enter, now).0.form == a.form,
{
}

/// Law: the events that are taken in are those of the log, from the oldest on.
pub proof fn events_are_taken_in_by_time(a: AppView, log: Seq<EventView>, e: EventView, j: int, k: int)
    ensures
        a.with_events(log).events.contains(e) <==> log.contains(e),
        a.with_events(log).events.len() == log.len(),
        0 <= j < k < log.len() ==> a.with_events(log).events[j].timestamp.le(
            a.with_events(log).events[k].timestamp,
        ),
        a.with_events(log).entries == a.entries,
        a.with_events(log).filtered == a.filtered,
{
    let le = |a: EventView, b: EventView| older_first(a, b);
    crate::sort::sorting_keeps_each(log, le, e);
    crate::sort::sorting_keeps_items(log, le);
    crate::sort::sorting_orders(log, le);
    if 0 <= j < k < log.len() {
        assert(le(stable_sorted(log, le)[j], stable_sorted(log, le)[k]));
    }
}

/// Law: where a type is chosen by a digit, each digit flips its own type. Where a priority is
/// chosen, the first digit keeps the most urgent issues on the screen, and each of the next the
/// issues of the next priority.
pub proof fn choices_do_what_they_name(a: AppView, now: u64, i: IssueView)
    ensures
        a.mode == AppMode::WhichKey(WhichKeyContext::Type) ==> {
            let t = a.filter.types;
            &&& app_step(a, KeyAction::Char('1'), now).0.filter.types == (TypeSet {
                bug: !t.bug,
                ..t
            })
            &&& app_step(a, KeyAction::Char('2'), now).0.filter.types == (TypeSet {
                feature: !t.feature,
                ..t
            })
            &&& app_step(a, KeyAction::Char('3'), now).0.filter.types == (TypeSet {
                task: !t.task,
                ..t
            })
            &&& app_step(a, KeyAction::Char('4'), now).0.filter.types == (TypeSet {
                epic: !t.epic,
                ..t
            })
            &&& app_step(a, KeyAction::Char('5'), now).0.filter.types == (TypeSet {
                chore: !t.chore,
                ..t
            })
        },
        a.mode == AppMode::WhichKey(WhichKeyContext::Priority) ==> {
            &&& app_step(a, KeyAction::Char('1'), now).0.filtered.contains(i)
                <==> a.filtered.contains(i) && i.priority == 0
            &&& app_step(a, KeyAction::Char('2'), now).0.filtered.contains(i)
                <==> a.filtered.contains(i) && i.priority == 1
            &&& app_step(a, KeyAction::Char('3'), now).0.filtered.contains(i)
                <==> a.filtered.contains(i) && i.priority == 2
            &&& app_step(a, KeyAction::Char('4'), now).0.filtered.contains(i)
                <==> a.filtered.contains(i) && i.priority == 3
            &&& app_step(a, KeyAction::Char('5'), now).0.filtered.contains(i)
                <==> a.filtered.contains(i) && i.priority == 4
        },
{
    one_priority_is_kept(a, 0, now, i);
    one_priority_is_kept(a, 1, now, i);
    one_priority_is_kept(a, 2, now, i);
    one_priority_is_kept(a, 3, now, i);
    one_priority_is_kept(a, 4, now, i);
}

/// Law: the keys that open something open it, and those that switch a view lead back when they
/// are pressed again.
pub proof fn view_keys_switch_the_view(a: AppView, now: u64)
    requires
        a.mode == AppMode::Normal,
    ensures
        app_step(a, KeyAction::Char('a'), now).0.mode == AppMode::AddIssue,
        app_step(a, KeyAction::Char('/'), now).0.mode == AppMode::Search,
        app_step(a, KeyAction::Char('/'), now).0.query.len() == 0,
        app_step(a, KeyAction::Char('?'), now).0.mode == AppMode::Help,
        app_step(a, KeyAction::Char('s'), now).0.mode == AppMode::Sort,
        app_step(a, KeyAction::Char('f'), now).0.mode == AppMode::Filter,
        app_step(a, KeyAction::Char('D'), now).0.mode == AppMode::Dashboard,
        app_step(a, KeyAction::Char('v'), now).0.verbose == !a.verbose,
        app_step(a, KeyAction::Char('F'), now).0.follow == !a.follow,
        app_step(a, KeyAction::Char('S'), now).0.middle != a.middle,
        app_step(a, KeyAction::Char('T'), now).0.detail != a.detail,
        0 <= a.selection.index < a.filtered.len() ==> app_step(a, KeyAction::Char('e'), now).0.mode
            == AppMode::EditIssue && app_step(a, KeyAction::Char('e'), now).0.form.title
            == a.filtered[a.selection.index].title,
        0 <= a.selection.index < a.filtered.len() ==> app_step(a, KeyAction::Char('E'), now).1
            == Effect::EditDescription && app_step(a, KeyAction::Char('N'), now).1
            == Effect::AddNote,
        a.middle == MiddleView::Issues && 0 <= a.selection.index < a.filtered.len() - 1 ==> app_step(
            a,
            KeyAction::Down,
            now,
        ).0.selection.index == a.selection.index + 1,
        a.middle == MiddleView::Issues && 0 < a.selection.index ==> app_step(
            a,
            KeyAction::Up,
            now,
        ).0.selection.index == a.selection.index - 1,
{
    reveal(normal_char);
}

/// Law: a change that was made while the editor was open goes to the issue as it now is in the
/// store, and to no other; where it is gone, the store stays as it is.
pub proof fn late_changes_go_to_the_stored_issue(
    a: AppView,
    entries: Seq<IssueView>,
    id: Seq<char>,
    change: spec_fn(IssueView) -> IssueView,
    root: Seq<char>,
    stored: Stored,
    message: Seq<char>,
    now: u64,
)
    ensures
        lookup(entries, id) is None ==> late_step(
            a,
            id,
            late_change(entries, id, change),
            root,
            stored,
            message,
            now,
        ).0.entries == a.entries,
        lookup(entries, id) is Some && lookup(
            stored.amounts_to(),
            change(lookup(entries, id)->0).id,
        ) is Some ==> ({
            let new = change(lookup(entries, id)->0);
            let b = late_step(a, id, late_change(entries, id, change), root, stored, message, now).0;
            &&& lookup(b.entries, new.id) == Some(new)
            &&& b.message == Some(message)
        }),
{
    if let Some(i) = lookup(entries, id) {
        let new = change(i);
        crate::store::put_is_found(stored.amounts_to(), new, new.id);
    }
}

/// Law: a log that was read is taken in, and one that was not leaves the events as they were
/// and says why.
pub proof fn logs_are_taken_in_or_told(a: AppView, log: Seq<EventView>, e: Seq<char>, now: u64, x: EventView)
    ensures
        a.with_log(Ok(log), now).events.contains(x) <==> log.contains(x),
        a.with_log(Err(e), now).events == a.events,
        a.with_log(Err(e), now).message == Some("event log error: "@ + e),
{
    events_are_taken_in_by_time(a, log, x, 0, 0);
}

} // verus!
