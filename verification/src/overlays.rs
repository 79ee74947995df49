//! The bars and the overlays of the interactive view, and how its panes are laid out.
use crate::filter::{keep, Test};
use crate::form::{FormField, FormView, IssueForm};
use crate::graph::{is_ready, IssueGraph};
use crate::issue::{Issue, IssueType, IssueView, Status};
use crate::store::{listed, Store};
use crate::style::{
    line_of, line_of_two, new_line, no_lines, plain, push_line, push_lines, push_span, toned, Span,
    SpanView, Tone,
};
use crate::text::{concat, decimal, decimal_text};
use crate::time::{span_seconds, Timestamp, SECS_PER_DAY};
use crate::tui::{
    view_on, App, AppMode, AppView, DetailView, FilterState, FilterView, MiddleView,
    WhichKeyContext,
};
use vstd::prelude::*;

verus! {

// ------------------------------------------------------------------------- views

/// How many issues each view of the bar holds.
#[derive(Clone, Copy, Debug, PartialEq, Eq, Structural)]
pub struct ViewCounts {
    pub ready: usize,
    pub open: usize,
    pub blocked: usize,
    pub mine: usize,
    pub recent: usize,
    pub epics: usize,
}

/// The views of the bar.
#[derive(Clone, Copy, Debug, PartialEq, Eq, Structural)]
pub enum BarView {
    Open,
    Blocked,
    Mine,
    Epics,
    Recent(Timestamp),
}

/// Whether an issue belongs to a view. It is recent for seven days and the part of a day.
pub open spec fn in_view(view: BarView, i: IssueView) -> bool {
    match view {
        BarView::Open => i.status.spec_is_open(),
        BarView::Blocked => i.status == Status::Blocked,
        BarView::Mine => i.assignee is Some,
        BarView::Epics => i.issue_type == IssueType::Epic && i.status.spec_is_open(),
        BarView::Recent(now) => span_seconds(now, i.updated_at) < 8 * SECS_PER_DAY,
    }
}

impl<'a> Test<&'a Issue> for BarView {
    open spec fn holds(&self, v: IssueView) -> bool {
        in_view(*self, v)
    }

    fn test(&self, x: &&'a Issue) -> (r: bool) {
        match self {
            BarView::Open => x.status.is_open(),
            BarView::Blocked => x.status == Status::Blocked,
            BarView::Mine => x.assignee.is_some(),
            BarView::Epics => x.issue_type == IssueType::Epic && x.status.is_open(),
            BarView::Recent(now) => now.seconds_since(&x.updated_at) < 8 * SECS_PER_DAY,
        }
    }
}

/// How many issues belong to a view.
pub open spec fn view_size(issues: Seq<IssueView>, view: BarView) -> nat {
    issues.filter(|i: IssueView| in_view(view, i)).len()
}

fn count_view(store: &Store, view: BarView) -> (r: usize)
    ensures
        r == view_size(listed(store.entries(), false), view),
{
    let kept = keep(store.list(false), &view);
    assert((|v: IssueView| <BarView as Test<&Issue>>::holds(&view, v)) =~= (|i: IssueView|
        in_view(view, i)));
    assert(kept.deep_view().len() == kept@.len());
    kept.len()
}

impl ViewCounts {
    /// Counts the issues of each view.
    pub fn from_app(app: &App, now: Timestamp) -> (r: ViewCounts)
        ensures
            ({
                let issues = listed(app@.entries, false);
                &&& r.ready == issues.filter(|i: IssueView| is_ready(i, issues)).len()
                &&& r.open == view_size(issues, BarView::Open)
                &&& r.blocked == view_size(issues, BarView::Blocked)
                &&& r.mine == view_size(issues, BarView::Mine)
                &&& r.recent == view_size(issues, BarView::Recent(now))
                &&& r.epics == view_size(issues, BarView::Epics)
            }),
    {
        let issues = app.store.list(false);
        let ghost d = issues.deep_view();
        let graph = IssueGraph::from_issues(&issues);
        let ready = graph.ready_issues(issues);
        proof {
            let by_nodes = |i: IssueView|
                i.status.spec_is_open() && !crate::graph::is_held_up(i, graph.nodes());
            let by_graph = |i: IssueView| is_ready(i, d);
            assert(by_nodes =~= by_graph);
        }
        assert(ready.deep_view().len() == ready@.len());
        ViewCounts {
            ready: ready.len(),
            open: count_view(&app.store, BarView::Open),
            blocked: count_view(&app.store, BarView::Blocked),
            mine: count_view(&app.store, BarView::Mine),
            recent: count_view(&app.store, BarView::Recent(now)),
            epics: count_view(&app.store, BarView::Epics),
        }
    }
}

/// The tone of a view in the bar.
pub open spec fn view_tone(filter: FilterView, label: Seq<char>, count: usize) -> Tone {
    if view_on(filter, label) {
        Tone::Marked
    } else if label == "Blocked"@ && count > 0 {
        Tone::RedBold
    } else {
        Tone::Dim
    }
}

/// A view in the bar.
pub open spec fn view_span(
    filter: FilterView,
    label: Seq<char>,
    key: Seq<char>,
    count: usize,
) -> SpanView {
    toned(
        view_tone(filter, label, count),
        " "@ + key + ":"@ + label + " "@ + decimal(count as nat) + " "@,
    )
}

/// The keys that the bar names.
pub open spec fn bar_keys() -> Seq<char> {
    " / search  f filters  f→c closed  1 reopen  S sessions  T timeline  v ctx  E edit  ? help "@
}

/// The bar of views.
pub open spec fn view_bar(filter: FilterView, c: ViewCounts) -> Seq<SpanView> {
    let gap = toned(Tone::Dim, " │ "@);
    seq![
        plain(" "@),
        view_span(filter, "Ready"@, "r"@, c.ready),
        gap,
        view_span(filter, "Open"@, "o"@, c.open),
        gap,
        view_span(filter, "Blocked"@, "b"@, c.blocked),
        gap,
        view_span(filter, "Mine"@, "m"@, c.mine),
        gap,
        view_span(filter, "Recent"@, "u"@, c.recent),
        gap,
        view_span(filter, "Epics"@, "e"@, c.epics),
        gap,
        toned(Tone::Dim, bar_keys()),
    ]
}

fn push_view(line: &mut Vec<Span>, app: &App, label: &str, key: &str, count: usize)
    ensures
        final(line).deep_view() == old(line).deep_view().push(
            view_span(app@.filter, label@, key@, count),
        ),
{
    let tone = if app.view_matches(label) {
        Tone::Marked
    } else if crate::text::same_text(label, "Blocked") && count > 0 {
        Tone::RedBold
    } else {
        Tone::Dim
    };
    let mut t = concat(" ", key);
    t.append(":");
    t.append(label);
    t.append(" ");
    t.append(&decimal_text(count as u64));
    t.append(" ");
    push_span(line, tone, &t);
}

pub fn make_view_bar(app: &App, counts: &ViewCounts) -> (r: Vec<Span>)
    ensures
        r.deep_view() == view_bar(app@.filter, *counts),
{
    let mut r = line_of(Tone::Plain, " ");
    push_view(&mut r, app, "Ready", "r", counts.ready);
    push_span(&mut r, Tone::Dim, " │ ");
    push_view(&mut r, app, "Open", "o", counts.open);
    push_span(&mut r, Tone::Dim, " │ ");
    push_view(&mut r, app, "Blocked", "b", counts.blocked);
    push_span(&mut r, Tone::Dim, " │ ");
    push_view(&mut r, app, "Mine", "m", counts.mine);
    push_span(&mut r, Tone::Dim, " │ ");
    push_view(&mut r, app, "Recent", "u", counts.recent);
    push_span(&mut r, Tone::Dim, " │ ");
    push_view(&mut r, app, "Epics", "e", counts.epics);
    push_span(&mut r, Tone::Dim, " │ ");
    push_span(
        &mut r,
        Tone::Dim,
        " / search  f filters  f→c closed  1 reopen  S sessions  T timeline  v ctx  E edit  ? help ",
    );
    assert(r.deep_view() =~= view_bar(app@.filter, *counts));
    r
}

// -------------------------------------------------------------------- status bar

/// The name of a mode.
pub open spec fn mode_name(mode: AppMode) -> Seq<char> {
    match mode {
        AppMode::Normal => "[NORMAL]"@,
        AppMode::Search => "[SEARCH]"@,
        AppMode::Help => "[HELP]"@,
        AppMode::Sort => "[SORT]"@,
        AppMode::Filter => "[FILTER]"@,
        AppMode::WhichKey(_) => "[WHICHKEY]"@,
        AppMode::AddIssue => "[ADD ISSUE]"@,
        AppMode::EditIssue => "[EDIT ISSUE]"@,
        AppMode::Dashboard => "[DASHBOARD]"@,
    }
}

fn mode_text(mode: AppMode) -> (r: &'static str)
    ensures
        r@ == mode_name(mode),
{
    match mode {
        AppMode::Normal => "[NORMAL]",
        AppMode::Search => "[SEARCH]",
        AppMode::Help => "[HELP]",
        AppMode::Sort => "[SORT]",
        AppMode::Filter => "[FILTER]",
        AppMode::WhichKey(_) => "[WHICHKEY]",
        AppMode::AddIssue => "[ADD ISSUE]",
        AppMode::EditIssue => "[EDIT ISSUE]",
        AppMode::Dashboard => "[DASHBOARD]",
    }
}

/// The line at the bottom: a message, or else where the view stands.
pub open spec fn status_bar(a: AppView) -> Seq<SpanView> {
    let mode = toned(
        if a.mode == AppMode::Normal {
            Tone::GreenBold
        } else {
            Tone::YellowBold
        },
        mode_name(a.mode),
    );
    match a.message {
        Some(m) => seq![mode, plain(" | "@), toned(Tone::Cyan, m)],
        None => seq![
            mode,
            plain(" | "@),
            plain(
                "View:"@ + (if a.middle == MiddleView::Issues {
                    "Issues"@
                } else {
                    "Sessions"@
                }) + "/"@ + (if a.detail == DetailView::Issue {
                    "Det"@
                } else {
                    "Act"@
                }) + (if a.follow {
                    " ● follow"@
                } else {
                    ""@
                }) + " | Sel:"@ + decimal(a.selection.selected.len()) + " | "@,
            ),
            plain(
                "[S]essions [T]imeline [v]erbose [F]ollow [a]dd [e]dit [c]lose [/]search [?]help [q]uit"@,
            ),
        ],
    }
}

pub fn make_status_bar(app: &App) -> (r: Vec<Span>)
    ensures
        r.deep_view() == status_bar(app@),
{
    let tone = if app.mode == AppMode::Normal {
        Tone::GreenBold
    } else {
        Tone::YellowBold
    };
    let mut r = line_of_two(tone, mode_text(app.mode), Tone::Plain, " | ");
    match &app.status_message {
        Some(m) => push_span(&mut r, Tone::Cyan, m),
        None => {
            let mut t = concat(
                "View:",
                if app.middle_view == MiddleView::Issues {
                    "Issues"
                } else {
                    "Sessions"
                },
            );
            t.append("/");
            t.append(
                if app.detail_view == DetailView::Issue {
                    "Det"
                } else {
                    "Act"
                },
            );
            t.append(
                if app.follow {
                    " ● follow"
                } else {
                    ""
                },
            );
            t.append(" | Sel:");
            t.append(&decimal_text(app.selection.selected_count() as u64));
            t.append(" | ");
            push_span(&mut r, Tone::Plain, &t);
            push_span(
                &mut r,
                Tone::Plain,
                "[S]essions [T]imeline [v]erbose [F]ollow [a]dd [e]dit [c]lose [/]search [?]help [q]uit",
            );
        },
    }
    assert(r.deep_view() =~= status_bar(app@));
    r
}

// ---------------------------------------------------------------------- overlays

/// A choice that is on or off.
pub open spec fn check_line(key: Seq<char>, on: bool, label: Seq<char>) -> Seq<SpanView> {
    seq![
        plain(
            key + (if on {
                "[x]"@
            } else {
                "[ ]"@
            }) + label,
        ),
    ]
}

fn make_check(key: &str, on: bool, label: &str) -> (r: Vec<Span>)
    ensures
        r.deep_view() == check_line(key@, on, label@),
{
    let mut t = concat(
        key,
        if on {
            "[x]"
        } else {
            "[ ]"
        },
    );
    t.append(label);
    line_of(Tone::Plain, &t)
}

/// The states that can be chosen.
pub open spec fn status_checks(f: FilterView) -> Seq<Seq<SpanView>> {
    seq![
        seq![toned(Tone::Bold, "Status:"@)],
        check_line("  [o] "@, f.statuses.open, " Open"@),
        check_line("  [i] "@, f.statuses.in_progress, " In Progress"@),
        check_line("  [b] "@, f.statuses.blocked, " Blocked"@),
        check_line("  [c] "@, f.show_closed, " Show Closed"@),
        seq![],
    ]
}

/// The types that can be chosen.
pub open spec fn type_checks(f: FilterView) -> Seq<Seq<SpanView>> {
    seq![
        seq![toned(Tone::Bold, "Type:"@)],
        check_line("  [B] "@, f.types.bug, " Bug"@),
        check_line("  [F] "@, f.types.feature, " Feature"@),
        check_line("  [T] "@, f.types.task, " Task"@),
        check_line("  [E] "@, f.types.epic, " Epic"@),
        check_line("  [C] "@, f.types.chore, " Chore"@),
        seq![],
    ]
}

/// The priorities that can be chosen, and the keys that end the choice.
pub open spec fn priority_choices() -> Seq<Seq<SpanView>> {
    seq![
        seq![toned(Tone::Bold, "Priority (filter to single):"@)],
        seq![plain("  [0] P0 Critical   [1] P1 High   [2] P2 Medium"@)],
        seq![plain("  [3] P3 Low        [4] P4 Backlog"@)],
        seq![],
        seq![
            toned(Tone::Yellow, "[r]"@),
            plain(" Reset all filters   "@),
            toned(Tone::Red, "[Esc]"@),
            plain(" Close"@),
        ],
    ]
}

/// The filters that can be chosen.
pub open spec fn filter_lines(f: FilterView) -> Seq<Seq<SpanView>> {
    seq![seq![toned(Tone::CyanBold, "Filter Options"@)], seq![]] + status_checks(f) + type_checks(f)
        + priority_choices()
}

fn make_status_checks(f: &FilterState) -> (r: Vec<Vec<Span>>)
    ensures
        r.deep_view() == status_checks(f@),
{
    let mut r = no_lines();
    push_line(&mut r, line_of(Tone::Bold, "Status:"));
    push_line(&mut r, make_check("  [o] ", f.enabled_statuses.open, " Open"));
    push_line(&mut r, make_check("  [i] ", f.enabled_statuses.in_progress, " In Progress"));
    push_line(&mut r, make_check("  [b] ", f.enabled_statuses.blocked, " Blocked"));
    push_line(&mut r, make_check("  [c] ", f.show_closed, " Show Closed"));
    push_line(&mut r, new_line());
    assert(r.deep_view() =~= status_checks(f@));
    r
}

fn make_type_checks(f: &FilterState) -> (r: Vec<Vec<Span>>)
    ensures
        r.deep_view() == type_checks(f@),
{
    let mut r = no_lines();
    push_line(&mut r, line_of(Tone::Bold, "Type:"));
    push_line(&mut r, make_check("  [B] ", f.enabled_types.bug, " Bug"));
    push_line(&mut r, make_check("  [F] ", f.enabled_types.feature, " Feature"));
    push_line(&mut r, make_check("  [T] ", f.enabled_types.task, " Task"));
    push_line(&mut r, make_check("  [E] ", f.enabled_types.epic, " Epic"));
    push_line(&mut r, make_check("  [C] ", f.enabled_types.chore, " Chore"));
    push_line(&mut r, new_line());
    assert(r.deep_view() =~= type_checks(f@));
    r
}

fn make_priority_choices() -> (r: Vec<Vec<Span>>)
    ensures
        r.deep_view() == priority_choices(),
{
    let mut r = no_lines();
    push_line(&mut r, line_of(Tone::Bold, "Priority (filter to single):"));
    push_line(&mut r, line_of(Tone::Plain, "  [0] P0 Critical   [1] P1 High   [2] P2 Medium"));
    push_line(&mut r, line_of(Tone::Plain, "  [3] P3 Low        [4] P4 Backlog"));
    push_line(&mut r, new_line());
    let mut last = line_of_two(Tone::Yellow, "[r]", Tone::Plain, " Reset all filters   ");
    push_span(&mut last, Tone::Red, "[Esc]");
    push_span(&mut last, Tone::Plain, " Close");
    assert(last.deep_view() =~= priority_choices()[4]);
    push_line(&mut r, last);
    assert(r.deep_view() =~= priority_choices());
    r
}

pub fn make_filter_overlay(f: &FilterState) -> (r: Vec<Vec<Span>>)
    ensures
        r.deep_view() == filter_lines(f@),
{
    let mut r = no_lines();
    push_line(&mut r, line_of(Tone::CyanBold, "Filter Options"));
    push_line(&mut r, new_line());
    assert(r.deep_view() =~= seq![seq![toned(Tone::CyanBold, "Filter Options"@)], seq![]]);
    push_lines(&mut r, make_status_checks(f));
    push_lines(&mut r, make_type_checks(f));
    push_lines(&mut r, make_priority_choices());
    r
}

/// The tone of a field of the form.
pub open spec fn field_tone(f: FormView, field: FormField) -> Tone {
    if f.selected_field == field {
        Tone::CyanBold
    } else {
        Tone::Plain
    }
}

/// A field of the form whose value is chosen.
pub open spec fn choice_line(tone: Tone, label: Seq<char>, value: Seq<char>) -> Seq<SpanView> {
    seq![toned(tone, label), toned(tone, value), plain(" (↑/↓ to change)"@)]
}

fn make_choice(tone: Tone, label: &str, value: &str) -> (r: Vec<Span>)
    ensures
        r.deep_view() == choice_line(tone, label@, value@),
{
    let mut r = line_of_two(tone, label, tone, value);
    push_span(&mut r, Tone::Plain, " (↑/↓ to change)");
    assert(r.deep_view() =~= choice_line(tone, label@, value@));
    r
}

/// A field of the form that is typed.
pub open spec fn entry_line(tone: Tone, label: Seq<char>, value: Seq<char>) -> Seq<SpanView> {
    seq![toned(tone, label), plain(value), plain("_"@)]
}

fn make_entry(tone: Tone, label: &str, value: &str) -> (r: Vec<Span>)
    ensures
        r.deep_view() == entry_line(tone, label@, value@),
{
    let mut r = line_of_two(tone, label, Tone::Plain, value);
    push_span(&mut r, Tone::Plain, "_");
    assert(r.deep_view() =~= entry_line(tone, label@, value@));
    r
}

/// The form.
pub open spec fn form_lines(f: FormView, title: Seq<char>) -> Seq<Seq<SpanView>> {
    seq![
        seq![toned(Tone::CyanBold, title)],
        seq![],
        entry_line(field_tone(f, FormField::Title), "Title: "@, f.title),
        choice_line(
            field_tone(f, FormField::IssueType),
            "Type: "@,
            "["@ + f.issue_type.name() + "]"@,
        ),
        choice_line(
            field_tone(f, FormField::Priority),
            "Priority: "@,
            "P"@ + decimal(f.priority as nat),
        ),
        choice_line(
            field_tone(f, FormField::Status),
            "Status: "@,
            "["@ + f.status.name() + "]"@,
        ),
        seq![toned(field_tone(f, FormField::Description), "Description:"@)],
        entry_line(field_tone(f, FormField::Description), "  "@, f.description),
        seq![],
        seq![],
        seq![
            toned(Tone::Green, "[Enter]"@),
            plain(" Save  "@),
            toned(Tone::Red, "[Esc]"@),
            plain(" Cancel  "@),
            toned(Tone::Yellow, "[Tab]"@),
            plain(" Next field"@),
        ],
    ]
}

fn tone_of_field(form: &IssueForm, field: FormField) -> (r: Tone)
    ensures
        r == field_tone(form@, field),
{
    if form.selected_field == field {
        Tone::CyanBold
    } else {
        Tone::Plain
    }
}

fn bracketed(s: &str) -> (r: String)
    ensures
        r@ == "["@ + s@ + "]"@,
{
    let mut r = concat("[", s);
    r.append("]");
    r
}

pub fn make_issue_form(form: &IssueForm, title: &str) -> (r: Vec<Vec<Span>>)
    ensures
        r.deep_view() == form_lines(form@, title@),
{
    let mut r = no_lines();
    push_line(&mut r, line_of(Tone::CyanBold, title));
    push_line(&mut r, new_line());
    push_line(&mut r, make_entry(tone_of_field(form, FormField::Title), "Title: ", &form.title));
    push_line(
        &mut r,
        make_choice(
            tone_of_field(form, FormField::IssueType),
            "Type: ",
            &bracketed(form.issue_type.text()),
        ),
    );
    push_line(
        &mut r,
        make_choice(
            tone_of_field(form, FormField::Priority),
            "Priority: ",
            &concat("P", &decimal_text(form.priority as u64)),
        ),
    );
    push_line(
        &mut r,
        make_choice(
            tone_of_field(form, FormField::Status),
            "Status: ",
            &bracketed(form.status.text()),
        ),
    );
    push_line(
        &mut r,
        line_of(tone_of_field(form, FormField::Description), "Description:"),
    );
    push_line(
        &mut r,
        make_entry(tone_of_field(form, FormField::Description), "  ", &form.description),
    );
    push_line(&mut r, new_line());
    push_line(&mut r, new_line());
    let mut last = line_of_two(Tone::Green, "[Enter]", Tone::Plain, " Save  ");
    push_span(&mut last, Tone::Red, "[Esc]");
    push_span(&mut last, Tone::Plain, " Cancel  ");
    push_span(&mut last, Tone::Yellow, "[Tab]");
    push_span(&mut last, Tone::Plain, " Next field");
    assert(last.deep_view() =~= form_lines(form@, title@)[10]);
    push_line(&mut r, last);
    assert(r.deep_view() =~= form_lines(form@, title@));
    r
}

/// The keys that can be pressed where one of a few choices is made.
pub open spec fn which_key_line(ctx: WhichKeyContext) -> Seq<SpanView> {
    match ctx {
        WhichKeyContext::Status => seq![
            toned(Tone::CyanBold, "[Status Filter] "@),
            plain("[1] Toggle Open | "@),
            plain("[2] Toggle In Progress | "@),
            plain("[3] Toggle Blocked | "@),
            plain("[c] Toggle Closed | "@),
            plain("[r] Reset filters | "@),
        ],
        WhichKeyContext::Type => seq![
            toned(Tone::CyanBold, "[Type Filter] "@),
            plain("[1] Toggle Bug | "@),
            plain("[2] Toggle Feature | "@),
            plain("[3] Toggle Task | "@),
            plain("[4] Toggle Epic | "@),
            plain("[5] Toggle Chore | "@),
            plain("[r] Reset filters | "@),
        ],
        WhichKeyContext::Priority => seq![
            toned(Tone::CyanBold, "[Priority Filter] "@),
            plain("[0] P0 Critical | "@),
            plain("[1] P1 High | "@),
            plain("[2] P2 Medium | "@),
            plain("[3] P3 Low | "@),
            plain("[4] P4 Backlog | "@),
            plain("[r] Reset filters | "@),
        ],
        WhichKeyContext::Labels => seq![
            toned(Tone::CyanBold, "[Label Filter] "@),
            plain("[r] Reset filters | "@),
        ],
    }
}

pub fn make_which_key(ctx: WhichKeyContext) -> (r: Vec<Span>)
    ensures
        r.deep_view() == which_key_line(ctx),
{
    let mut r = new_line();
    match ctx {
        WhichKeyContext::Status => {
            push_span(&mut r, Tone::CyanBold, "[Status Filter] ");
            push_span(&mut r, Tone::Plain, "[1] Toggle Open | ");
            push_span(&mut r, Tone::Plain, "[2] Toggle In Progress | ");
            push_span(&mut r, Tone::Plain, "[3] Toggle Blocked | ");
            push_span(&mut r, Tone::Plain, "[c] Toggle Closed | ");
        },
        WhichKeyContext::Type => {
            push_span(&mut r, Tone::CyanBold, "[Type Filter] ");
            push_span(&mut r, Tone::Plain, "[1] Toggle Bug | ");
            push_span(&mut r, Tone::Plain, "[2] Toggle Feature | ");
            push_span(&mut r, Tone::Plain, "[3] Toggle Task | ");
            push_span(&mut r, Tone::Plain, "[4] Toggle Epic | ");
            push_span(&mut r, Tone::Plain, "[5] Toggle Chore | ");
        },
        WhichKeyContext::Priority => {
            push_span(&mut r, Tone::CyanBold, "[Priority Filter] ");
            push_span(&mut r, Tone::Plain, "[0] P0 Critical | ");
            push_span(&mut r, Tone::Plain, "[1] P1 High | ");
            push_span(&mut r, Tone::Plain, "[2] P2 Medium | ");
            push_span(&mut r, Tone::Plain, "[3] P3 Low | ");
            push_span(&mut r, Tone::Plain, "[4] P4 Backlog | ");
        },
        WhichKeyContext::Labels => {
            push_span(&mut r, Tone::CyanBold, "[Label Filter] ");
        },
    }
    push_span(&mut r, Tone::Plain, "[r] Reset filters | ");
    assert(r.deep_view() =~= which_key_line(ctx));
    r
}

// ------------------------------------------------------------------------ layout

/// The panes below the bar of views.
#[derive(Clone, Copy, Debug, PartialEq, Eq, Structural)]
pub enum Panes {
    /// The details of an issue alone.
    Details,
    /// The activity alone.
    Activity,
    /// The list of issues alone.
    List,
    /// A list of the given width, and beside it the details or the activity.
    Both(u16),
}

/// How the panes are laid out in a window of some width.
pub open spec fn panes_for(width: u16, middle: MiddleView, detail: DetailView) -> Panes {
    if width < 90 {
        if detail == DetailView::Activity {
            Panes::Activity
        } else if middle == MiddleView::Issues {
            Panes::Details
        } else {
            Panes::List
        }
    } else if width >= 150 {
        Panes::Both(72)
    } else {
        Panes::Both((width / 2) as u16)
    }
}

pub fn choose_panes(app: &App, width: u16) -> (r: Panes)
    ensures
        r == panes_for(width, app@.middle, app@.detail),
{
    if width < 90 {
        if app.detail_view == DetailView::Activity {
            Panes::Activity
        } else if app.middle_view == MiddleView::Issues {
            Panes::Details
        } else {
            Panes::List
        }
    } else if width >= 150 {
        Panes::Both(72)
    } else {
        Panes::Both(width / 2)
    }
}

// ------------------------------------------------------------------------- laws

/// Law: the views of the bar hold the issues that are not closed, those that are blocked, those
/// that are assigned to someone, and the epics that are not closed.
pub proof fn views_hold_what_they_name(issues: Seq<IssueView>)
    ensures
        view_size(issues, BarView::Blocked) == issues.filter(
            |i: IssueView| i.status == Status::Blocked,
        ).len(),
        view_size(issues, BarView::Mine) == issues.filter(|i: IssueView| i.assignee is Some).len(),
        view_size(issues, BarView::Open) == issues.filter(
            |i: IssueView| i.status != Status::Closed && i.status != Status::Tombstone,
        ).len(),
        view_size(issues, BarView::Epics) == issues.filter(
            |i: IssueView|
                i.issue_type == IssueType::Epic && i.status != Status::Closed && i.status
                    != Status::Tombstone,
        ).len(),
    decreases issues.len(),
{
    reveal(Seq::filter);
    if issues.len() > 0 {
        views_hold_what_they_name(issues.drop_last());
    }
}

/// Law: the bar has the number of issues of each view beside its name.
pub proof fn bar_shows_the_numbers(filter: FilterView, c: ViewCounts)
    ensures
        ({
            let r = view_bar(filter, c);
            &&& r[1].text == " r:Ready "@ + decimal(c.ready as nat) + " "@
            &&& r[3].text == " o:Open "@ + decimal(c.open as nat) + " "@
            &&& r[5].text == " b:Blocked "@ + decimal(c.blocked as nat) + " "@
            &&& r[7].text == " m:Mine "@ + decimal(c.mine as nat) + " "@
            &&& r[9].text == " u:Recent "@ + decimal(c.recent as nat) + " "@
        }),
{
    let r = view_bar(filter, c);
    reveal_strlit(" ");
    reveal_strlit(":");
    reveal_strlit("r");
    reveal_strlit("o");
    reveal_strlit("b");
    reveal_strlit("m");
    reveal_strlit("u");
    reveal_strlit("Ready");
    reveal_strlit("Open");
    reveal_strlit("Blocked");
    reveal_strlit("Mine");
    reveal_strlit("Recent");
    reveal_strlit(" r:Ready ");
    reveal_strlit(" o:Open ");
    reveal_strlit(" b:Blocked ");
    reveal_strlit(" m:Mine ");
    reveal_strlit(" u:Recent ");
    assert(" "@ + "r"@ + ":"@ + "Ready"@ + " "@ =~= " r:Ready "@);
    assert(" "@ + "o"@ + ":"@ + "Open"@ + " "@ =~= " o:Open "@);
    assert(" "@ + "b"@ + ":"@ + "Blocked"@ + " "@ =~= " b:Blocked "@);
    assert(" "@ + "m"@ + ":"@ + "Mine"@ + " "@ =~= " m:Mine "@);
    assert(" "@ + "u"@ + ":"@ + "Recent"@ + " "@ =~= " u:Recent "@);
}

proof fn lemma_cross(key: Seq<char>, on: bool, label: Seq<char>)
    requires
        key.len() == 6,
    ensures
        check_line(key, on, label)[0].text[7] == 'x' <==> on,
        check_line(key, on, label)[0].text[3] == key[3],
{
    reveal_strlit("[x]");
    reveal_strlit("[ ]");
}

/// Law: in the list of filters a cross is set at what is ticked, and nowhere else.
pub proof fn filters_show_what_is_ticked(f: FilterView)
    ensures
        ({
            let r = filter_lines(f);
            &&& f.statuses.open <==> r[3][0].text[7] == 'x'
            &&& r[3][0].text[3] == 'o'
            &&& f.statuses.in_progress <==> r[4][0].text[7] == 'x'
            &&& r[4][0].text[3] == 'i'
            &&& f.statuses.blocked <==> r[5][0].text[7] == 'x'
            &&& r[5][0].text[3] == 'b'
            &&& f.show_closed <==> r[6][0].text[7] == 'x'
            &&& r[6][0].text[3] == 'c'
            &&& f.types.bug <==> r[9][0].text[7] == 'x'
            &&& r[9][0].text[3] == 'B'
            &&& f.types.feature <==> r[10][0].text[7] == 'x'
            &&& r[10][0].text[3] == 'F'
            &&& f.types.task <==> r[11][0].text[7] == 'x'
            &&& r[11][0].text[3] == 'T'
            &&& f.types.epic <==> r[12][0].text[7] == 'x'
            &&& r[12][0].text[3] == 'E'
            &&& f.types.chore <==> r[13][0].text[7] == 'x'
            &&& r[13][0].text[3] == 'C'
        }),
{
    let r = filter_lines(f);
    reveal_strlit("  [o] ");
    lemma_cross("  [o] "@, f.statuses.open, " Open"@);
    assert(r[3] == check_line("  [o] "@, f.statuses.open, " Open"@));
    reveal_strlit("  [i] ");
    lemma_cross("  [i] "@, f.statuses.in_progress, " In Progress"@);
    assert(r[4] == check_line("  [i] "@, f.statuses.in_progress, " In Progress"@));
    reveal_strlit("  [b] ");
    lemma_cross("  [b] "@, f.statuses.blocked, " Blocked"@);
    assert(r[5] == check_line("  [b] "@, f.statuses.blocked, " Blocked"@));
    reveal_strlit("  [c] ");
    lemma_cross("  [c] "@, f.show_closed, " Show Closed"@);
    assert(r[6] == check_line("  [c] "@, f.show_closed, " Show Closed"@));
    reveal_strlit("  [B] ");
    lemma_cross("  [B] "@, f.types.bug, " Bug"@);
    assert(r[9] == check_line("  [B] "@, f.types.bug, " Bug"@));
    reveal_strlit("  [F] ");
    lemma_cross("  [F] "@, f.types.feature, " Feature"@);
    assert(r[10] == check_line("  [F] "@, f.types.feature, " Feature"@));
    reveal_strlit("  [T] ");
    lemma_cross("  [T] "@, f.types.task, " Task"@);
    assert(r[11] == check_line("  [T] "@, f.types.task, " Task"@));
    reveal_strlit("  [E] ");
    lemma_cross("  [E] "@, f.types.epic, " Epic"@);
    assert(r[12] == check_line("  [E] "@, f.types.epic, " Epic"@));
    reveal_strlit("  [C] ");
    lemma_cross("  [C] "@, f.types.chore, " Chore"@);
    assert(r[13] == check_line("  [C] "@, f.types.chore, " Chore"@));
}

/// Law: the form shows what was entered, each value in the line of its field.
pub proof fn form_shows_what_was_entered(f: FormView, title: Seq<char>)
    ensures
        ({
            let r = form_lines(f, title);
            &&& r[0][0].text == title
            &&& r[2][1].text == f.title
            &&& r[3][1].text == "["@ + f.issue_type.name() + "]"@
            &&& r[4][1].text == "P"@ + decimal(f.priority as nat)
            &&& r[5][1].text == "["@ + f.status.name() + "]"@
            &&& r[7][1].text == f.description
            &&& r[2][0].tone == Tone::CyanBold <==> f.selected_field == FormField::Title
            &&& r[3][0].tone == Tone::CyanBold <==> f.selected_field == FormField::IssueType
            &&& r[4][0].tone == Tone::CyanBold <==> f.selected_field == FormField::Priority
            &&& r[5][0].tone == Tone::CyanBold <==> f.selected_field == FormField::Status
            &&& r[6][0].tone == Tone::CyanBold <==> f.selected_field == FormField::Description
        }),
{
}

/// Law: a narrow window shows one pane: the activity where it was chosen, else the details or
/// the list of sessions. A wider one shows the list beside it, on no more than half of the
/// width.
pub proof fn wide_windows_show_two_panes(width: u16, middle: MiddleView, detail: DetailView)
    ensures
        width < 90 <==> !(panes_for(width, middle, detail) is Both),
        width < 90 && detail == DetailView::Activity ==> panes_for(width, middle, detail)
            == Panes::Activity,
        width < 90 && detail == DetailView::Issue && middle == MiddleView::Issues ==> panes_for(
            width,
            middle,
            detail,
        ) == Panes::Details,
        width >= 90 ==> 45 <= panes_for(width, middle, detail)->Both_0 && 2 * panes_for(
            width,
            middle,
            detail,
        )->Both_0 <= width,
{
}

/// Law: the line at the bottom shows the message where there is one, and the mode in any case.
pub proof fn bottom_line_shows_the_message(a: AppView)
    ensures
        a.message is Some ==> status_bar(a)[2].text == a.message->0,
        a.mode == AppMode::Normal ==> status_bar(a)[0].text == "[NORMAL]"@,
        a.mode == AppMode::Search ==> status_bar(a)[0].text == "[SEARCH]"@,
        a.mode == AppMode::Filter ==> status_bar(a)[0].text == "[FILTER]"@,
        a.mode == AppMode::Sort ==> status_bar(a)[0].text == "[SORT]"@,
        a.mode == AppMode::AddIssue ==> status_bar(a)[0].text == "[ADD ISSUE]"@,
        a.mode == AppMode::EditIssue ==> status_bar(a)[0].text == "[EDIT ISSUE]"@,
        a.mode == AppMode::Dashboard ==> status_bar(a)[0].text == "[DASHBOARD]"@,
{
}

} // verus!
