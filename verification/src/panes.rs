//! The text of the panes of the interactive view.
use crate::events::{Event, EventAction, EventView};
use crate::issue::{Dependency, DependencyView, Issue, IssueView, Status};
use crate::render::{
    agent_ctx_line, agent_ctx_verbose, change_texts, ctx_fields, ctx_parts, first_some,
    format_changes, heads_event, says,
};
use crate::store::lookup;
use crate::style::{
    line_of, line_of_two, list_texts, listed_lines, new_line, no_lines, plain, push_line,
    push_lines, push_span, toned, Span, SpanView, Tone,
};
use crate::text::{
    byte_len, byte_length, bytes_from, concat, cuts_at, decimal, decimal_text, first_bytes,
    head_bytes, join, joined, lines_of, pad_right, padded_right, same_text, split_lines,
    tail_bytes, trim, trimmed,
};
use crate::time::formatted;
use crate::timeline::{group_id, or_else, SessionSummary, SessionSummaryView};
use crate::tui::{App, AppView, MiddleView};
use vstd::prelude::*;

verus! {

// ----------------------------------------------------------------------- issues

/// The tone of a state.
pub open spec fn state_tone(s: Status) -> Tone {
    match s {
        Status::Open => Tone::Green,
        Status::InProgress => Tone::Yellow,
        Status::Blocked => Tone::Red,
        Status::Closed => Tone::Dim,
        Status::Tombstone => Tone::Dim,
    }
}

fn tone_of_state(s: Status) -> (r: Tone)
    ensures
        r == state_tone(s),
{
    match s {
        Status::Open => Tone::Green,
        Status::InProgress => Tone::Yellow,
        Status::Blocked => Tone::Red,
        Status::Closed => Tone::Dim,
        Status::Tombstone => Tone::Dim,
    }
}

/// The tone of a priority.
pub open spec fn priority_tone(p: u8) -> Tone {
    if p <= 1 {
        Tone::RedBold
    } else if p == 2 {
        Tone::YellowBold
    } else if p == 3 {
        Tone::GreenBold
    } else {
        Tone::DarkBold
    }
}

/// A priority in words.
pub open spec fn priority_name(p: u8) -> Seq<char> {
    if p == 0 {
        "Critical"@
    } else if p == 1 {
        "High"@
    } else if p == 2 {
        "Medium"@
    } else if p == 3 {
        "Low"@
    } else {
        "Backlog"@
    }
}

fn priority_word(p: u8) -> (r: &'static str)
    ensures
        r@ == priority_name(p),
{
    if p == 0 {
        "Critical"
    } else if p == 1 {
        "High"
    } else if p == 2 {
        "Medium"
    } else if p == 3 {
        "Low"
    } else {
        "Backlog"
    }
}

/// A title in the list can be cut where it is too long.
pub open spec fn title_fits(title: Seq<char>) -> bool {
    byte_len(title) > 50 ==> cuts_at(title, 47)
}

/// A title in the list: at most fifty bytes.
pub open spec fn row_title(title: Seq<char>) -> Seq<char> {
    if byte_len(title) > 50 {
        head_bytes(title, 47) + "..."@
    } else {
        title
    }
}

/// An issue in the list.
pub open spec fn issue_row(i: IssueView, selected: bool, cursor: bool) -> Seq<SpanView> {
    seq![
        plain(
            if cursor {
                "> "@
            } else if selected {
                "[*] "@
            } else {
                "[ ] "@
            },
        ),
        toned(Tone::Cyan, i.id),
        plain(" "@),
        toned(priority_tone(i.priority), "[P"@ + decimal(i.priority as nat) + "] "@),
        toned(Tone::Blue, "["@ + i.issue_type.name() + "] "@),
        toned(state_tone(i.status), i.status.name() + " "@),
        plain(row_title(i.title)),
    ]
}

pub fn make_issue_row(issue: &Issue, selected: bool, cursor: bool) -> (r: Vec<Span>)
    requires
        title_fits(issue@.title),
    ensures
        r.deep_view() == issue_row(issue@, selected, cursor),
{
    let mut r = new_line();
    push_span(
        &mut r,
        Tone::Plain,
        if cursor {
            "> "
        } else if selected {
            "[*] "
        } else {
            "[ ] "
        },
    );
    push_span(&mut r, Tone::Cyan, &issue.id);
    push_span(&mut r, Tone::Plain, " ");
    let tone = if issue.priority <= 1 {
        Tone::RedBold
    } else if issue.priority == 2 {
        Tone::YellowBold
    } else if issue.priority == 3 {
        Tone::GreenBold
    } else {
        Tone::DarkBold
    };
    let mut p = concat("[P", &decimal_text(issue.priority as u64));
    p.append("] ");
    push_span(&mut r, tone, &p);
    let mut t = concat("[", issue.issue_type.text());
    t.append("] ");
    push_span(&mut r, Tone::Blue, &t);
    push_span(&mut r, tone_of_state(issue.status), &concat(issue.status.text(), " "));
    let title = if byte_length(&issue.title) > 50 {
        concat(&first_bytes(&issue.title, 47), "...")
    } else {
        issue.title.clone()
    };
    push_span(&mut r, Tone::Plain, &title);
    assert(r.deep_view() =~= issue_row(issue@, selected, cursor));
    r
}

/// The dependencies of an issue as texts.
pub open spec fn dependency_texts(deps: Seq<DependencyView>) -> Seq<Seq<char>> {
    Seq::new(
        deps.len(),
        |i: int|
            deps[i].issue_id + " -> "@ + deps[i].depends_on_id + " ("@ + deps[i].dep_type.name()
                + ")"@,
    )
}

fn list_dependencies(deps: &Vec<Dependency>) -> (r: Vec<String>)
    ensures
        r.deep_view() == dependency_texts(deps.deep_view()),
{
    let ghost all = dependency_texts(deps.deep_view());
    let mut r: Vec<String> = Vec::new();
    let mut i: usize = 0;
    while i < deps.len()
        invariant
            i <= deps.len(),
            all == dependency_texts(deps.deep_view()),
            r@.len() == i,
            forall|k: int| 0 <= k < i ==> (#[trigger] r@[k])@ == all[k],
        decreases deps.len() - i,
    {
        let d = &deps[i];
        let mut t = concat(&d.issue_id, " -> ");
        t.append(&d.depends_on_id);
        t.append(" (");
        t.append(d.dep_type.text());
        t.append(")");
        assert(deps.deep_view()[i as int] == deps@[i as int]@);
        r.push(t);
        i += 1;
    }
    assert(r.deep_view() =~= all);
    r
}

/// An empty line, a heading, and lines that are set in.
pub open spec fn block(heading: Seq<char>, tone: Tone, texts: Seq<Seq<char>>) -> Seq<
    Seq<SpanView>,
> {
    seq![seq![], seq![plain(heading)]] + listed_lines(plain("  "@), tone, texts)
}

fn push_block(lines: &mut Vec<Vec<Span>>, heading: &str, tone: Tone, texts: &Vec<String>)
    ensures
        final(lines).deep_view() == old(lines).deep_view() + block(
            heading@,
            tone,
            texts.deep_view(),
        ),
{
    let ghost before = lines.deep_view();
    push_line(lines, new_line());
    push_line(lines, line_of(Tone::Plain, heading));
    push_lines(lines, list_texts(Tone::Plain, "  ", tone, texts));
    assert(lines.deep_view() =~= before + block(heading@, tone, texts.deep_view()));
}

/// What is at the head of the details of an issue.
pub open spec fn detail_head(i: IssueView) -> Seq<Seq<SpanView>> {
    seq![
        seq![toned(Tone::CyanBold, i.id), plain(" "@), toned(Tone::Bold, i.title)],
        seq![],
        seq![plain("Status:   "@), toned(state_tone(i.status), i.status.name())],
        seq![
            plain("Priority: "@),
            plain("P"@ + decimal(i.priority as nat) + " ("@ + priority_name(i.priority) + ")"@),
        ],
        seq![plain("Type:     "@), toned(Tone::Blue, i.issue_type.name())],
        seq![plain("Created:  "@), plain(formatted(i.created_at, "%Y-%m-%d %H:%M"@))],
        seq![plain("Updated:  "@), plain(formatted(i.updated_at, "%Y-%m-%d %H:%M"@))],
    ]
}

/// The details of an issue.
pub open spec fn detail_lines(i: IssueView) -> Seq<Seq<SpanView>> {
    detail_head(i) + (match i.description {
        Some(d) => block("Description:"@, Tone::Plain, lines_of(d)),
        None => seq![],
    }) + (if i.dependencies.len() > 0 {
        block("Dependencies:"@, Tone::Yellow, dependency_texts(i.dependencies))
    } else {
        seq![]
    }) + (if i.labels.len() > 0 {
        block("Labels:"@, Tone::Magenta, i.labels)
    } else {
        seq![]
    }) + (match i.assignee {
        Some(a) => seq![seq![], seq![plain("Assignee: "@), plain(a)]],
        None => seq![],
    })
}

fn make_detail_head(issue: &Issue) -> (r: Vec<Vec<Span>>)
    ensures
        r.deep_view() == detail_head(issue@),
{
    let mut r = no_lines();
    let mut title = line_of_two(Tone::CyanBold, &issue.id, Tone::Plain, " ");
    push_span(&mut title, Tone::Bold, &issue.title);
    assert(title.deep_view() =~= detail_head(issue@)[0]);
    push_line(&mut r, title);
    push_line(&mut r, new_line());
    push_line(
        &mut r,
        line_of_two(
            Tone::Plain,
            "Status:   ",
            tone_of_state(issue.status),
            issue.status.text(),
        ),
    );
    let mut p = concat("P", &decimal_text(issue.priority as u64));
    p.append(" (");
    p.append(priority_word(issue.priority));
    p.append(")");
    push_line(&mut r, line_of_two(Tone::Plain, "Priority: ", Tone::Plain, &p));
    push_line(
        &mut r,
        line_of_two(Tone::Plain, "Type:     ", Tone::Blue, issue.issue_type.text()),
    );
    push_line(
        &mut r,
        line_of_two(
            Tone::Plain,
            "Created:  ",
            Tone::Plain,
            &issue.created_at.format("%Y-%m-%d %H:%M"),
        ),
    );
    push_line(
        &mut r,
        line_of_two(
            Tone::Plain,
            "Updated:  ",
            Tone::Plain,
            &issue.updated_at.format("%Y-%m-%d %H:%M"),
        ),
    );
    assert(r.deep_view() =~= detail_head(issue@));
    r
}

fn make_details(issue: &Issue) -> (r: Vec<Vec<Span>>)
    ensures
        r.deep_view() == detail_lines(issue@),
{
    let mut r = make_detail_head(issue);
    let ghost none: Seq<Seq<SpanView>> = seq![];
    match &issue.description {
        Some(d) => push_block(&mut r, "Description:", Tone::Plain, &split_lines(d)),
        None => {
            assert(r.deep_view() + none =~= r.deep_view());
        },
    }
    assert(issue.dependencies@.len() == issue@.dependencies.len());
    if issue.dependencies.len() > 0 {
        push_block(
            &mut r,
            "Dependencies:",
            Tone::Yellow,
            &list_dependencies(&issue.dependencies),
        );
    } else {
        assert(r.deep_view() + none =~= r.deep_view());
    }
    assert(issue.labels@.len() == issue@.labels.len());
    if issue.labels.len() > 0 {
        push_block(&mut r, "Labels:", Tone::Magenta, &issue.labels);
    } else {
        assert(r.deep_view() + none =~= r.deep_view());
    }
    let ghost before = r.deep_view();
    match &issue.assignee {
        Some(a) => {
            push_line(&mut r, new_line());
            push_line(&mut r, line_of_two(Tone::Plain, "Assignee: ", Tone::Plain, a));
            assert(r.deep_view() =~= before + seq![
                seq![],
                seq![plain("Assignee: "@), plain(a@)],
            ]);
        },
        None => {
            assert(r.deep_view() + none =~= r.deep_view());
        },
    }
    r
}

/// What the right pane says of the issue at the cursor.
pub open spec fn right_pane(current: Option<IssueView>) -> Seq<Seq<SpanView>> {
    match current {
        Some(i) => detail_lines(i),
        None => seq![seq![plain("No issue selected"@)]],
    }
}

pub fn make_right_pane(app: &App) -> (r: Vec<Vec<Span>>)
    ensures
        r.deep_view() == right_pane(app@.current()),
{
    match app.current_issue() {
        Some(issue) => make_details(issue),
        None => {
            let mut r = no_lines();
            push_line(&mut r, line_of(Tone::Plain, "No issue selected"));
            assert(r.deep_view() =~= seq![seq![plain("No issue selected"@)]]);
            r
        },
    }
}

/// Every title of the list can be cut where it is too long.
pub open spec fn titles_fit(issues: Seq<IssueView>) -> bool {
    forall|i: int| 0 <= i < issues.len() ==> title_fits((#[trigger] issues[i]).title)
}

/// The rows of the list of issues.
pub open spec fn issue_rows(a: AppView) -> Seq<Seq<SpanView>> {
    Seq::new(
        a.filtered.len(),
        |i: int|
            issue_row(a.filtered[i], a.selection.selected.contains(i as usize), i == a.selection.index),
    )
}

pub fn make_issue_rows(app: &App) -> (r: Vec<Vec<Span>>)
    requires
        titles_fit(app@.filtered),
    ensures
        r.deep_view() == issue_rows(app@),
{
    let ghost all = issue_rows(app@);
    let mut r = no_lines();
    let mut i: usize = 0;
    assert(r.deep_view() =~= all.take(0));
    while i < app.filtered_issues.len()
        invariant
            i <= app.filtered_issues.len(),
            titles_fit(app@.filtered),
            all == issue_rows(app@),
            r.deep_view() == all.take(i as int),
        decreases app.filtered_issues.len() - i,
    {
        assert(app@.filtered[i as int] == app.filtered_issues@[i as int]@);
        let row = make_issue_row(
            &app.filtered_issues[i],
            app.selection.is_selected(i),
            i == app.selection.index,
        );
        push_line(&mut r, row);
        i += 1;
        assert(r.deep_view() =~= all.take(i as int));
    }
    assert(all.take(all.len() as int) =~= all);
    r
}

// --------------------------------------------------------------------- sessions

/// The name of a session, where it has one other than its id.
pub open spec fn session_name(s: SessionSummaryView) -> Option<Seq<char>> {
    match s.session_name {
        Some(n) => if trimmed(n).len() == 0 || trimmed(n) == s.session_id {
            None
        } else {
            Some(trimmed(n))
        },
        None => None,
    }
}

pub fn session_name_display(s: &SessionSummary) -> (r: Option<String>)
    ensures
        r.deep_view() == session_name(s.deep_view()),
{
    match &s.session_name {
        Some(n) => {
            let t = trim(n);
            if t.as_str().is_empty() || same_text(&t, &s.session_id) {
                None
            } else {
                Some(t)
            }
        },
        None => None,
    }
}

/// A long id can be cut near both ends.
pub open spec fn id_cuts(id: Seq<char>) -> bool {
    byte_len(id) > 18 ==> cuts_at(id, 8) && cuts_at(id, byte_len(id) - 6)
}

/// An id in short: eight bytes of its start and six of its end.
pub open spec fn short_id(id: Seq<char>) -> Seq<char> {
    if byte_len(id) > 18 {
        head_bytes(id, 8) + "…"@ + tail_bytes(id, byte_len(id) - 6)
    } else {
        id
    }
}

pub fn short_session_id(id: &str) -> (r: String)
    requires
        id_cuts(id@),
    ensures
        r@ == short_id(id@),
{
    let n = byte_length(id);
    if n > 18 {
        let mut r = concat(&first_bytes(id, 8), "…");
        r.append(&bytes_from(id, n - 6));
        r
    } else {
        id.to_owned()
    }
}

/// The id can be cut where it stands for a missing name.
pub open spec fn title_cuts(s: SessionSummaryView) -> bool {
    session_name(s) is None ==> id_cuts(s.session_id)
}

/// What a session is called in the list.
pub open spec fn session_title(s: SessionSummaryView) -> Seq<char> {
    match session_name(s) {
        Some(n) => n,
        None => if s.session_id == "-"@ {
            "Unattributed events"@
        } else {
            short_id(s.session_id)
        },
    }
}

pub fn session_display_name(s: &SessionSummary) -> (r: String)
    requires
        title_cuts(s.deep_view()),
    ensures
        r@ == session_title(s.deep_view()),
{
    match session_name_display(s) {
        Some(n) => n,
        None => if same_text(&s.session_id, "-") {
            "Unattributed events".to_owned()
        } else {
            short_session_id(&s.session_id)
        },
    }
}

/// A text, or another where it is missing or empty.
pub open spec fn filled_or(o: Option<Seq<char>>, other: Seq<char>) -> Seq<char> {
    match o {
        Some(v) => if v.len() == 0 {
            other
        } else {
            v
        },
        None => other,
    }
}

fn text_or(o: &Option<String>, other: &str) -> (r: String)
    ensures
        r@ == filled_or(o.deep_view(), other@),
{
    match o {
        Some(v) => if v.as_str().is_empty() {
            other.to_owned()
        } else {
            v.clone()
        },
        None => other.to_owned(),
    }
}

/// Who worked in a session, and with what.
pub open spec fn session_actor(s: SessionSummaryView) -> Seq<char> {
    filled_or(s.user_id, "unknown user"@) + " · "@ + filled_or(
        or_else(s.harness, s.platform),
        "unknown runtime"@,
    ) + " · "@ + filled_or(s.model, "unknown model"@)
}

pub fn session_actor_line(s: &SessionSummary) -> (r: String)
    ensures
        r@ == session_actor(s.deep_view()),
{
    let mut r = concat(&text_or(&s.user_id, "unknown user"), " · ");
    r.append(&text_or(first_some(&s.harness, &s.platform), "unknown runtime"));
    r.append(" · ");
    r.append(&text_or(&s.model, "unknown model"));
    r
}

/// How many events have an action.
pub open spec fn action_count(events: Seq<EventView>, a: EventAction) -> nat
    decreases events.len(),
{
    if events.len() == 0 {
        0
    } else {
        action_count(events.drop_last(), a) + if events.last().action == a {
            1nat
        } else {
            0nat
        }
    }
}

fn count_action(events: &Vec<&Event>, a: EventAction) -> (r: usize)
    ensures
        r == action_count(events.deep_view(), a),
{
    let ghost d = events.deep_view();
    let mut n: usize = 0;
    let mut i: usize = 0;
    assert(d.take(0) =~= seq![]);
    while i < events.len()
        invariant
            i <= events.len(),
            n <= i,
            d == events.deep_view(),
            n == action_count(d.take(i as int), a),
        decreases events.len() - i,
    {
        assert(d.take(i + 1).drop_last() =~= d.take(i as int));
        assert(d.take(i + 1).last() == events@[i as int]@);
        if events[i].action == a {
            n += 1;
        }
        i += 1;
    }
    assert(d.take(d.len() as int) =~= d);
    n
}

pub open spec fn count_part(word: Seq<char>, n: nat) -> Seq<Seq<char>> {
    if n > 0 {
        seq![word + decimal(n)]
    } else {
        seq![]
    }
}

fn push_count(parts: &mut Vec<String>, word: &str, n: usize)
    ensures
        final(parts).deep_view() == old(parts).deep_view() + count_part(word@, n as nat),
{
    let ghost before = parts.deep_view();
    if n > 0 {
        parts.push(concat(word, &decimal_text(n as u64)));
    }
    assert(parts.deep_view() =~= before + count_part(word@, n as nat));
}

pub open spec fn action_parts(events: Seq<EventView>) -> Seq<Seq<char>> {
    count_part("created "@, action_count(events, EventAction::Created)) + count_part(
        "updated "@,
        action_count(events, EventAction::Updated),
    ) + count_part("closed "@, action_count(events, EventAction::Closed)) + count_part(
        "reopened "@,
        action_count(events, EventAction::Reopened),
    )
}

/// What was done, in short.
pub open spec fn action_summary(events: Seq<EventView>) -> Seq<char> {
    if action_parts(events).len() == 0 {
        "activity"@
    } else {
        joined(action_parts(events), " · "@)
    }
}

pub fn session_action_summary(events: &Vec<&Event>) -> (r: String)
    ensures
        r@ == action_summary(events.deep_view()),
{
    let mut parts: Vec<String> = Vec::new();
    assert(parts.deep_view() =~= seq![]);
    push_count(&mut parts, "created ", count_action(events, EventAction::Created));
    push_count(&mut parts, "updated ", count_action(events, EventAction::Updated));
    push_count(&mut parts, "closed ", count_action(events, EventAction::Closed));
    push_count(&mut parts, "reopened ", count_action(events, EventAction::Reopened));
    assert(parts.deep_view() =~= action_parts(events.deep_view()));
    assert(parts@.len() == parts.deep_view().len());
    if parts.len() == 0 {
        "activity".to_owned()
    } else {
        join(&parts, " · ")
    }
}

/// The tone of a session's name.
pub open spec fn session_tone(s: SessionSummaryView) -> Tone {
    if s.session_id == "-"@ {
        Tone::YellowBold
    } else {
        Tone::CyanBold
    }
}

fn tone_of_session(s: &SessionSummary) -> (r: Tone)
    ensures
        r == session_tone(s.deep_view()),
{
    if same_text(&s.session_id, "-") {
        Tone::YellowBold
    } else {
        Tone::CyanBold
    }
}

/// A session in the list: three lines.
pub open spec fn session_item(
    s: SessionSummaryView,
    own: Seq<EventView>,
    cursor: bool,
) -> Seq<Seq<SpanView>> {
    seq![
        seq![
            plain(
                if cursor {
                    "> "@
                } else {
                    "  "@
                },
            ),
            toned(session_tone(s), session_title(s)),
            plain("  "@),
            toned(Tone::Yellow, decimal(s.event_count) + " evt"@),
            plain("  "@),
            toned(Tone::Magenta, decimal(s.issue_ids.len()) + " issues"@),
        ],
        seq![plain("  "@), toned(Tone::Dim, session_actor(s))],
        seq![
            plain("  "@),
            toned(
                Tone::Dim,
                formatted(s.first_at, "%b %d %H:%M"@) + " → "@ + formatted(s.last_at, "%H:%M"@)
                    + "   "@ + action_summary(own) + "   id: "@ + short_id(s.session_id),
            ),
        ],
    ]
}

fn make_session_item(s: &SessionSummary, own: &Vec<&Event>, cursor: bool) -> (r: Vec<Vec<Span>>)
    requires
        id_cuts(s.session_id@),
    ensures
        r.deep_view() == session_item(s.deep_view(), own.deep_view(), cursor),
{
    let ghost all = session_item(s.deep_view(), own.deep_view(), cursor);
    let mut r = no_lines();
    let mut head = new_line();
    push_span(
        &mut head,
        Tone::Plain,
        if cursor {
            "> "
        } else {
            "  "
        },
    );
    push_span(&mut head, tone_of_session(s), &session_display_name(s));
    push_span(&mut head, Tone::Plain, "  ");
    push_span(&mut head, Tone::Yellow, &concat(&decimal_text(s.event_count as u64), " evt"));
    push_span(&mut head, Tone::Plain, "  ");
    push_span(&mut head, Tone::Magenta, &concat(&decimal_text(s.issue_ids.len() as u64), " issues"));
    assert(head.deep_view() =~= all[0]);
    push_line(&mut r, head);
    push_line(&mut r, line_of_two(Tone::Plain, "  ", Tone::Dim, &session_actor_line(s)));
    let mut range = s.first_at.format("%b %d %H:%M");
    range.append(" → ");
    range.append(&s.last_at.format("%H:%M"));
    range.append("   ");
    range.append(&session_action_summary(own));
    range.append("   id: ");
    range.append(&short_session_id(&s.session_id));
    push_line(&mut r, line_of_two(Tone::Plain, "  ", Tone::Dim, &range));
    assert(r.deep_view() =~= all);
    r
}

/// Every id of a session can be cut where it is too long.
pub open spec fn ids_cut(sessions: Seq<SessionSummaryView>) -> bool {
    forall|i: int| 0 <= i < sessions.len() ==> id_cuts((#[trigger] sessions[i]).session_id)
}

/// The events of a session.
pub open spec fn own_events(events: Seq<EventView>, id: Seq<char>) -> Seq<EventView> {
    events.filter(|e: EventView| group_id(e) == id)
}

/// The items of the list of sessions.
pub open spec fn session_items(a: AppView) -> Seq<Seq<Seq<SpanView>>> {
    Seq::new(
        a.sessions.len(),
        |i: int|
            session_item(
                a.sessions[i],
                own_events(a.events, a.sessions[i].session_id),
                i == a.session_selection.index,
            ),
    )
}

pub fn make_session_items(app: &App) -> (r: Vec<Vec<Vec<Span>>>)
    requires
        ids_cut(app@.sessions),
    ensures
        r.deep_view() == session_items(app@),
{
    let ghost all = session_items(app@);
    let mut r: Vec<Vec<Vec<Span>>> = Vec::new();
    let mut i: usize = 0;
    assert(r.deep_view() =~= all.take(0));
    while i < app.sessions.len()
        invariant
            i <= app.sessions.len(),
            ids_cut(app@.sessions),
            all == session_items(app@),
            r.deep_view() == all.take(i as int),
        decreases app.sessions.len() - i,
    {
        let s = &app.sessions[i];
        assert(app@.sessions[i as int] == app.sessions@[i as int].deep_view());
        let own = app.events_of(&s.session_id);
        let item = make_session_item(s, &own, i == app.session_selection.index);
        let ghost iv = item.deep_view();
        let ghost before = r.deep_view();
        r.push(item);
        assert(r.deep_view() =~= before.push(iv));
        i += 1;
        assert(r.deep_view() =~= all.take(i as int));
    }
    assert(all.take(all.len() as int) =~= all);
    r
}

// --------------------------------------------------------------------- activity

/// The tone of an action in a timeline.
pub open spec fn timeline_tone(a: EventAction) -> Tone {
    match a {
        EventAction::Created => Tone::GreenBold,
        EventAction::Closed => Tone::BlueBold,
        EventAction::Reopened => Tone::YellowBold,
        EventAction::Deleted => Tone::RedBold,
        EventAction::Restored => Tone::GreenBold,
        EventAction::DepAdded => Tone::MagentaBold,
        EventAction::DepRemoved => Tone::MagentaBold,
        EventAction::SessionLinked => Tone::CyanBold,
        EventAction::VerificationAdded => Tone::CyanBold,
        EventAction::Updated => Tone::WhiteBold,
    }
}

pub fn action_color(a: EventAction) -> (r: Tone)
    ensures
        r == timeline_tone(a),
{
    match a {
        EventAction::Created => Tone::GreenBold,
        EventAction::Closed => Tone::BlueBold,
        EventAction::Reopened => Tone::YellowBold,
        EventAction::Deleted => Tone::RedBold,
        EventAction::Restored => Tone::GreenBold,
        EventAction::DepAdded => Tone::MagentaBold,
        EventAction::DepRemoved => Tone::MagentaBold,
        EventAction::SessionLinked => Tone::CyanBold,
        EventAction::VerificationAdded => Tone::CyanBold,
        EventAction::Updated => Tone::WhiteBold,
    }
}

/// The context of an event below it: in full, or in one line where there is any.
pub open spec fn context_lines(e: EventView, verbose: bool) -> Seq<Seq<SpanView>> {
    if verbose {
        listed_lines(plain("    "@), Tone::Dim, ctx_fields(e))
    } else if ctx_parts(e).len() > 0 {
        seq![seq![plain("    "@), toned(Tone::Dim, "["@ + joined(ctx_parts(e), " · "@) + "]"@)]]
    } else {
        seq![]
    }
}

/// An event in a timeline.
pub open spec fn event_lines(e: EventView, verbose: bool) -> Seq<Seq<SpanView>> {
    seq![
        seq![
            toned(Tone::Dim, formatted(e.timestamp, "%Y-%m-%d %H:%M:%S"@)),
            plain("  "@),
            toned(timeline_tone(e.action), padded_right(e.action.name(), 10)),
            plain(" "@),
            toned(Tone::Cyan, e.issue_id),
        ],
    ] + (match e.note {
        Some(n) => seq![seq![toned(Tone::Dim, "    › "@), plain(n)]],
        None => seq![],
    }) + listed_lines(toned(Tone::Dim, "    · "@), Tone::Dim, change_texts(e.changes))
        + context_lines(e, verbose)
}

pub fn render_event_lines(e: &Event, verbose: bool) -> (r: Vec<Vec<Span>>)
    ensures
        r.deep_view() == event_lines(e@, verbose),
{
    let ghost none: Seq<Seq<SpanView>> = seq![];
    let mut r = no_lines();
    let mut head = new_line();
    push_span(&mut head, Tone::Dim, &e.timestamp.format("%Y-%m-%d %H:%M:%S"));
    push_span(&mut head, Tone::Plain, "  ");
    push_span(&mut head, action_color(e.action), &pad_right(e.action.text(), 10));
    push_span(&mut head, Tone::Plain, " ");
    push_span(&mut head, Tone::Cyan, &e.issue_id);
    let ghost hv = seq![
        toned(Tone::Dim, formatted(e@.timestamp, "%Y-%m-%d %H:%M:%S"@)),
        plain("  "@),
        toned(timeline_tone(e@.action), padded_right(e@.action.name(), 10)),
        plain(" "@),
        toned(Tone::Cyan, e@.issue_id),
    ];
    assert(head.deep_view() =~= hv);
    push_line(&mut r, head);
    assert(r.deep_view() =~= seq![hv]);
    match &e.note {
        Some(n) => {
            push_line(&mut r, line_of_two(Tone::Dim, "    › ", Tone::Plain, n));
            assert(r.deep_view() =~= seq![hv] + seq![
                seq![toned(Tone::Dim, "    › "@), plain(n@)],
            ]);
        },
        None => {
            assert(r.deep_view() + none =~= r.deep_view());
        },
    }
    push_lines(&mut r, list_texts(Tone::Dim, "    · ", Tone::Dim, &format_changes(&e.changes)));
    let ghost before = r.deep_view();
    if verbose {
        push_lines(&mut r, list_texts(Tone::Plain, "    ", Tone::Dim, &agent_ctx_verbose(e)));
    } else {
        match agent_ctx_line(e) {
            Some(ctx) => {
                let mut t = concat("[", &ctx);
                t.append("]");
                push_line(&mut r, line_of_two(Tone::Plain, "    ", Tone::Dim, &t));
                assert(r.deep_view() =~= before + context_lines(e@, verbose));
            },
            None => {
                assert(r.deep_view() + none =~= r.deep_view());
            },
        }
    }
    r
}

/// Some events in a timeline, each with an empty line behind it.
pub open spec fn timeline_lines(events: Seq<EventView>, verbose: bool) -> Seq<Seq<SpanView>>
    decreases events.len(),
{
    if events.len() == 0 {
        seq![]
    } else {
        timeline_lines(events.drop_last(), verbose) + event_lines(events.last(), verbose) + seq![
            seq![],
        ]
    }
}

/// A timeline, or a word where it is empty.
pub open spec fn timeline_or(events: Seq<EventView>, verbose: bool, word: Seq<char>) -> Seq<
    Seq<SpanView>,
> {
    if events.len() == 0 {
        seq![seq![toned(Tone::Dim, word)]]
    } else {
        timeline_lines(events, verbose)
    }
}

fn make_timeline(events: &Vec<&Event>, verbose: bool, word: &str) -> (r: Vec<Vec<Span>>)
    ensures
        r.deep_view() == timeline_or(events.deep_view(), verbose, word@),
{
    let ghost d = events.deep_view();
    let mut r = no_lines();
    assert(d.len() == events@.len());
    if events.len() == 0 {
        push_line(&mut r, line_of(Tone::Dim, word));
        assert(r.deep_view() =~= timeline_or(d, verbose, word@));
        return r;
    }
    let mut i: usize = 0;
    assert(d.take(0) =~= seq![]);
    while i < events.len()
        invariant
            i <= events.len(),
            d == events.deep_view(),
            r.deep_view() == timeline_lines(d.take(i as int), verbose),
        decreases events.len() - i,
    {
        assert(d.take(i + 1).drop_last() =~= d.take(i as int));
        assert(d.take(i + 1).last() == events@[i as int]@);
        push_lines(&mut r, render_event_lines(events[i], verbose));
        let ghost before = r.deep_view();
        push_line(&mut r, new_line());
        assert(r.deep_view() =~= before + seq![Seq::<SpanView>::empty()]);
        i += 1;
    }
    assert(d.take(d.len() as int) =~= d);
    r
}

/// At most this many of the issues that a session touched are named.
pub const TOUCHED_SHOWN: usize = 8;

/// The title of an issue, where the store has it.
pub open spec fn known_title(entries: Seq<IssueView>, id: Seq<char>) -> Seq<char> {
    match lookup(entries, id) {
        Some(i) => i.title,
        None => "issue not in current store"@,
    }
}

pub open spec fn touched_line(entries: Seq<IssueView>, id: Seq<char>) -> Seq<SpanView> {
    seq![plain("  • "@), toned(Tone::Cyan, id), plain("  "@), plain(known_title(entries, id))]
}

/// The issues that a session touched.
pub open spec fn touched_lines(entries: Seq<IssueView>, ids: Seq<Seq<char>>) -> Seq<
    Seq<SpanView>,
> {
    if ids.len() > TOUCHED_SHOWN {
        Seq::new(TOUCHED_SHOWN as nat, |i: int| touched_line(entries, ids[i])).push(
            seq![toned(Tone::Dim, "  … "@ + decimal((ids.len() - TOUCHED_SHOWN) as nat) + " more"@)],
        )
    } else {
        Seq::new(ids.len(), |i: int| touched_line(entries, ids[i]))
    }
}

fn make_touched(app: &App, ids: &Vec<String>) -> (r: Vec<Vec<Span>>)
    ensures
        r.deep_view() == touched_lines(app@.entries, ids.deep_view()),
{
    let ghost d = ids.deep_view();
    let ghost all = touched_lines(app@.entries, d);
    let shown: usize = if ids.len() > TOUCHED_SHOWN {
        TOUCHED_SHOWN
    } else {
        ids.len()
    };
    let mut r = no_lines();
    let mut i: usize = 0;
    assert(r.deep_view() =~= all.take(0));
    while i < shown
        invariant
            i <= shown <= ids.len(),
            shown <= TOUCHED_SHOWN,
            shown < ids.len() ==> shown == TOUCHED_SHOWN,
            d == ids.deep_view(),
            all == touched_lines(app@.entries, d),
            r.deep_view() == all.take(i as int),
        decreases shown - i,
    {
        assert(d[i as int] == ids@[i as int]@);
        let mut line = line_of_two(Tone::Plain, "  • ", Tone::Cyan, &ids[i]);
        push_span(&mut line, Tone::Plain, "  ");
        match app.store.get(&ids[i]) {
            Some(issue) => push_span(&mut line, Tone::Plain, &issue.title),
            None => push_span(&mut line, Tone::Plain, "issue not in current store"),
        }
        assert(line.deep_view() =~= touched_line(app@.entries, d[i as int]));
        push_line(&mut r, line);
        i += 1;
        assert(r.deep_view() =~= all.take(i as int));
    }
    if ids.len() > TOUCHED_SHOWN {
        let mut t = concat("  … ", &decimal_text((ids.len() - TOUCHED_SHOWN) as u64));
        t.append(" more");
        push_line(&mut r, line_of(Tone::Dim, &t));
    }
    assert(r.deep_view() =~= all);
    r
}

/// What is said of a session above its timeline.
pub open spec fn session_head(
    s: SessionSummaryView,
    own: Seq<EventView>,
    entries: Seq<IssueView>,
) -> Seq<Seq<SpanView>> {
    seq![
        seq![toned(session_tone(s), session_title(s))],
        seq![toned(Tone::Dim, session_actor(s))],
        seq![
            toned(
                Tone::Dim,
                formatted(s.first_at, "%Y-%m-%d %H:%M"@) + " → "@ + formatted(
                    s.last_at,
                    "%Y-%m-%d %H:%M"@,
                ) + "   "@ + decimal(s.event_count) + " events · "@ + decimal(s.issue_ids.len())
                    + " issues"@,
            ),
        ],
        seq![toned(Tone::Bold, "Summary: "@), toned(Tone::Dim, action_summary(own))],
        seq![toned(Tone::Dim, "session id: "@), toned(Tone::Dim, s.session_id)],
    ] + (if s.session_id == "-"@ {
        seq![
            seq![
                toned(
                    Tone::Yellow,
                    "These events predate AGENT_CTX session tagging or came from tools without session metadata."@,
                ),
            ],
        ]
    } else {
        seq![]
    }) + seq![seq![], seq![toned(Tone::Bold, "Touched issues"@)]] + touched_lines(
        entries,
        s.issue_ids,
    ) + seq![seq![], seq![toned(Tone::Bold, "Timeline"@)]]
}

fn make_session_head(app: &App, s: &SessionSummary, own: &Vec<&Event>) -> (r: Vec<Vec<Span>>)
    requires
        title_cuts(s.deep_view()),
    ensures
        r.deep_view() == session_head(s.deep_view(), own.deep_view(), app@.entries),
{
    let ghost sv = s.deep_view();
    let mut r = no_lines();
    push_line(&mut r, line_of(tone_of_session(s), &session_display_name(s)));
    push_line(&mut r, line_of(Tone::Dim, &session_actor_line(s)));
    let mut range = s.first_at.format("%Y-%m-%d %H:%M");
    range.append(" → ");
    range.append(&s.last_at.format("%Y-%m-%d %H:%M"));
    range.append("   ");
    range.append(&decimal_text(s.event_count as u64));
    range.append(" events · ");
    range.append(&decimal_text(s.issue_ids.len() as u64));
    range.append(" issues");
    push_line(&mut r, line_of(Tone::Dim, &range));
    push_line(
        &mut r,
        line_of_two(Tone::Bold, "Summary: ", Tone::Dim, &session_action_summary(own)),
    );
    push_line(&mut r, line_of_two(Tone::Dim, "session id: ", Tone::Dim, &s.session_id));
    let ghost first = r.deep_view();
    if same_text(&s.session_id, "-") {
        push_line(
            &mut r,
            line_of(
                Tone::Yellow,
                "These events predate AGENT_CTX session tagging or came from tools without session metadata.",
            ),
        );
    }
    push_line(&mut r, new_line());
    push_line(&mut r, line_of(Tone::Bold, "Touched issues"));
    push_lines(&mut r, make_touched(app, &s.issue_ids));
    push_line(&mut r, new_line());
    push_line(&mut r, line_of(Tone::Bold, "Timeline"));
    assert(r.deep_view() =~= session_head(sv, own.deep_view(), app@.entries));
    r
}

/// The sign that the view follows the log.
pub open spec fn follow_mark(title: Seq<char>, follow: bool) -> Seq<char> {
    if follow {
        title + "  ● follow"@
    } else {
        title
    }
}

/// A title with the sign that the view follows the log.
pub fn mark_follow(title: &str, follow: bool) -> (r: String)
    ensures
        r@ == follow_mark(title@, follow),
{
    if follow {
        concat(title, "  ● follow")
    } else {
        title.to_owned()
    }
}

/// The title of the activity pane.
pub open spec fn activity_title(a: AppView) -> Seq<char> {
    follow_mark(
        match a.middle {
            MiddleView::Issues => match a.current() {
                Some(i) => "Activity — "@ + i.id + " ("@ + decimal(a.issue_events().len())
                    + " events)"@,
                None => "Activity"@,
            },
            MiddleView::Sessions => match a.current_group() {
                Some(s) => "Session — "@ + session_title(s) + " ("@ + decimal(
                    a.session_events().len(),
                ) + " events)"@,
                None => "Session"@,
            },
        },
        a.follow,
    )
}

/// The lines of the activity pane.
pub open spec fn activity_lines(a: AppView) -> Seq<Seq<SpanView>> {
    match a.middle {
        MiddleView::Issues => (match a.current() {
            Some(i) => seq![seq![toned(Tone::CyanBold, i.id), plain("  "@), plain(i.title)], seq![]],
            None => seq![],
        }) + timeline_or(a.issue_events(), a.verbose, "No events for this issue."@),
        MiddleView::Sessions => (match a.current_group() {
            Some(s) => session_head(s, a.session_events(), a.entries),
            None => seq![],
        }) + timeline_or(a.session_events(), a.verbose, "No events for this session."@),
    }
}

/// The activity pane. Of the ids only that of the chosen session is cut, and only where the
/// pane shows sessions and that one has no name.
pub fn make_activity_pane(app: &App) -> (r: (String, Vec<Vec<Span>>))
    requires
        app@.middle == MiddleView::Sessions ==> match app@.current_group() {
            Some(s) => title_cuts(s),
            None => true,
        },
    ensures
        r.0@ == activity_title(app@),
        r.1.deep_view() == activity_lines(app@),
{
    let mut lines = no_lines();
    let title: String;
    match app.middle_view {
        MiddleView::Issues => {
            let events = app.events_for_selected_issue();
            assert(events@.len() == events.deep_view().len());
            match app.current_issue() {
                Some(issue) => {
                    let mut t = concat("Activity — ", &issue.id);
                    t.append(" (");
                    t.append(&decimal_text(events.len() as u64));
                    t.append(" events)");
                    title = t;
                    let mut head = line_of_two(Tone::CyanBold, &issue.id, Tone::Plain, "  ");
                    push_span(&mut head, Tone::Plain, &issue.title);
                    assert(head.deep_view() =~= seq![
                        toned(Tone::CyanBold, issue@.id),
                        plain("  "@),
                        plain(issue@.title),
                    ]);
                    push_line(&mut lines, head);
                    push_line(&mut lines, new_line());
                    assert(lines.deep_view() =~= seq![
                        seq![toned(Tone::CyanBold, issue@.id), plain("  "@), plain(issue@.title)],
                        seq![],
                    ]);
                },
                None => {
                    title = "Activity".to_owned();
                },
            }
            push_lines(
                &mut lines,
                make_timeline(&events, app.verbose_ctx, "No events for this issue."),
            );
        },
        MiddleView::Sessions => {
            let events = app.events_for_selected_session();
            assert(events@.len() == events.deep_view().len());
            match app.current_session() {
                Some(s) => {
                    let mut t = concat("Session — ", &session_display_name(s));
                    t.append(" (");
                    t.append(&decimal_text(events.len() as u64));
                    t.append(" events)");
                    title = t;
                    lines = make_session_head(app, s, &events);
                },
                None => {
                    title = "Session".to_owned();
                },
            }
            push_lines(
                &mut lines,
                make_timeline(&events, app.verbose_ctx, "No events for this session."),
            );
        },
    }
    (mark_follow(&title, app.follow), lines)
}

// ------------------------------------------------------------------------- laws

/// Law: the list has a row for each issue on the screen with its id, priority, type, state and
/// title. The cursor is in the row of the issue that it is on, and every other row tells
/// whether it is marked.
pub proof fn rows_show_the_issues_on_the_screen(a: AppView, k: int)
    requires
        0 <= k < a.filtered.len(),
        k <= usize::MAX,
    ensures
        ({
            let i = a.filtered[k];
            let row = issue_rows(a)[k];
            &&& issue_rows(a).len() == a.filtered.len()
            &&& row[1].text == i.id
            &&& row[3].text == "[P"@ + decimal(i.priority as nat) + "] "@
            &&& row[4].text == "["@ + i.issue_type.name() + "] "@
            &&& row[5].text == i.status.name() + " "@
            &&& byte_len(i.title) <= 50 ==> row[6].text == i.title
            &&& row[0].text == "> "@ <==> k == a.selection.index
            &&& k != a.selection.index ==> (row[0].text == "[*] "@
                <==> a.selection.selected.contains(k as usize))
        }),
{
    reveal_strlit("> ");
    reveal_strlit("[*] ");
    reveal_strlit("[ ] ");
    assert("> "@[0] == '>' && "[*] "@[0] == '[' && "[ ] "@[0] == '[');
    assert("[*] "@[1] == '*' && "[ ] "@[1] == ' ');
}

/// One of the lines holds that text as a piece of its own.
pub open spec fn shows_text(lines: Seq<Seq<SpanView>>, text: Seq<char>) -> bool {
    exists|l: Seq<SpanView>| #[trigger] lines.contains(l) && says(l, text)
}

proof fn lemma_shows_more(
    a: Seq<Seq<SpanView>>,
    b: Seq<Seq<SpanView>>,
    text: Seq<char>,
)
    ensures
        shows_text(a, text) ==> shows_text(a + b, text),
        shows_text(b, text) ==> shows_text(a + b, text),
{
    if shows_text(a, text) {
        let l = choose|l: Seq<SpanView>| #[trigger] a.contains(l) && says(l, text);
        crate::filter::chained_lists_hold_both(a, b, l);
        assert((a + b).contains(l));
    }
    if shows_text(b, text) {
        let l = choose|l: Seq<SpanView>| #[trigger] b.contains(l) && says(l, text);
        crate::filter::chained_lists_hold_both(a, b, l);
        assert((a + b).contains(l));
    }
}

proof fn lemma_block_shows(heading: Seq<char>, tone: Tone, texts: Seq<Seq<char>>, k: int)
    requires
        0 <= k < texts.len(),
    ensures
        shows_text(block(heading, tone, texts), texts[k]),
{
    let r = block(heading, tone, texts);
    let l = r[2 + k];
    assert(l == listed_lines(plain("  "@), tone, texts)[k]);
    assert(l[1].text == texts[k]);
    assert(r.contains(l));
}

proof fn lemma_details_show(i: IssueView, text: Seq<char>)
    ensures
        ({
            let about = match i.description {
                Some(d) => block("Description:"@, Tone::Plain, lines_of(d)),
                None => seq![],
            };
            let deps = if i.dependencies.len() > 0 {
                block("Dependencies:"@, Tone::Yellow, dependency_texts(i.dependencies))
            } else {
                seq![]
            };
            let labels = if i.labels.len() > 0 {
                block("Labels:"@, Tone::Magenta, i.labels)
            } else {
                seq![]
            };
            let who: Seq<Seq<SpanView>> = match i.assignee {
                Some(a) => seq![seq![], seq![plain("Assignee: "@), plain(a)]],
                None => seq![],
            };
            shows_text(detail_head(i), text) || shows_text(about, text) || shows_text(deps, text)
                || shows_text(labels, text) || shows_text(who, text) ==> shows_text(
                detail_lines(i),
                text,
            )
        }),
{
    let head = detail_head(i);
    let about = match i.description {
        Some(d) => block("Description:"@, Tone::Plain, lines_of(d)),
        None => seq![],
    };
    let deps = if i.dependencies.len() > 0 {
        block("Dependencies:"@, Tone::Yellow, dependency_texts(i.dependencies))
    } else {
        seq![]
    };
    let labels = if i.labels.len() > 0 {
        block("Labels:"@, Tone::Magenta, i.labels)
    } else {
        seq![]
    };
    let who: Seq<Seq<SpanView>> = match i.assignee {
        Some(a) => seq![seq![], seq![plain("Assignee: "@), plain(a)]],
        None => seq![],
    };
    lemma_shows_more(head, about, text);
    lemma_shows_more(head + about, deps, text);
    lemma_shows_more(head + about + deps, labels, text);
    lemma_shows_more(head + about + deps + labels, who, text);
}

/// Law: the details of an issue show its id and title, state, priority, type and dates, every
/// line of its description, every label, every dependency, and who it is assigned to.
pub proof fn details_show_the_issue(i: IssueView, k: int)
    ensures
        ({
            let r = detail_lines(i);
            &&& shows_text(r, i.id)
            &&& shows_text(r, i.title)
            &&& shows_text(r, i.status.name())
            &&& shows_text(r, i.issue_type.name())
            &&& shows_text(
                r,
                "P"@ + decimal(i.priority as nat) + " ("@ + priority_name(i.priority) + ")"@,
            )
            &&& shows_text(r, formatted(i.created_at, "%Y-%m-%d %H:%M"@))
            &&& shows_text(r, formatted(i.updated_at, "%Y-%m-%d %H:%M"@))
            &&& i.description is Some && 0 <= k < lines_of(i.description->0).len() ==> shows_text(
                r,
                lines_of(i.description->0)[k],
            )
            &&& 0 <= k < i.labels.len() ==> shows_text(r, i.labels[k])
            &&& 0 <= k < i.dependencies.len() ==> shows_text(
                r,
                i.dependencies[k].issue_id + " -> "@ + i.dependencies[k].depends_on_id + " ("@
                    + i.dependencies[k].dep_type.name() + ")"@,
            )
            &&& i.assignee is Some ==> shows_text(r, i.assignee->0)
        }),
{
    let h = detail_head(i);
    assert(h[0][0].text == i.id && h[0][2].text == i.title);
    assert(h[2][1].text == i.status.name());
    assert(h[3][1].text == "P"@ + decimal(i.priority as nat) + " ("@ + priority_name(i.priority)
        + ")"@);
    assert(h[4][1].text == i.issue_type.name());
    assert(h[5][1].text == formatted(i.created_at, "%Y-%m-%d %H:%M"@));
    assert(h[6][1].text == formatted(i.updated_at, "%Y-%m-%d %H:%M"@));
    assert(h.contains(h[0]) && h.contains(h[2]) && h.contains(h[3]) && h.contains(h[4])
        && h.contains(h[5]) && h.contains(h[6]));
    lemma_details_show(i, i.id);
    lemma_details_show(i, i.title);
    lemma_details_show(i, i.status.name());
    lemma_details_show(i, i.issue_type.name());
    lemma_details_show(i, h[3][1].text);
    lemma_details_show(i, h[5][1].text);
    lemma_details_show(i, h[6][1].text);
    if i.description is Some && 0 <= k < lines_of(i.description->0).len() {
        let texts = lines_of(i.description->0);
        lemma_block_shows("Description:"@, Tone::Plain, texts, k);
        lemma_details_show(i, texts[k]);
    }
    if 0 <= k < i.labels.len() {
        lemma_block_shows("Labels:"@, Tone::Magenta, i.labels, k);
        lemma_details_show(i, i.labels[k]);
    }
    if 0 <= k < i.dependencies.len() {
        let texts = dependency_texts(i.dependencies);
        lemma_block_shows("Dependencies:"@, Tone::Yellow, texts, k);
        lemma_details_show(i, texts[k]);
    }
    if i.assignee is Some {
        let who: Seq<Seq<SpanView>> = seq![
            seq![],
            seq![plain("Assignee: "@), plain(i.assignee->0)],
        ];
        assert(who[1][1].text == i.assignee->0);
        assert(who.contains(who[1]));
        lemma_details_show(i, i.assignee->0);
    }
}

/// Law: an action is counted as often as it occurs.
pub proof fn actions_are_counted(events: Seq<EventView>, a: EventAction)
    ensures
        action_count(events, a) == events.filter(|e: EventView| e.action == a).len(),
    decreases events.len(),
{
    reveal(Seq::filter);
    if events.len() > 0 {
        actions_are_counted(events.drop_last(), a);
    }
}

/// Law: a session is called by its name, without the space round it. Where it has none, or only
/// its id for one, it is called by its id.
pub proof fn sessions_are_called_by_their_name(s: SessionSummaryView)
    ensures
        s.session_name is Some && trimmed(s.session_name->0).len() > 0 && trimmed(s.session_name->0)
            != s.session_id ==> session_title(s) == trimmed(s.session_name->0),
        s.session_name is None && s.session_id != "-"@ && byte_len(s.session_id) <= 18
            ==> session_title(s) == s.session_id,
        s.session_name is None && s.session_id == "-"@ ==> session_title(s)
            == "Unattributed events"@,
{
}

/// Law: a session tells its user, its harness, or else its platform, and its model.
pub proof fn sessions_tell_who_worked(s: SessionSummaryView, user: Seq<char>, with: Seq<char>, model: Seq<char>)
    requires
        user.len() > 0,
        with.len() > 0,
        model.len() > 0,
        s.user_id == Some(user),
        s.model == Some(model),
        s.harness == Some(with) || (s.harness is None && s.platform == Some(with)),
    ensures
        session_actor(s) == user + " · "@ + with + " · "@ + model,
{
}

proof fn lemma_timeline_head(e: EventView, verbose: bool, c: int)
    ensures
        ({
            let r = event_lines(e, verbose);
            &&& r.len() > 0
            &&& heads_event(r[0], e)
            &&& e.note is Some ==> shows_text(r, e.note->0)
            &&& 0 <= c < e.changes.len() ==> shows_text(
                r,
                crate::render::field_change_text(e.changes[c]),
            )
        }),
{
    let r = event_lines(e, verbose);
    assert(r[0][0].text == formatted(e.timestamp, "%Y-%m-%d %H:%M:%S"@));
    assert(r[0][2].text == padded_right(e.action.name(), 10));
    assert(r[0][4].text == e.issue_id);
    let n: int = if e.note is Some {
        2
    } else {
        1
    };
    if e.note is Some {
        assert(r[1][1].text == e.note->0);
        assert(r.contains(r[1]));
    }
    if 0 <= c < e.changes.len() {
        let texts = change_texts(e.changes);
        let l = listed_lines(toned(Tone::Dim, "    · "@), Tone::Dim, texts)[c];
        assert(r[n + c] == l);
        assert(l[1].text == texts[c]);
        assert(r.contains(l));
    }
}

/// Law: a timeline tells each of its events: when it was, what was done and on which issue, its
/// note, and every change.
pub proof fn timelines_tell_every_event(events: Seq<EventView>, verbose: bool, k: int, c: int)
    requires
        0 <= k < events.len(),
    ensures
        exists|l: Seq<SpanView>| #[trigger]
            timeline_lines(events, verbose).contains(l) && heads_event(l, events[k]),
        events[k].note is Some ==> shows_text(timeline_lines(events, verbose), events[k].note->0),
        0 <= c < events[k].changes.len() ==> shows_text(
            timeline_lines(events, verbose),
            crate::render::field_change_text(events[k].changes[c]),
        ),
    decreases events.len(),
{
    let front = events.drop_last();
    let before = timeline_lines(front, verbose);
    let more = event_lines(events.last(), verbose);
    let tail = seq![Seq::<SpanView>::empty()];
    let all = timeline_lines(events, verbose);
    assert(all =~= before + more + tail);
    let e = events[k];
    if k < front.len() {
        timelines_tell_every_event(front, verbose, k, c);
        assert(front[k] == e);
        let l = choose|l: Seq<SpanView>| #[trigger] before.contains(l) && heads_event(l, front[k]);
        crate::filter::chained_lists_hold_both(before, more, l);
        crate::filter::chained_lists_hold_both(before + more, tail, l);
        assert(all.contains(l));
    } else {
        lemma_timeline_head(e, verbose, c);
        let l = more[0];
        assert(more.contains(l));
        crate::filter::chained_lists_hold_both(before, more, l);
        crate::filter::chained_lists_hold_both(before + more, tail, l);
        assert(all.contains(l));
    }
    if e.note is Some {
        lemma_shows_more(before, more, e.note->0);
        lemma_shows_more(before + more, tail, e.note->0);
    }
    if 0 <= c < e.changes.len() {
        let text = crate::render::field_change_text(e.changes[c]);
        lemma_shows_more(before, more, text);
        lemma_shows_more(before + more, tail, text);
    }
}

/// Law: beside the list of issues, the activity tells every event of the log on the issue at the
/// cursor.
pub proof fn activity_tells_the_events_of_the_issue(a: AppView, e: EventView)
    requires
        a.middle == MiddleView::Issues,
        0 <= a.selection.index < a.filtered.len(),
        a.events.contains(e),
        e.issue_id == a.filtered[a.selection.index].id,
    ensures
        exists|l: Seq<SpanView>| #[trigger]
            activity_lines(a).contains(l) && heads_event(l, e),
{
    let own = a.issue_events();
    crate::tui::activity_is_that_of_the_chosen(a, e);
    let k = choose|k: int| 0 <= k < own.len() && own[k] == e;
    timelines_tell_every_event(own, a.verbose, k, 0);
    let lines = timeline_lines(own, a.verbose);
    let l = choose|l: Seq<SpanView>| #[trigger] lines.contains(l) && heads_event(l, own[k]);
    let i = a.filtered[a.selection.index];
    let head: Seq<Seq<SpanView>> = seq![
        seq![toned(Tone::CyanBold, i.id), plain("  "@), plain(i.title)],
        seq![],
    ];
    crate::filter::chained_lists_hold_both(head, lines, l);
    assert(activity_lines(a) =~= head + lines);
    assert(activity_lines(a).contains(l));
}

/// Law: the list of sessions has an item for each session with its name and its numbers of
/// events and issues. The cursor is at the one that is chosen.
pub proof fn items_show_the_sessions(a: AppView, k: int)
    requires
        0 <= k < a.sessions.len(),
    ensures
        ({
            let s = a.sessions[k];
            let item = session_items(a)[k];
            &&& session_items(a).len() == a.sessions.len()
            &&& item[0][1].text == session_title(s)
            &&& item[0][3].text == decimal(s.event_count) + " evt"@
            &&& item[0][5].text == decimal(s.issue_ids.len()) + " issues"@
            &&& item[1][1].text == session_actor(s)
            &&& item[0][0].text == "> "@ <==> k == a.session_selection.index
        }),
{
    reveal_strlit("> ");
    reveal_strlit("  ");
    assert("> "@[0] == '>' && "  "@[0] == ' ');
}

/// Law: the right pane shows the details of the issue at the cursor.
pub proof fn right_pane_shows_the_issue_at_the_cursor(a: AppView)
    ensures
        0 <= a.selection.index < a.filtered.len() ==> shows_text(
            right_pane(a.current()),
            a.filtered[a.selection.index].title,
        ) && shows_text(right_pane(a.current()), a.filtered[a.selection.index].id),
        !(0 <= a.selection.index < a.filtered.len()) ==> right_pane(a.current()).len() == 1,
{
    if 0 <= a.selection.index < a.filtered.len() {
        details_show_the_issue(a.filtered[a.selection.index], 0);
    }
}

} // verus!
