//! The interactive view.
use trx::agent_ctx::AgentCtx;
use trx::dashboard::{
    count_board, dashboard_title, make_board_sessions, make_breakdown, make_heatmap, make_tail,
};
use trx::editing::{
    add_note, append_entry, description_template, edited_description, edited_note, editor_command,
    note_template, read_editor_body, DescriptionEdit,
};
use trx::events::{Event, EventAction};
use trx::form::{drop_last_char, parse_key_action, FormField, IssueForm, Key, KeyAction};
use trx::issue::{Issue, IssueType, Status};
use trx::overlays::{
    choose_panes, make_filter_overlay, make_issue_form, make_status_bar, make_view_bar,
    make_which_key, Panes, ViewCounts,
};
use trx::panes::{
    make_activity_pane, make_issue_rows, make_right_pane, make_session_items, render_event_lines,
    session_display_name, session_name_display, short_session_id,
};
use trx::selection::SelectionState;
use trx::store::{Store, Stored};
use trx::style::Span;
use trx::time::Timestamp;
use trx::tui::{App, AppMode, DetailView, Effect, FilterState, MiddleView, WhichKeyContext};
use trx::Error;

const T: i64 = 1_767_323_045;

fn at(secs: i64) -> Timestamp {
    Timestamp::new(secs, 0).unwrap()
}

fn issues() -> Vec<Issue> {
    let mut v = vec![];
    for (n, title, priority) in [(1, "alpha", 2u8), (2, "beta", 0), (3, "gamma", 1)] {
        let mut i = Issue::new_at(format!("trx-{n}"), title.into(), at(T + n));
        i.priority = priority;
        v.push(i);
    }
    v[2].issue_type = IssueType::Epic;
    v[1].assignee = Some("ann".into());
    v
}

fn app() -> App {
    let store = Store::open_at("/r".into(), true, Stored::Log(issues())).ok().unwrap();
    App::new(store, 0)
}

fn events() -> Vec<Event> {
    let ctx = AgentCtx {
        user_id: Some("ann".into()),
        harness: Some("cli".into()),
        session_name: Some("night".into()),
        harness_session_id: Some("s1".into()),
        ..Default::default()
    };
    let none = AgentCtx::default();
    vec![
        Event::with_identity("e2".into(), "trx-2", EventAction::Closed, &none, at(T + 500)),
        Event::with_identity("e1".into(), "trx-2", EventAction::Created, &ctx, at(T + 100))
            .with_note("first"),
    ]
}

fn line(spans: &[Span]) -> String {
    spans.iter().map(|s| s.text.as_str()).collect()
}

fn lines(v: &[Vec<Span>]) -> Vec<String> {
    v.iter().map(|l| line(l)).collect()
}

fn shown(a: &App) -> Vec<String> {
    a.filtered_issues.iter().map(|i| i.id.clone()).collect()
}

fn press(a: &mut App, c: char) -> Effect {
    a.handle_key_action(KeyAction::Char(c), 0)
}

#[test]
fn the_list_is_by_priority() {
    let a = app();
    assert_eq!(shown(&a), vec!["trx-2", "trx-3", "trx-1"]);
    assert_eq!(a.status_message.as_deref(), Some("Showing 3 issues"));
    assert_eq!(a.current_issue().unwrap().id, "trx-2");
}

#[test]
fn keys_become_actions() {
    assert_eq!(parse_key_action(Key::Char('c'), true), KeyAction::Quit);
    assert_eq!(parse_key_action(Key::Char('j'), false), KeyAction::Down);
    assert_eq!(parse_key_action(Key::Char('d'), true), KeyAction::PageDown);
    assert_eq!(parse_key_action(Key::Char(' '), false), KeyAction::ToggleSelect);
    assert_eq!(parse_key_action(Key::Char('x'), false), KeyAction::Char('x'));
    assert_eq!(parse_key_action(Key::Other, false), KeyAction::Noop);
}

#[test]
fn the_cursor_stays_in_the_list() {
    let mut s = SelectionState::new();
    s.next(3, 20);
    s.next(3, 20);
    s.next(3, 20);
    assert_eq!(s.index, 2);
    s.previous();
    assert_eq!(s.index, 1);
    s.top();
    assert_eq!(s.index, 0);
    s.bottom(3, 2);
    assert_eq!((s.index, s.offset), (2, 1));
    s.toggle_selection();
    assert!(s.is_selected(2));
    s.toggle_selection();
    assert!(!s.is_selected(2));
    s.select_all(3);
    assert_eq!(s.selected_count(), 3);
    s.clamp_to(1);
    assert_eq!(s.index, 0);
}

#[test]
fn moving_and_quitting() {
    let mut a = app();
    assert_eq!(a.handle_key_action(KeyAction::Down, 0), Effect::Idle);
    assert_eq!(a.current_issue().unwrap().id, "trx-3");
    assert_eq!(a.handle_key_action(parse_key_action(Key::Char(' '), false), 0), Effect::Idle);
    assert!(a.selection.is_selected(1));
    assert_eq!(a.current_issue().unwrap().id, "trx-1");
    press(&mut a, 'G');
    assert_eq!(a.current_issue().unwrap().id, "trx-1");
    press(&mut a, 'g');
    press(&mut a, 'g');
    assert_eq!(a.current_issue().unwrap().id, "trx-2");
    assert_eq!(press(&mut a, 'q'), Effect::Quit);
}

#[test]
fn searching_narrows_the_list() {
    let mut a = app();
    press(&mut a, '/');
    assert_eq!(a.mode, AppMode::Search);
    press(&mut a, 'A');
    press(&mut a, 'L');
    assert_eq!(shown(&a), vec!["trx-1"]);
    a.handle_key_action(KeyAction::Backspace, 0);
    assert_eq!(shown(&a).len(), 3);
    a.handle_key_action(KeyAction::Escape, 0);
    assert_eq!(a.mode, AppMode::Normal);
}

#[test]
fn sorting_and_filters() {
    let mut a = app();
    press(&mut a, 's');
    press(&mut a, '2');
    assert_eq!(shown(&a), vec!["trx-3", "trx-2", "trx-1"]);
    assert_eq!(a.mode, AppMode::Normal);
    press(&mut a, 'f');
    press(&mut a, 'E');
    assert_eq!(shown(&a), vec!["trx-2", "trx-1"]);
    press(&mut a, 'E');
    assert_eq!(shown(&a).len(), 3);
    press(&mut a, 'o');
    assert!(shown(&a).is_empty());
    press(&mut a, 'r');
    assert_eq!(shown(&a).len(), 3);
    assert_eq!(a.status_message.as_deref(), Some("Filters reset"));
    press(&mut a, 'p');
    assert_eq!(a.mode, AppMode::WhichKey(WhichKeyContext::Priority));
    press(&mut a, '1');
    assert_eq!(shown(&a), vec!["trx-2"]);
    assert_eq!(a.status_message.as_deref(), Some("Filtered to P0"));
}

#[test]
fn blocked_view_shows_nothing() {
    let mut f = FilterState::new();
    assert!(f.matches(&issues()[0], ""));
    assert!(f.matches(&issues()[0], "ALPHA"));
    assert!(!f.matches(&issues()[0], "beta"));
    f.enabled_labels = vec!["ui".into()];
    assert!(!f.matches(&issues()[0], ""));
    let mut f = FilterState::new();
    f.show_blocked = true;
    assert!(!f.matches(&issues()[0], ""));
}

#[test]
fn states_are_changed_through_effects() {
    let mut a = app();
    assert_eq!(press(&mut a, '2'), Effect::SetStatus(Status::InProgress));
    let written = a
        .change_issue_status(Stored::Log(issues()), Status::InProgress, at(T + 50))
        .unwrap()
        .ok()
        .unwrap();
    assert_eq!(written[0].status, Status::InProgress);
    assert_eq!(written[0].updated_at, at(T + 50));
    a.finish_status_change(Status::InProgress, 5);
    assert_eq!(a.status_message.as_deref(), Some("Issue status changed to in_progress"));
    assert_eq!(press(&mut a, 'c'), Effect::Close);
    let closed = a.close_issue(Stored::Log(issues()), at(T + 60)).unwrap().ok().unwrap();
    assert_eq!(closed[0].status, Status::Closed);
    a.finish_close(6);
    assert_eq!(shown(&a), vec!["trx-3", "trx-1"]);
}

#[test]
fn issues_are_entered_in_the_form() {
    let mut a = app();
    press(&mut a, 'a');
    assert_eq!(a.handle_key_action(KeyAction::Enter, 0), Effect::Idle);
    assert_eq!(a.status_message.as_deref(), Some("Title cannot be empty"));
    for c in "New".chars() {
        press(&mut a, c);
    }
    a.handle_key_action(KeyAction::Tab, 0);
    assert_eq!(a.issue_form.selected_field, FormField::Description);
    assert_eq!(a.handle_key_action(KeyAction::Enter, 0), Effect::Create);
    let lines = a.create_issue(Stored::Log(issues()), "trx-9".into(), at(T + 9)).ok().unwrap();
    assert_eq!(lines[0].title, "New");
    a.finish_create(7);
    assert_eq!(a.mode, AppMode::Normal);
    assert_eq!(shown(&a).len(), 4);
    assert!(matches!(
        a.create_issue(Stored::Log(issues()), "trx-1".into(), at(T)),
        Err(Error::AlreadyExists(_))
    ));
}

#[test]
fn issues_are_edited_in_the_form() {
    let mut a = app();
    press(&mut a, 'e');
    assert_eq!(a.issue_form.title, "beta");
    a.handle_key_action(KeyAction::Backspace, 0);
    assert_eq!(a.handle_key_action(KeyAction::Enter, 0), Effect::Update);
    let lines = a.update_issue(Stored::Log(issues()), at(T + 9)).unwrap().ok().unwrap();
    assert_eq!(lines[0].title, "bet");
    a.finish_update(true, 8);
    assert_eq!(a.status_message.as_deref(), Some("Issue updated"));
    assert_eq!(drop_last_char("ab"), "a");
    let f = IssueForm::from_issue(&issues()[0]);
    assert_eq!(f.apply_to(&issues()[0], at(T)).title, "alpha");
}

#[test]
fn messages_go_after_three_seconds() {
    let mut a = app();
    assert_eq!(a.on_tick(3000), Effect::Idle);
    assert!(a.status_message.is_some());
    a.on_tick(3001);
    assert!(a.status_message.is_none());
}

#[test]
fn following_reads_at_every_eighth_tick() {
    let mut a = app();
    press(&mut a, 'F');
    assert_eq!(a.status_message.as_deref(), Some("Follow: ON"));
    for _ in 0..7 {
        assert_eq!(a.on_tick(0), Effect::Idle);
    }
    assert_eq!(a.on_tick(0), Effect::Follow);
    a.finish_follow(Ok(events()), 0);
    assert_eq!(a.events.len(), 2);
    a.finish_refresh(Err("gone".into()), 0);
    assert_eq!(a.status_message.as_deref(), Some("Refreshed"));
    a.reload_events(Err("gone".into()), 0);
    assert_eq!(a.status_message.as_deref(), Some("event log error: gone"));
}

/// An id that is too long, and that cannot be cut after eight bytes.
const UNCUT: &str = "1234567é0123456789abcdef";

#[test]
fn activity_needs_only_the_id_that_it_cuts() {
    let named = AgentCtx {
        session_name: Some("night".into()),
        harness_session_id: Some(UNCUT.into()),
        ..Default::default()
    };
    let mut a = app();
    a.reload_events(
        Ok(vec![
            Event::with_identity("e2".into(), "trx-2", EventAction::Closed, &named, at(T + 500)),
            Event::with_identity(
                "e1".into(),
                "trx-2",
                EventAction::Created,
                &AgentCtx { session_name: None, ..named.clone() },
                at(T + 100),
            ),
        ]),
        0,
    );
    press(&mut a, 'T');
    assert_eq!(make_activity_pane(&a).0, "Activity — trx-2 (2 events)");
    press(&mut a, 'S');
    assert_eq!(session_display_name(&a.sessions[0]), "night");
    assert_eq!(make_activity_pane(&a).0, "Session — night (2 events)");
}

#[test]
fn sessions_and_activity_are_shown() {
    let mut a = app();
    a.reload_events(Ok(events()), 0);
    let ids: Vec<&str> = a.sessions.iter().map(|s| s.session_id.as_str()).collect();
    assert_eq!(ids, vec!["-", "s1"]);
    assert_eq!(a.events_for_selected_issue().len(), 2);
    press(&mut a, 'T');
    assert_eq!(a.detail_view, DetailView::Activity);
    let (title, body) = make_activity_pane(&a);
    assert_eq!(title, "Activity — trx-2 (2 events)");
    let body = lines(&body);
    assert_eq!(body[0], "trx-2  beta");
    assert_eq!(body[2], "2026-01-02 03:05:45  created    trx-2");
    assert_eq!(body[3], "    › first");
    assert_eq!(body[4], "    [cli · night]");
    press(&mut a, 'S');
    assert_eq!(a.middle_view, MiddleView::Sessions);
    assert_eq!(a.events_for_selected_session().len(), 1);
    assert_eq!(session_display_name(&a.sessions[0]), "Unattributed events");
    assert_eq!(session_name_display(&a.sessions[1]).as_deref(), Some("night"));
    let items = make_session_items(&a);
    assert_eq!(line(&items[0][0]), "> Unattributed events  1 evt  1 issues");
    assert_eq!(line(&items[1][1]), "  ann · cli · unknown model");
    assert_eq!(line(&items[1][2]), "  Jan 02 03:05 → 03:05   created 1   id: s1");
    let (title, body) = make_activity_pane(&a);
    assert_eq!(title, "Session — Unattributed events (1 events)");
    assert!(lines(&body).contains(&"  • trx-2  beta".to_string()));
    assert_eq!(short_session_id("0123456789abcdefghij"), "01234567…efghij");
    assert_eq!(short_session_id("short"), "short");
    assert_eq!(render_event_lines(&a.events[0], true).len(), 6);
}

#[test]
fn rows_and_details_are_shown() {
    let a = app();
    let rows = lines(&make_issue_rows(&a));
    assert_eq!(rows[0], "> trx-2 [P0] [task] open beta");
    assert_eq!(rows[1], "[ ] trx-3 [P1] [epic] open gamma");
    let details = lines(&make_right_pane(&a));
    assert_eq!(details[0], "trx-2 beta");
    assert_eq!(details[3], "Priority: P0 (Critical)");
    assert_eq!(details[5], "Created:  2026-01-02 03:04");
    assert_eq!(details.last().unwrap(), "Assignee: ann");
}

#[test]
fn bars_and_overlays_are_shown() {
    let a = app();
    let counts = ViewCounts::from_app(&a, at(T + 100));
    assert_eq!(
        counts,
        ViewCounts { ready: 3, open: 3, blocked: 0, mine: 1, recent: 3, epics: 1 }
    );
    assert_eq!(ViewCounts::from_app(&a, at(T + 9 * 86_400)).recent, 0);
    assert!(line(&make_view_bar(&a, &counts)).starts_with("  r:Ready 3  │  o:Open 3 "));
    assert_eq!(line(&make_status_bar(&a)), "[NORMAL] | Showing 3 issues");
    assert_eq!(lines(&make_filter_overlay(&a.filter_state))[3], "  [o] [x] Open");
    assert_eq!(lines(&make_filter_overlay(&a.filter_state))[6], "  [c] [ ] Show Closed");
    assert_eq!(lines(&make_issue_form(&a.issue_form, "Add Issue"))[4], "Priority: P2 (↑/↓ to change)");
    assert!(line(&make_which_key(WhichKeyContext::Labels)).starts_with("[Label Filter] "));
    assert_eq!(choose_panes(&a, 80), Panes::Details);
    assert_eq!(choose_panes(&a, 100), Panes::Both(50));
    assert_eq!(choose_panes(&a, 200), Panes::Both(72));
}

#[test]
fn the_dashboard_is_shown() {
    let mut a = app();
    a.reload_events(Ok(events()), 0);
    press(&mut a, 'D');
    assert_eq!(a.mode, AppMode::Dashboard);
    assert_eq!(dashboard_title(&a), "Dashboard (2 events)");
    let today = T / 86_400;
    let heat = lines(&make_heatmap(&a, today));
    assert_eq!(heat.len(), 10);
    assert!(heat[5].starts_with("Fri  ") && heat[5].ends_with("▒ "));
    let counts = count_board(&a.events);
    let bars = lines(&make_breakdown(&counts, &vec![18, 18], &vec![18, 18]));
    assert_eq!(bars[0], "By action");
    assert_eq!(bars[1], format!("  closed   {} 1", "█".repeat(18)));
    let sessions = lines(&make_board_sessions(&a, &vec![6, 6]));
    assert_eq!(sessions[0], "-  ▰▰▰▰▰▰▱▱▱▱▱▱    1");
    assert_eq!(lines(&make_tail(&a, 12))[0], "01-02 03:05:45  created   trx-2  first");
    assert_eq!(make_tail(&a, 3).len(), 1);
    press(&mut a, 'q');
    assert_eq!(a.mode, AppMode::Normal);
}

#[test]
fn descriptions_and_notes_are_edited_outside() {
    let mut a = app();
    assert_eq!(press(&mut a, 'E'), Effect::EditDescription);
    let issue = issues().remove(1);
    assert!(description_template(&issue).starts_with("# Edit description for trx-2 — beta\n#"));
    assert_eq!(read_editor_body("# remark\n\ntext\n  # more\nend\n"), "text\nend");
    let edit = edited_description(&issue, "# r\nhello \n");
    match edit {
        DescriptionEdit::Change(d) => {
            assert_eq!(d.as_deref(), Some("hello"));
            let fresh = Store::open_at("/r".into(), true, Stored::Log(issues())).ok().unwrap();
            let written = a
                .apply_description(&issue, d, fresh, Stored::Log(issues()), at(T + 70), 0)
                .unwrap()
                .ok()
                .unwrap();
            assert_eq!(written[0].description.as_deref(), Some("hello"));
            assert_eq!(a.status_message.as_deref(), Some("Updated description for trx-2"));
        }
        DescriptionEdit::Unchanged => panic!("the description was changed"),
    }
    assert!(matches!(edited_description(&issue, "# r\n \n"), DescriptionEdit::Unchanged));

    assert_eq!(press(&mut a, 'N'), Effect::AddNote);
    assert!(note_template(&issue).starts_with("# Add note to trx-2 — beta\n#"));
    assert_eq!(edited_note("# r\n\n"), None);
    assert_eq!(edited_note("# r\n note \n").as_deref(), Some("note"));
    let noted = add_note(&issue, "note", at(T));
    assert_eq!(noted.notes.as_deref(), Some("2026-01-02 03:04 UTC:\nnote"));
    assert_eq!(append_entry(&Some("old \n".into()), "new".into()), "old\n\nnew");
    let fresh = Store::open_at("/r".into(), true, Stored::Log(vec![])).ok().unwrap();
    assert!(a.apply_note(&issue, "n", fresh, Stored::Log(vec![]), at(T), 0).is_none());
    assert_eq!(a.status_message.as_deref(), Some("trx-2 no longer exists"));
}

#[test]
fn the_editor_is_taken_from_the_environment() {
    assert_eq!(editor_command(None, None), vec!["vi"]);
    assert_eq!(editor_command(Some("code -w".into()), Some("nano".into())), vec!["code", "-w"]);
    assert_eq!(editor_command(Some("  ".into()), None), vec!["vi"]);
}

#[test]
fn nothing_is_edited_where_nothing_is_selected() {
    let store = Store::open_at("/r".into(), true, Stored::Log(vec![])).ok().unwrap();
    let mut a = App::new(store, 0);
    assert_eq!(press(&mut a, 'E'), Effect::Idle);
    assert_eq!(a.status_message.as_deref(), Some("No issue selected"));
    assert!(a.close_issue(Stored::Log(vec![]), at(T)).is_none());
    assert_eq!(lines(&make_right_pane(&a)), vec!["No issue selected"]);
}
