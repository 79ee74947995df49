//! What is shown: feeds, charts, lists, settings and messages.
use trx::agent_ctx::AgentCtx;
use trx::calendar::{calendar_rows, check_weeks, count_days, month_line, monday_of, Place};
use trx::charts::{
    heatmap_heading, make_heatmap_legend, make_heatmap_totals, make_stats, make_swimlane_legend,
    print_bar_breakdown, swimlane_heading,
};
use trx::config::{config_get, plain_value, Config};
use trx::events::{Event, EventAction, FieldChange, FieldValue};
use trx::issue::{Issue, Status};
use trx::json::Json;
use trx::messages::{
    after_commit, after_stage, is_yes, make_info, make_launch_lines, make_pending_lines,
    make_status_lines, GitOutput, StoreInfo, SyncStep,
};
use trx::query::SortKey;
use trx::render::{
    agent_ctx_line, agent_ctx_verbose, colored_action, format_change, print_event_line, render_feed,
    render_grouped, render_log_event, render_sessions, value_text,
};
use trx::report::{count_issues, make_list, show};
use trx::service::ServiceStatus;
use trx::stats::{bar_len, bucket_counts, max_count, rank, sparkline, Bucket};
use trx::store::{Store, Stored};
use trx::style::Span;
use trx::swimlane::{
    action_glyph, action_priority, check_window, columns, label_width, make_axis, make_lane_line,
    pick_lanes, swimlane_grid, term_width, Tick,
};
use trx::time::Timestamp;
use trx::timeline::{
    events_of_session, filter_events, list_sessions, summarize_sessions, EventQuery,
};
use trx::Error;

/// 2026-01-02T03:04:05Z, a Friday.
const T: i64 = 1_767_323_045;

fn at(secs: i64) -> Timestamp {
    Timestamp::new(secs, 0).unwrap()
}

fn event(issue: &str, action: EventAction, secs: i64, session: Option<&str>) -> Event {
    let ctx = AgentCtx {
        user_id: Some("ann".into()),
        harness: Some("cli".into()),
        harness_session_id: session.map(String::from),
        ..Default::default()
    };
    Event::with_identity(format!("evt_{secs}"), issue, action, &ctx, at(secs))
}

fn log() -> Vec<Event> {
    vec![
        event("trx-1", EventAction::Created, T, Some("s1")),
        event("trx-1", EventAction::Updated, T + 60, Some("s1")).with_note("a note"),
        event("trx-2", EventAction::Created, T + 120, Some("s2")),
        event("trx-1", EventAction::Closed, T + 86_400, None),
    ]
}

fn line(spans: &[Span]) -> String {
    spans.iter().map(|s| s.text.as_str()).collect()
}

fn lines(v: &[Vec<Span>]) -> Vec<String> {
    v.iter().map(|l| line(l)).collect()
}

// ---- feeds

#[test]
fn values_are_shown_as_json() {
    assert_eq!(value_text(&FieldValue::Text("a\"b".into())), "\"a\\\"b\"");
    assert_eq!(
        value_text(&FieldValue::Text("\\ \n\r\t\u{8}\u{c}\u{1}\u{1f}\u{7f}é/".into())),
        "\"\\\\ \\n\\r\\t\\b\\f\\u0001\\u001f\u{7f}é/\""
    );
    assert_eq!(value_text(&FieldValue::Number(3)), "3");
    assert_eq!(value_text(&FieldValue::Null), "null");
    assert_eq!(
        value_text(&FieldValue::List(vec!["a".into(), "b".into()])),
        "[\"a\",\"b\"]"
    );
}

#[test]
fn changes_show_both_sides() {
    let c = FieldChange {
        field: "priority".into(),
        from: Some(FieldValue::Number(2)),
        to: Some(FieldValue::Number(1)),
    };
    assert_eq!(format_change(&c), "priority: 2 → 1");
    let c = FieldChange { field: "assignee".into(), from: None, to: Some(FieldValue::Text("ann".into())) };
    assert_eq!(format_change(&c), "assignee: ∅ → \"ann\"");
}

#[test]
fn events_are_shown_with_time_and_action() {
    let e = event("trx-1", EventAction::Created, T, Some("s1"));
    let l = line(&print_event_line(&e));
    assert!(l.contains("2026-01-02 03:04"));
    assert!(l.contains("created"));
    assert!(l.contains("trx-1"));
    let feed = lines(&render_log_event(&log()[1], true));
    assert_eq!(feed[0], "  2026-01-02 03:05:05  updated    trx-1");
    assert_eq!(feed[1], "    › a note");
    assert!(feed.iter().any(|l| l == "    user:      ann"));
    let short = lines(&render_log_event(&log()[1], false));
    assert_eq!(short[2], "    [cli]");
    assert_eq!(short.len(), 3);
    let mut bare = log().remove(1);
    bare.harness = None;
    assert_eq!(render_log_event(&bare, false).len(), 2);
}

#[test]
fn actions_look_the_same_in_every_list() {
    for a in [EventAction::Created, EventAction::DepAdded, EventAction::SessionLinked] {
        let e = event("trx-1", a, T, None);
        let line = print_event_line(&e);
        let shown = line.iter().find(|p| p.text == a.text()).unwrap();
        assert_eq!(shown.tone, colored_action(a));
    }
}

#[test]
fn contexts_are_shown_in_short_and_in_full() {
    let mut e = event("trx-1", EventAction::Created, T, Some("s1"));
    e.session_name = Some("night".into());
    e.model = Some("m".into());
    assert_eq!(agent_ctx_line(&e).as_deref(), Some("cli · night · m"));
    assert!(agent_ctx_verbose(&e).contains(&"harn_sid:  s1".to_string()));
}

#[test]
fn events_are_filtered_newest_first() {
    let q = EventQuery { issue: Some("trx-1".into()), ..EventQuery::everything() };
    let r = filter_events(log(), &q);
    let times: Vec<i64> = r.iter().map(|e| e.timestamp.secs()).collect();
    assert_eq!(times, vec![T + 86_400, T + 60, T]);
    let q = EventQuery { session: Some("s2".into()), ..EventQuery::everything() };
    assert_eq!(filter_events(log(), &q).len(), 1);
    let q = EventQuery { limit: Some(1), ..EventQuery::everything() };
    assert_eq!(filter_events(log(), &q)[0].action, EventAction::Closed);
    let q = EventQuery { since: Some(at(T + 60)), until: Some(at(T + 120)), ..EventQuery::everything() };
    assert_eq!(filter_events(log(), &q).len(), 2);
}

#[test]
fn sessions_are_summed_up_newest_first() {
    let s = summarize_sessions(&log());
    let ids: Vec<&str> = s.iter().map(|x| x.session_id.as_str()).collect();
    assert_eq!(ids, vec!["-", "s2", "s1"]);
    assert_eq!(s[2].event_count, 2);
    assert_eq!(s[2].first_at, at(T));
    assert_eq!(s[2].last_at, at(T + 60));
    assert_eq!(s[2].issue_ids, vec!["trx-1"]);
    let total: usize = s.iter().map(|x| x.event_count).sum();
    assert_eq!(total, 4);
    assert_eq!(events_of_session(&log(), "s1").len(), 2);
    let grouped = lines(&render_grouped(&log(), false));
    assert!(grouped.len() > 4);
    assert_eq!(render_sessions(&s).len(), 6);
    assert_eq!(list_sessions(&log(), Some(1))[0].session_id, "-");
    let all = log();
    let refs: Vec<&Event> = all.iter().collect();
    assert!(render_feed(&refs, false).len() >= 4);
}

// ---- charts

#[test]
fn buckets_count_by_day() {
    let b = bucket_counts(&log(), Bucket::Day, at(T), at(T + 2 * 86_400));
    assert_eq!(b.counts, vec![3, 1, 0]);
    assert_eq!(b.labels, vec!["01-02", "01-03", "01-04"]);
    assert_eq!(b.counts.iter().sum::<usize>(), log().len());
    let most = bucket_counts(&log(), Bucket::Day, at(T), at(T + 399 * 86_400));
    assert_eq!(most.counts.len(), 400);
    assert_eq!(most.counts.iter().sum::<usize>(), log().len());
    assert_eq!(bucket_counts(&log(), Bucket::Day, at(T), at(T + 500 * 86_400)).counts.len(), 400);
    assert_eq!(max_count(&b.counts), 3);
    assert_eq!(sparkline(&vec![0, 7]).chars().last(), Some('█'));
    assert!(Bucket::parse("DAY").is_ok());
    assert!(matches!(Bucket::parse("year"), Err(Error::Other(m)) if m == "--by must be 'day' or 'hour'"));
}

#[test]
fn breakdowns_rank_their_keys() {
    let keys: Vec<String> = ["b", "a", "b", "c"].iter().map(|s| s.to_string()).collect();
    let r = rank(&keys);
    let order: Vec<(&str, usize)> = r.iter().map(|t| (t.key.as_str(), t.count)).collect();
    assert_eq!(order, vec![("b", 2), ("a", 1), ("c", 1)]);
    assert_eq!(bar_len(1, 2), 12);
    let l = lines(&print_bar_breakdown("By key", &keys));
    assert_eq!(l[0], "");
    assert_eq!(l[1], "By key:");
    assert_eq!(l[2], format!("  b     2  {}", "█".repeat(24)));
    assert_eq!(l[3], format!("  a     1  {}", "█".repeat(12)));
    assert!(print_bar_breakdown("By key", &vec![]).is_empty());
}

#[test]
fn statistics_name_events_and_sessions() {
    let b = bucket_counts(&log(), Bucket::Day, at(T), at(T + 86_400));
    let l = lines(&make_stats(&log(), at(T), None, Bucket::Day, &b));
    assert_eq!(l[0], "Events: 4 (since 2026-01-02)");
    assert_eq!(l[1], "Sessions: 2");
    assert_eq!(l[3], "Activity (per day):");
    assert!(l.contains(&"  peak: 3".to_string()));
    assert!(l.contains(&"By user:".to_string()));
}

#[test]
fn the_calendar_ends_today() {
    let today = T / 86_400;
    assert!(check_weeks(0).is_err() && check_weeks(105).is_err() && check_weeks(104).is_ok());
    // The Monday of that week is 2025-12-29.
    let first = monday_of(today, 1);
    assert_eq!(first, today - 4);
    let rows = calendar_rows(Place::Report, &log(), today, 1);
    assert_eq!(rows.len(), 7);
    assert_eq!(line(&rows[0]), "Mon   · ");
    assert_eq!(line(&rows[4]), "Fri   ▓ ");
    assert_eq!(line(&rows[5]), "Sat     ");
    let days = count_days(&log(), first);
    assert_eq!(days.len(), 2);
    assert_eq!((days[0].day, days[0].count), (today, 3));
    assert_eq!(
        make_heatmap_totals(&days, &log(), first),
        "4 events  ·  2 active days  ·  2 sessions"
    );
    // 2026-01-05 is the first Monday of January.
    assert_eq!(month_line(first, 2), "        Jan ");
    assert_eq!(
        line(&heatmap_heading(2, "a", "b")),
        "Activity heatmap (last 2 weeks · a → b)"
    );
    assert_eq!(line(&make_heatmap_legend()), "Legend  · 0   ▒ 1–2   ▓ 3–5   █ 6+");
}

#[test]
fn lanes_hold_the_weightiest_action() {
    let lanes = pick_lanes(&log(), 10);
    let ids: Vec<&str> = lanes.iter().map(|l| l.id.as_str()).collect();
    assert_eq!(ids, vec!["trx-1", "trx-2"]);
    assert_eq!(label_width(&lanes), 8);
    assert_eq!(columns(Some(5), 120, 8), 10);
    assert_eq!(columns(None, 120, 8), 108);
    let grid = swimlane_grid(&log(), &vec![0, 0, 3, 9], &lanes, 10);
    assert_eq!(grid[0][9], Some(EventAction::Closed));
    assert!(action_priority(EventAction::Created) > action_priority(EventAction::Updated));
    assert_eq!(grid[0][0], Some(EventAction::Created));
    assert_eq!(grid[1][3], Some(EventAction::Created));
    assert_eq!(grid[1][0], None);
    assert_eq!(action_glyph(EventAction::Created), "+");
    assert_eq!(action_glyph(EventAction::Restored), "·");
    assert_eq!(action_glyph(EventAction::DepRemoved), "◆");
    assert_eq!(line(&make_lane_line("trx-1", 8, &grid[0])), "trx-1     +········■");
    let ticks = vec![
        Tick { col: 0, label: "01-02".into() },
        Tick { col: 9, label: "01-03".into() },
    ];
    let (axis, marks) = make_axis(&ticks, 8, 10);
    assert_eq!(axis, "          01-0201-03");
    assert_eq!(marks, "          │        │");
    assert!(check_window(&at(2), &at(2)).is_err());
    assert_eq!(term_width("24 97\n", 120), 97);
    assert_eq!(term_width("nonsense", 120), 120);
    assert_eq!(
        line(&swimlane_heading(at(T), at(T + 86_400), 1, 10)),
        "Swimlane (2026-01-02 03:04 → 2026-01-03 03:04  ·  1 issue  ·  10 cols)"
    );
    assert!(line(&make_swimlane_legend()).starts_with("Legend  + created"));
}

// ---- issues

#[test]
fn issues_are_listed_and_shown() {
    let mut i = Issue::new_at("trx-1".into(), "A title".into(), at(T));
    i.description = Some("Some text".into());
    let store = Store::open_at("/r".into(), true, Stored::Log(vec![i.clone()])).ok().unwrap();
    let listed = lines(&make_list(&store.list(false), SortKey::Priority));
    assert!(listed[0].contains("trx-1") && listed[0].contains("A title"));
    let shown = lines(&show(&store, &i, vec![]));
    assert_eq!(shown[0], "trx-1 A title");
    assert_eq!(shown[3], "Priority: P2");
    assert_eq!(shown.last().unwrap(), "Some text");
    let n = count_issues(&store);
    assert_eq!((n.all, n.open, n.closed), (1, 1, 0));
    assert_eq!(i.status, Status::Open);
}

// ---- settings

#[test]
fn settings_are_made_one_at_a_time() {
    let mut c = Config::default();
    assert_eq!(c.prefix, "trx");
    assert!(c.config_set("prefix", "abc").is_ok());
    assert_eq!(c.prefix, "abc");
    assert!(c.config_set("default_priority", "1").is_ok());
    assert_eq!(c.default_priority, 1);
    assert!(c.config_set("display.max_title_length", "40").is_ok());
    assert_eq!(c.display.max_title_length, 40);
    assert!(c.config_set("git.auto_stage", "true").is_ok());
    assert!(c.git.auto_stage);
    let msg = |r: Result<(), Error>| match r {
        Err(Error::Other(m)) => m,
        _ => panic!("an error was expected"),
    };
    assert_eq!(msg(c.config_set("default_priority", "300")), "Invalid priority value: 300");
    assert_eq!(msg(c.config_set("auto_sync", "yes")), "Invalid boolean value: yes");
    assert_eq!(msg(c.config_set("display.max_title_length", "x")), "Invalid integer value: x");
    assert_eq!(msg(c.config_set("color", "x")), "Unknown config key: color");
    assert_eq!(c.default_priority, 1);
    let l = lines(&c.config_show());
    assert_eq!(l[2], "prefix = \"abc\"");
    assert!(l.contains(&"[git]".to_string()));
    assert!(l.contains(&"max_title_length = 40".to_string()));
}

#[test]
fn settings_are_found_by_their_path() {
    let j = Json::Obj(vec![
        ("prefix".into(), Json::Str("trx".into())),
        ("display".into(), Json::Obj(vec![("colors".into(), Json::Bool(true))])),
        ("editor".into(), Json::Null),
    ]);
    assert_eq!(
        plain_value(config_get(&j, "display.colors").ok().unwrap()).as_deref(),
        Some("true")
    );
    assert_eq!(plain_value(config_get(&j, "prefix").ok().unwrap()).as_deref(), Some("trx"));
    assert_eq!(plain_value(config_get(&j, "editor").ok().unwrap()).as_deref(), Some("null"));
    assert!(plain_value(config_get(&j, "display").ok().unwrap()).is_none());
    assert!(matches!(
        config_get(&j, "prefix.x"),
        Err(Error::Other(m)) if m == "Config key not found: prefix.x"
    ));
}

// ---- messages

#[test]
fn the_tracker_describes_itself() {
    let info = StoreInfo {
        path: "/r/.trx".into(),
        migrate_pending: true,
        issues: 3,
        open: 2,
        closed: 1,
        events: 7,
    };
    let l = lines(&make_info("0.6.0", &Some(info), &AgentCtx::default()));
    assert_eq!(l[0], "trx 0.6.0");
    assert_eq!(l[3], "  path     /r/.trx");
    assert!(l[5].contains("legacy CRDT layout detected"));
    assert_eq!(l[6], "  issues   3 (2 open, 1 closed)");
    assert_eq!(l[7], "  events   7");
    assert_eq!(l.last().unwrap(), "  · no AGENT_CTX_* variables set");
    let ctx = AgentCtx { user_id: Some("ann".into()), ..Default::default() };
    let l = lines(&make_info("0.6.0", &None, &ctx));
    assert_eq!(l[3], "  ! not initialized in this directory");
    assert_eq!(l.last().unwrap(), "  user_id              ann");
}

#[test]
fn the_service_is_described() {
    let running = ServiceStatus::Running { pid: 7, port: Some(80) };
    assert_eq!(
        lines(&make_status_lines(&running)),
        vec!["Service is running", "  PID: 7", "  Port: 80"]
    );
    assert_eq!(lines(&make_status_lines(&ServiceStatus::Stopped)), vec!["Service is stopped"]);
    let (l, runs) = make_launch_lines(&running, "started", "start");
    assert!(runs);
    assert_eq!(lines(&l)[0], "✓ Service started (PID: 7)");
    let (l, runs) = make_launch_lines(&ServiceStatus::Dead, "started", "start");
    assert!(!runs);
    assert_eq!(lines(&l), vec!["✗ Service failed to start"]);
}

#[test]
fn synchronising_follows_git() {
    assert_eq!(lines(&make_pending_lines(" \n")), vec!["Nothing to sync"]);
    assert_eq!(
        lines(&make_pending_lines(" M a\n?? b\n")),
        vec!["⊘ Would sync these changes:", "   M a", "  ?? b"]
    );
    let ok = GitOutput { success: true, stderr: String::new() };
    let bad = GitOutput { success: false, stderr: "broken".into() };
    assert!(matches!(after_stage(&ok, None, false), SyncStep::Commit(m) if m == "trx: sync issues"));
    assert!(matches!(after_stage(&ok, None, true), SyncStep::Staged));
    assert!(matches!(after_stage(&bad, None, true), SyncStep::Fail(m) if m == "git add failed: broken"));
    assert!(matches!(after_commit(&ok), SyncStep::Synced));
    let idle = GitOutput { success: false, stderr: "nothing to commit, tree clean".into() };
    assert!(matches!(after_commit(&idle), SyncStep::Nothing));
    assert!(matches!(after_commit(&bad), SyncStep::Fail(m) if m == "git commit failed: broken"));
    assert!(is_yes(" Y\n") && !is_yes("yes"));
}
