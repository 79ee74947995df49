//! Issues, contexts, events and the state of the service.
use sha2::{Digest, Sha256};
use trx::agent_ctx::AgentCtx;
use trx::events::{
    diff_issue, enrich_issue, event_id_from, generate_event_id, Event, EventAction, EventLog,
    FieldChange, FieldValue,
};
use trx::id::{generate_child_id, generate_id, issue_id_from};
use trx::issue::{DependencyType, Issue, IssueType, Status};
use trx::jsonl::{content_lines, frame_line, LogLine};
use trx::service::{
    requested, resolve_base, start_step, state_dir, stop_step, BaseVars, Probe, ServiceManager,
    ServiceRequest, ServiceStatus, StartAction, StartEvent, StartFailure, StartState, StopAction,
    StopEvent, StopState,
};
use trx::time::Timestamp;
use trx::Error;

fn at(secs: i64) -> Timestamp {
    Timestamp::new(secs, 0).unwrap()
}

fn ctx(user: &str, platform_session: &str) -> AgentCtx {
    AgentCtx {
        user_id: Some(user.into()),
        platform_session_id: Some(platform_session.into()),
        ..Default::default()
    }
}

fn vars(pairs: &[(&str, &str)]) -> Vec<(String, String)> {
    pairs.iter().map(|(k, v)| (k.to_string(), v.to_string())).collect()
}

// ---- context

#[test]
fn from_env_empty_when_unset() {
    let env = vars(&[
        ("AGENT_CTX_VERSION", ""),
        ("AGENT_CTX_PLATFORM_NAME", ""),
        ("AGENT_CTX_USER_ID", ""),
    ]);
    let ctx = AgentCtx::from_env(&env);
    assert!(ctx.is_empty());
}

#[test]
fn from_env_populates_present_fields() {
    let env = vars(&[
        ("AGENT_CTX_VERSION", "1"),
        ("AGENT_CTX_PLATFORM_NAME", "oqto"),
        ("AGENT_CTX_USER_ID", "u_123"),
        ("AGENT_CTX_PLATFORM_SESSION_ID", "sess_8f"),
    ]);
    let ctx = AgentCtx::from_env(&env);
    assert_eq!(ctx.version.as_deref(), Some("1"));
    assert_eq!(ctx.platform.as_deref(), Some("oqto"));
    assert_eq!(ctx.user_id.as_deref(), Some("u_123"));
    assert_eq!(ctx.platform_session_id.as_deref(), Some("sess_8f"));
    assert!(!ctx.is_empty());
}

#[test]
fn whitespace_only_values_are_ignored() {
    let env = vars(&[("AGENT_CTX_VERSION", "   ")]);
    assert!(AgentCtx::from_env(&env).version.is_none());
}

#[test]
fn session_ids_dedup_when_platform_and_harness_match() {
    let ctx = AgentCtx {
        platform_session_id: Some("s1".into()),
        harness_session_id: Some("s1".into()),
        ..Default::default()
    };
    assert_eq!(ctx.session_ids(), vec!["s1".to_string()]);
}

#[test]
fn session_ids_returns_both_when_distinct() {
    let ctx = AgentCtx {
        platform_session_id: Some("p".into()),
        harness_session_id: Some("h".into()),
        ..Default::default()
    };
    assert_eq!(ctx.session_ids(), vec!["p".to_string(), "h".to_string()]);
}

// ---- event log

fn parse_all(lines: &Vec<LogLine>, known: &[Event]) -> Vec<Option<Event>> {
    lines.iter().map(|l| known.iter().find(|e| e.id == l.text).cloned()).collect()
}

#[test]
fn append_then_read_round_trips() {
    let log = EventLog::at("/repo/.trx");
    let event = Event::new("trx-abc1", EventAction::Created, &ctx("u1", "s1"));
    let mut content = frame_line(&event.id);
    let event2 = Event::new("trx-abc1", EventAction::Closed, &ctx("u1", "s1")).with_note("done");
    content.push_str(&frame_line(&event2.id));

    let lines = content_lines(&content);
    let parsed = parse_all(&lines, &[event, event2]);
    let (read, bad) = log.read_all(&lines, parsed);
    assert_eq!(read.len(), 2);
    assert!(bad.is_empty());
    assert_eq!(read[0].action, EventAction::Created);
    assert_eq!(read[1].action, EventAction::Closed);
    assert_eq!(read[1].note.as_deref(), Some("done"));
    assert_eq!(read[0].user_id.as_deref(), Some("u1"));
}

#[test]
fn read_all_skips_blank_and_malformed_lines() {
    let log = EventLog::at("/repo/.trx");
    let event = Event::new("trx-abc1", EventAction::Created, &ctx("u", "s"));
    let mut content = frame_line(&event.id);
    content.push('\n');
    content.push_str("{not json}\n");

    let lines = content_lines(&content);
    let parsed = parse_all(&lines, &[event]);
    let (read, bad) = log.read_all(&lines, parsed);
    assert_eq!(read.len(), 1);
    assert_eq!(bad, vec![3]);
}

#[test]
fn event_log_lies_in_the_tracker() {
    assert_eq!(EventLog::at("/repo/.trx").path(), "/repo/.trx/events.jsonl");
}

#[test]
fn diff_detects_status_and_priority_changes() {
    let mut before = Issue::new("trx-1".into(), "x".into());
    before.priority = 2;
    before.status = Status::Open;

    let mut after = before.clone();
    after.priority = 1;
    after.status = Status::InProgress;

    let changes = diff_issue(&before, &after);
    let fields: Vec<&str> = changes.iter().map(|c| c.field.as_str()).collect();
    assert!(fields.contains(&"priority"));
    assert!(fields.contains(&"status"));
    assert_eq!(changes.len(), 2);
}

#[test]
fn diff_returns_empty_for_unchanged() {
    let before = Issue::new("trx-1".into(), "x".into());
    let after = before.clone();
    assert!(diff_issue(&before, &after).is_empty());
}

#[test]
fn diff_names_both_sides() {
    let before = Issue::new("trx-1".into(), "x".into());
    let mut after = before.clone();
    after.assignee = Some("ann".into());
    after.priority = 0;
    let changes = diff_issue(&before, &after);
    let find = |f: &str| -> FieldChange { changes.iter().find(|c| c.field == f).unwrap().clone() };
    let p = find("priority");
    assert!(matches!(p.from, Some(FieldValue::Number(2))));
    assert!(matches!(p.to, Some(FieldValue::Number(0))));
    let a = find("assignee");
    assert!(matches!(a.to, Some(FieldValue::Text(ref s)) if s == "ann"));
}

#[test]
fn enrich_issue_fills_created_by_and_sessions() {
    let mut issue = Issue::new("trx-1".into(), "x".into());
    let ctx = AgentCtx {
        user_id: Some("u_42".into()),
        platform_session_id: Some("s_a".into()),
        harness_session_id: Some("s_b".into()),
        ..Default::default()
    };
    assert!(enrich_issue(&mut issue, &ctx));
    assert_eq!(issue.created_by.as_deref(), Some("u_42"));
    assert_eq!(issue.sessions, vec!["s_a", "s_b"]);

    // Idempotent: applying the same context again is a no-op.
    assert!(!enrich_issue(&mut issue, &ctx));
}

#[test]
fn enrich_issue_does_not_overwrite_existing_created_by() {
    let mut issue = Issue::new("trx-1".into(), "x".into());
    issue.created_by = Some("alice".into());
    let ctx = AgentCtx {
        user_id: Some("u_42".into()),
        ..Default::default()
    };
    enrich_issue(&mut issue, &ctx);
    assert_eq!(issue.created_by.as_deref(), Some("alice"));
}

#[test]
fn matches_session_checks_both_ids() {
    let event = Event::new(
        "trx-1",
        EventAction::Updated,
        &AgentCtx {
            platform_session_id: Some("p1".into()),
            harness_session_id: Some("h1".into()),
            ..Default::default()
        },
    );
    assert!(event.matches_session("p1"));
    assert!(event.matches_session("h1"));
    assert!(!event.matches_session("other"));
}

#[test]
fn action_names_are_read_back() {
    for a in [
        EventAction::Created,
        EventAction::Updated,
        EventAction::Closed,
        EventAction::Reopened,
        EventAction::Deleted,
        EventAction::Restored,
        EventAction::DepAdded,
        EventAction::DepRemoved,
        EventAction::SessionLinked,
        EventAction::VerificationAdded,
    ] {
        assert_eq!(a.text().parse::<EventAction>().ok(), Some(a));
    }
    assert!(EventAction::parse("nonsense").is_err());
}

// ---- ids

#[test]
fn event_ids_depend_on_all_their_parts() {
    let a = event_id_from(&vec![1, 2, 3], &at(10));
    assert_eq!(a, event_id_from(&vec![1, 2, 3], &at(10)));
    assert_ne!(a, event_id_from(&vec![1, 2, 4], &at(10)));
    assert_ne!(a, event_id_from(&vec![1, 2, 3], &at(11)));
    assert_ne!(generate_event_id(), generate_event_id());
}

#[test]
fn issue_ids_have_the_prefix_and_four_characters() {
    let id = generate_id("proj");
    assert!(id.starts_with("proj-"));
    let tail = &id["proj-".len()..];
    assert_eq!(tail.len(), 4);
    assert!(tail.chars().all(|c| c.is_ascii_lowercase() || c.is_ascii_digit()));
    assert_eq!(issue_id_from("p", &vec![7], &at(0)), issue_id_from("p", &vec![7], &at(0)));
}

#[test]
fn ids_are_digests_in_crockford_base32() {
    let random: Vec<u8> = vec![9, 8, 7, 6];
    let mut hasher = Sha256::new();
    hasher.update(&random);
    hasher.update((1_700_000_000_i64 * 1_000_000_000 + 5).to_le_bytes());
    let digest = hasher.finalize();
    let text = base32::encode(base32::Alphabet::Crockford, &digest[..6]).to_lowercase();
    let when = Timestamp::new(1_700_000_000, 5).unwrap();
    assert_eq!(event_id_from(&random, &when), format!("evt_{}", &text[..8]));
    assert_eq!(issue_id_from("trx", &random, &when), format!("trx-{}", &text[..4]));
}

#[test]
fn child_ids_count_from_the_parent() {
    assert_eq!(generate_child_id("trx-ab12", 3), "trx-ab12.3");
}

// ---- issues

#[test]
fn new_issues_are_open_tasks() {
    let i = Issue::new_at("trx-1".into(), "t".into(), at(5));
    assert_eq!(i.status, Status::Open);
    assert_eq!(i.issue_type, IssueType::Task);
    assert_eq!(i.priority, 2);
    assert_eq!(i.created_at, at(5));
    assert_eq!(i.updated_at, at(5));
    assert!(i.closed_at.is_none());
}

#[test]
fn closing_and_deleting_stamp_the_issue() {
    let mut i = Issue::new_at("trx-1".into(), "t".into(), at(5));
    i.close_at(Some("done".into()), at(9));
    assert_eq!(i.status, Status::Closed);
    assert_eq!(i.closed_at, Some(at(9)));
    assert_eq!(i.close_reason.as_deref(), Some("done"));
    assert_eq!(i.updated_at, at(9));
    i.delete_at(Some("ann".into()), None, at(11));
    assert_eq!(i.status, Status::Tombstone);
    assert_eq!(i.deleted_by.as_deref(), Some("ann"));
}

#[test]
fn dependencies_are_added_once_and_removed() {
    let mut i = Issue::new_at("trx-1".into(), "t".into(), at(5));
    assert!(i.add_dependency_at("trx-2".into(), DependencyType::Blocks, at(6)));
    assert!(!i.add_dependency_at("trx-2".into(), DependencyType::Blocks, at(7)));
    assert_eq!(i.dependencies.len(), 1);
    assert!(i.is_blocked_by(&vec!["trx-2".into()]));
    assert!(!i.is_blocked_by(&vec!["trx-3".into()]));
    assert!(!i.is_blocked_by(&vec![]));
    i.remove_dependency_at("trx-2", at(8));
    assert!(i.dependencies.is_empty());
}

#[test]
fn names_of_states_and_types_are_read_back() {
    for s in [Status::Open, Status::InProgress, Status::Blocked, Status::Closed, Status::Tombstone] {
        assert_eq!(Status::parse(s.text()).ok(), Some(s));
        assert_ne!(s.is_open(), s.is_closed());
    }
    for t in [
        IssueType::Bug,
        IssueType::Feature,
        IssueType::Task,
        IssueType::Epic,
        IssueType::Chore,
    ] {
        assert_eq!(IssueType::parse(t.text()).ok(), Some(t));
    }
    assert!(Status::parse("nope").is_err());
    assert!(IssueType::parse("nope").is_err());
}

// ---- service

#[test]
fn absolute_xdg_wins_on_unix() {
    let got = resolve_base(
        Some("/explicit/state".into()),
        Some("/home/u".into()),
        Some("C:\\Users\\u\\AppData\\Local".into()),
        false,
        ".local/state",
    );
    assert_eq!(got, Some("/explicit/state".into()));
}

#[test]
fn absolute_xdg_wins_on_windows() {
    let got = resolve_base(
        Some("/explicit/state".into()),
        Some("/home/u".into()),
        Some("C:\\Users\\u\\AppData\\Local".into()),
        true,
        ".local/state",
    );
    assert_eq!(got, Some("/explicit/state".into()));
}

#[test]
fn relative_xdg_is_ignored() {
    let got = resolve_base(
        Some("relative/state".into()),
        Some("/home/u".into()),
        None,
        false,
        ".local/state",
    );
    assert_eq!(got, Some("/home/u/.local/state".into()));
}

#[test]
fn unix_falls_back_to_home_rel() {
    let got = resolve_base(
        None,
        Some("/home/u".into()),
        Some("C:\\Users\\u\\AppData\\Local".into()),
        false,
        ".local/state",
    );
    assert_eq!(got, Some("/home/u/.local/state".into()));
}

#[test]
fn windows_falls_back_to_win_dir() {
    let got = resolve_base(
        None,
        Some("/home/u".into()),
        Some("C:\\Users\\u\\AppData\\Local".into()),
        true,
        ".local/state",
    );
    assert_eq!(got, Some("C:\\Users\\u\\AppData\\Local".into()));
}

#[test]
fn none_when_no_source_available() {
    assert_eq!(resolve_base(None, None, None, false, ".local/state"), None);
    assert_eq!(resolve_base(None, None, None, true, ".local/state"), None);
}

fn windows_base(xdg: &str) -> Option<String> {
    resolve_base(Some(xdg.into()), None, Some("C:\\Local".into()), true, ".local/state")
}

#[test]
fn absolute_paths_of_windows_win_there() {
    for p in ["D:\\state", "d:/state", "\\\\server\\share", "\\\\?\\C:\\state", "\\\\.\\pipe\\x"] {
        assert_eq!(windows_base(p).as_deref(), Some(p));
    }
    for p in ["D:state", "\\temp", "state\\x", "1:\\state", "\\\\server", "\\\\server\\\\x", ""] {
        assert_eq!(windows_base(p).as_deref(), Some("C:\\Local"));
    }
    let on_unix = resolve_base(Some("D:\\state".into()), Some("/home/u".into()), None, false, "s");
    assert_eq!(on_unix, Some("/home/u/s".into()));
}

#[test]
fn files_of_the_service_on_windows() {
    let vars = |dir: &str| BaseVars {
        xdg_state_home: None,
        home: None,
        local_app_data: Some(dir.into()),
        is_windows: true,
    };
    assert_eq!(state_dir(vars("C:\\Local")).ok().unwrap(), "C:\\Local\\trx");
    assert_eq!(state_dir(vars("C:\\")).ok().unwrap(), "C:\\trx");
    assert_eq!(state_dir(vars("C:")).ok().unwrap(), "C:trx");
    let m = ServiceManager::new(vars("C:\\Local")).ok().unwrap();
    assert_eq!(m.pid_file(), "C:\\Local\\trx\\trx-api.pid");
    assert_eq!(m.port_file(), "C:\\Local\\trx\\trx-api.port");
}

fn unix_vars() -> BaseVars {
    BaseVars {
        xdg_state_home: None,
        home: Some("/home/u".into()),
        local_app_data: None,
        is_windows: false,
    }
}

#[test]
fn state_lies_below_the_base() {
    assert_eq!(state_dir(unix_vars()).ok().unwrap(), "/home/u/.local/state/trx");
    let none = BaseVars { home: None, ..unix_vars() };
    assert!(matches!(state_dir(none), Err(Error::Service(_))));
}

#[test]
fn process_ids_are_read_back() {
    let m = ServiceManager::new(unix_vars()).ok().unwrap();
    let text = m.write_pid(4711);
    assert_eq!(m.read_pid(&text).ok(), Some(4711));
    assert_eq!(m.read_port(&m.write_port(8080)).ok(), Some(8080));
    assert!(m.read_pid("").is_err());
    assert!(m.read_pid("12x").is_err());
    assert!(m.read_pid("4294967296").is_err());
    assert!(m.read_port("65536").is_err());
}

#[test]
fn status_follows_the_probe() {
    let m = ServiceManager::new(unix_vars()).ok().unwrap();
    let running = Probe { pid: Some(7), alive: true, port: Some(80) };
    assert!(m.is_running(&running));
    assert!(matches!(m.status(&running), ServiceStatus::Running { pid: 7, port: Some(80) }));
    let dead = Probe { pid: Some(7), alive: false, port: None };
    assert!(!m.is_running(&dead));
    assert!(matches!(m.status(&dead), ServiceStatus::Dead));
    let stopped = Probe { pid: None, alive: false, port: None };
    assert!(matches!(m.status(&stopped), ServiceStatus::Stopped));
}

#[test]
fn a_running_service_is_not_started_again() {
    let (s, a) = start_step(StartState::CheckRunning, StartEvent::Running(true), false);
    assert!(matches!(s, StartState::Ended));
    assert!(matches!(a, StartAction::Fail(StartFailure::AlreadyRunning)));
}

#[test]
fn starting_in_the_foreground_runs_the_service() {
    let (s, a) = start_step(StartState::CheckRunning, StartEvent::Running(false), true);
    assert!(matches!(a, StartAction::LookForBinary));
    let (_, a) = start_step(s, StartEvent::BinaryFound(true), true);
    assert!(matches!(a, StartAction::RunInForeground));
}

#[test]
fn stopping_a_dead_service_drops_its_process_id() {
    let (s, a) = stop_step(StopState::CheckAlive, StopEvent::Alive(false));
    assert!(matches!(s, StopState::Ended));
    assert!(matches!(a, StopAction::DropPidAndFail));
}

#[test]
fn stopping_waits_until_the_process_is_gone() {
    let (s, a) = stop_step(StopState::CheckAlive, StopEvent::Alive(true));
    assert!(matches!(a, StopAction::SendSignal));
    let (s, a) = stop_step(s, StopEvent::SignalSent);
    assert!(matches!(a, StopAction::SleepThenProbe(_)));
    let (s, a) = stop_step(s, StopEvent::Alive(false));
    assert!(matches!(s, StopState::Ended));
    assert!(matches!(a, StopAction::CleanUpAndSucceed));
}

#[test]
fn service_requests_are_told_apart() {
    assert_eq!(requested(&ServiceRequest::Restart), Some(ServiceRequest::Restart));
    assert_eq!(requested(&ServiceRequest::Enable), Some(ServiceRequest::Enable));
}
