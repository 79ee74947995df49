//! What holds over several calls, on concrete values.
use trx::config::Config;
use trx::dates::parse_date;
use trx::edit::UpdateArgs;
use trx::editing::{
    add_note, description_template, edited_description, edited_note, note_template, DescriptionEdit,
};
use trx::evidence::{submit, RunArgs, Submission};
use trx::form::{FormField, IssueForm, KeyAction};
use trx::import::rename_id;
use trx::issue::{DependencyType, Issue, IssueType, Status};
use trx::query::{list_issues, ListQuery, SortKey};
use trx::relations::{handover, ready_report, ReadyQuery};
use trx::report::{make_handover_line, make_ready, make_search_line};
use trx::service::{
    plan_restart, start_step, stop_step, RestartPlan, StartAction, StartEvent, StartState, StopAction, StopEvent, StopState,
};
use trx::stats::{max_count, rank, sparkline, tally};
use trx::store::{Store, Stored};
use trx::text::{
    bytes_from, can_cut, decimal_text, first_bytes, parse_unsigned, split_words, trim, truncate,
};
use trx::time::Timestamp;
use trx::verification::{VerificationRun, VerificationStore};

const T: i64 = 1_767_323_045;

fn at(secs: i64) -> Timestamp {
    Timestamp::new(secs, 0).unwrap()
}

fn issue(id: &str, secs: i64) -> Issue {
    Issue::new_at(id.into(), format!("title of {id}"), at(secs))
}

fn open(log: Vec<Issue>) -> Store {
    Store::open_at("/r".into(), true, Stored::Log(log)).ok().unwrap()
}

#[test]
fn the_order_of_merged_lines_does_not_matter() {
    let mut a = issue("trx-1", T);
    let mut b = a.clone();
    b.title = "later".into();
    b.updated_at = at(T + 1);
    let c = issue("trx-2", T);
    a.title = "earlier".into();
    let one = open(vec![a.clone(), b.clone(), c.clone()]);
    let two = open(vec![c.clone(), b.clone(), a.clone(), b.clone()]);
    for id in ["trx-1", "trx-2"] {
        assert_eq!(one.get(id).unwrap().title, two.get(id).unwrap().title);
    }
    assert_eq!(two.get("trx-1").unwrap().title, "later");
}

#[test]
fn an_update_that_is_older_than_the_log_is_not_read_back() {
    let mut old = issue("trx-1", T);
    old.updated_at = at(T - 10);
    old.title = "older".into();
    let s = open(vec![issue("trx-1", T), old]);
    assert_eq!(s.get("trx-1").unwrap().title, "title of trx-1");
}

#[test]
fn setting_twice_changes_nothing_more() {
    let mut c = Config::default();
    c.config_set("editor", "vim").ok().unwrap();
    let once = format!("{c:?}");
    c.config_set("editor", "vim").ok().unwrap();
    assert_eq!(format!("{c:?}"), once);
}

#[test]
fn updates_keep_the_identity() {
    let before = issue("trx-1", T);
    let args = UpdateArgs {
        status: Some("closed".into()),
        priority: Some(0),
        title: Some("n".into()),
        description: Some(Some("d".into())),
        clear: vec!["labels".into()],
    };
    let after = args.apply(&before, at(T + 1)).ok().unwrap();
    assert_eq!(after.id, before.id);
    assert_eq!(after.created_at, before.created_at);
}

#[test]
fn untouched_drafts_change_nothing() {
    let mut i = issue("trx-1", T);
    assert!(matches!(
        edited_description(&i, &description_template(&i)),
        DescriptionEdit::Unchanged
    ));
    i.description = Some("two\n\nparagraphs".into());
    assert!(matches!(
        edited_description(&i, &description_template(&i)),
        DescriptionEdit::Unchanged
    ));
    assert_eq!(edited_note(&note_template(&i)), None);
    // A line that reads as a remark is lost.
    i.description = Some("# heading\ntext".into());
    assert!(matches!(
        edited_description(&i, &description_template(&i)),
        DescriptionEdit::Change(Some(d)) if d == "text"
    ));
}

#[test]
fn notes_only_grow() {
    let once = add_note(&issue("trx-1", T), "one", at(T));
    let twice = add_note(&once, "two", at(T + 60));
    let notes = twice.notes.unwrap();
    assert!(notes.starts_with(once.notes.as_deref().unwrap()));
    assert!(notes.ends_with("two"));
}

#[test]
fn recorded_runs_stay_as_they_are() {
    let store = VerificationStore::at("/r/.trx");
    let args = RunArgs {
        run_id: None,
        status: Some("passed".into()),
        revision: None,
        environment: None,
        scenario: None,
        command: None,
        summary: None,
        artifacts: vec![],
        checks: vec![],
        gaps: None,
    };
    let run = args.build("trx-1", true, "auto-1".into(), at(T)).ok().unwrap();
    assert_eq!(run.run_id, "auto-1");
    let mut other: VerificationRun = run.clone();
    other.summary = Some("another".into());
    assert!(matches!(submit(&store, &vec![run.clone()], &other), Submission::Conflict));
    assert!(matches!(submit(&store, &vec![run.clone()], &run), Submission::AlreadyRecorded));
}

#[test]
fn choices_in_the_form_go_round() {
    let mut f = IssueForm::new();
    for _ in 0..5 {
        f.step(KeyAction::Tab);
    }
    assert_eq!(f.selected_field, FormField::Title);
    f.selected_field = FormField::IssueType;
    let t = f.issue_type;
    f.step(KeyAction::Down);
    f.step(KeyAction::Up);
    assert_eq!(f.issue_type, t);
    f.selected_field = FormField::Priority;
    for _ in 0..9 {
        f.step(KeyAction::Up);
    }
    assert_eq!(f.priority, 4);
    f.selected_field = FormField::Status;
    for _ in 0..4 {
        f.step(KeyAction::Down);
    }
    assert_eq!(f.status, Status::Open);
}

#[test]
fn renamed_ids_stay_apart() {
    assert_eq!(rename_id("bd-1", "trx"), "trx-1");
    assert_ne!(rename_id("bd-1", "trx"), rename_id("bd-2", "trx"));
    assert_eq!(rename_id("xx-1", "trx"), "xx-1");
}

#[test]
fn closing_keeps_what_the_issue_says() {
    let mut i = issue("trx-1", T);
    i.description = Some("d".into());
    i.close(Some("done".into()));
    assert_eq!(i.description.as_deref(), Some("d"));
    assert_eq!(i.title, "title of trx-1");
    assert!(i.updated_at.secs() > T);
    i.delete(None, Some("spam".into()));
    assert_eq!(i.status, Status::Tombstone);
    assert!(i.add_dependency("trx-2".into(), DependencyType::Related));
    i.remove_dependency("trx-2");
    assert!(i.dependencies.is_empty());
}

#[test]
fn stored_issues_can_be_changed_in_place() {
    let mut s = open(vec![issue("trx-1", T)]);
    s.get_mut("trx-1").unwrap().issue_type = IssueType::Bug;
    assert_eq!(s.get("trx-1").unwrap().issue_type, IssueType::Bug);
    assert!(s.get_mut("trx-2").is_none());
    let lines = s.delete(Stored::Log(vec![issue("trx-1", T)]), "trx-1", None, None).ok().unwrap();
    assert_eq!(lines.len(), 1);
}

#[test]
fn only_a_running_service_is_stopped_first() {
    assert_eq!(plan_restart(true), RestartPlan::StopFirst(200));
    assert_eq!(plan_restart(false), RestartPlan::Start);
}

#[test]
fn starting_and_stopping_end() {
    let mut state = StartState::CheckRunning;
    let mut event = StartEvent::Running(false);
    let mut steps = 0;
    loop {
        let (next, action) = start_step(state, event, false);
        state = next;
        steps += 1;
        event = match action {
            StartAction::LookForBinary => StartEvent::BinaryFound(true),
            StartAction::SpawnInBackground => StartEvent::Spawned,
            StartAction::SleepThenProbe(ms) => {
                assert_eq!(ms, 100);
                StartEvent::Running(false)
            }
            StartAction::Probe => StartEvent::Running(false),
            StartAction::Fail(_) => break,
            _ => panic!("the service cannot have started"),
        };
        assert!(steps < 100);
    }
    let mut state = StopState::CheckAlive;
    let mut event = StopEvent::Alive(true);
    let mut steps = 0;
    loop {
        let (next, action) = stop_step(state, event);
        state = next;
        steps += 1;
        event = match action {
            StopAction::SendSignal => StopEvent::SignalSent,
            StopAction::SleepThenProbe(_) => StopEvent::Alive(true),
            StopAction::CleanUpAndSucceed => break,
            _ => panic!("stopping ends by cleaning up"),
        };
        assert!(steps < 100);
    }
}

#[test]
fn breakdowns_count_everything() {
    let keys: Vec<String> = split_words("a b a c a").into_iter().collect();
    assert_eq!(tally(&keys).iter().map(|t| t.count).sum::<usize>(), 5);
    assert_eq!(rank(&keys)[0].count, 3);
    let counts = vec![1, 4, 2];
    let line: Vec<char> = sparkline(&counts).chars().collect();
    let top = counts.iter().position(|c| *c == max_count(&counts)).unwrap();
    assert_eq!(line[top], '█');
}

#[test]
fn numbers_and_texts_are_read_back() {
    for n in [0u64, 7, 10, 255, u64::MAX] {
        assert_eq!(parse_unsigned(&decimal_text(n), u64::MAX), Some(n));
    }
    assert_eq!(parse_unsigned("256", 255), None);
    assert_eq!(parse_unsigned("+5", 255), Some(5));
    assert_eq!(truncate("abcdef", 4), "abc…");
    assert_eq!(truncate("abcd", 4), "abcd");
    let s = "aé→b";
    assert!(can_cut(s, 3) && !can_cut(s, 2));
    assert_eq!(first_bytes(s, 3) + &bytes_from(s, 3), s);
    assert_eq!(trim("\u{a0} x\u{2003}\n"), "x");
}

#[test]
fn relative_dates_count_back_from_now() {
    let week = parse_date("1 week").ok().unwrap().unwrap();
    let day = parse_date("1 day").ok().unwrap().unwrap();
    let apart = day.secs() - week.secs();
    assert!((6 * 86_400..6 * 86_400 + 60).contains(&apart));
}

#[test]
fn searches_know_other_alphabets() {
    let mut i = issue("trx-1", T);
    i.title = "ÄRGER".into();
    let s = open(vec![i]);
    let q = ListQuery {
        all: false,
        epic: None,
        status: None,
        issue_type: None,
        priority: None,
        search: Some("ärger".into()),
        labels: vec![],
        assignee: None,
        created_after: None,
        created_before: None,
        sort: SortKey::Priority,
        reverse: false,
        limit: None,
    };
    assert_eq!(list_issues(&s, &q).len(), 1);
}

#[test]
fn ready_work_is_shown_with_what_is_blocked() {
    let a = issue("trx-a", T);
    let mut b = issue("trx-b", T);
    b.add_dependency_at("trx-a".into(), DependencyType::Blocks, at(T));
    let s = open(vec![a.clone(), b]);
    let q = ReadyQuery { issue_type: None, priority: None, labels: vec![], limit: None };
    let text = |v: &Vec<trx::style::Span>| v.iter().map(|p| p.text.as_str()).collect::<String>();
    let lines: Vec<String> = make_ready(&ready_report(&s, &q)).iter().map(text).collect();
    assert_eq!(lines[0], "Ready issues (unblocked):");
    assert_eq!(lines[1], "trx-a [P2] [task] - title of trx-a");
    assert_eq!(lines[4], "trx-b [P2] [task] - title of trx-b blocked by trx-a");
    let rows: Vec<String> = handover(&s).iter().map(make_handover_line).collect();
    assert_eq!(rows[0], "▶ trx-a P2 [task] title of trx-a");
    assert_eq!(rows[1], "◼ trx-b P2 [task] title of trx-b ← trx-a");
    assert_eq!(
        text(&make_search_line("repo", &a)),
        "[repo] trx-a [P2] [task] open - title of trx-a"
    );
}
