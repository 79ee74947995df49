//! Runs of checks and the policy on closing.
use trx::agent_ctx::AgentCtx;
use trx::edit::{close_checked, close_issue};
use trx::evidence::{conflict_error, list_runs, parse_check, submit, RunArgs, Submission};
use trx::issue::{Issue, IssueType, Status};
use trx::jsonl::{content_lines, frame_line};
use trx::time::Timestamp;
use trx::verification::{
    evaluate_close_gate, latest_run, VerificationConfig, VerificationRun, VerificationStatus,
    VerificationStore,
};
use trx::Error;

fn now() -> Timestamp {
    Timestamp::new(1_800_000_000, 0).unwrap()
}

fn earlier(secs: i64) -> Timestamp {
    Timestamp::new(1_800_000_000 - secs, 0).unwrap()
}

fn run(id: &str, issue: &str, status: VerificationStatus) -> VerificationRun {
    VerificationRun {
        run_id: id.into(),
        issue_id: issue.into(),
        status,
        revision: None,
        timestamp: now(),
        environment: None,
        scenario: None,
        command: None,
        summary: None,
        artifacts: Vec::new(),
        checks: Vec::new(),
        gaps: None,
    }
}

fn bug(id: &str) -> Issue {
    let mut i = Issue::new(id.into(), "b".into());
    i.issue_type = IssueType::Bug;
    i
}

#[test]
fn status_roundtrips() {
    for s in [
        VerificationStatus::Passed,
        VerificationStatus::Failed,
        VerificationStatus::Error,
        VerificationStatus::Skipped,
    ] {
        let parsed: VerificationStatus = s.text().parse().ok().unwrap();
        assert_eq!(s, parsed);
    }
}

#[test]
fn status_accepts_aliases() {
    assert_eq!("pass".parse::<VerificationStatus>().ok().unwrap(), VerificationStatus::Passed);
    assert_eq!("FAIL".parse::<VerificationStatus>().ok().unwrap(), VerificationStatus::Failed);
}

#[test]
fn status_rejects_unknown() {
    assert!("bogus".parse::<VerificationStatus>().is_err());
}

#[test]
fn equivalent_to_ignores_timestamp() {
    let a = run("r1", "trx-1", VerificationStatus::Passed);
    let mut b = a.clone();
    b.timestamp = Timestamp::new(1_800_000_060, 0).unwrap();
    assert!(a.equivalent_to(&b));
    b.status = VerificationStatus::Failed;
    assert!(!a.equivalent_to(&b));
}

#[test]
fn default_config_is_inactive() {
    assert!(VerificationConfig::default().is_inactive());
}

#[test]
fn config_inactive_when_no_requirements_enabled() {
    let cfg = VerificationConfig {
        require_for: vec!["bug".into()],
        require_pass: false,
        require_current_revision: false,
    };
    assert!(cfg.is_inactive());
}

#[test]
fn gates_issue_matches_type_case_insensitively() {
    let cfg = VerificationConfig {
        require_for: vec!["Bug".into(), "FEATURE".into()],
        require_pass: true,
        require_current_revision: false,
    };
    assert!(cfg.gates_issue(&bug("trx-1")));
    let mut f = Issue::new("trx-2".into(), "f".into());
    f.issue_type = IssueType::Feature;
    assert!(cfg.gates_issue(&f));
    // Task is not listed.
    let t = Issue::new("trx-3".into(), "t".into());
    assert!(!cfg.gates_issue(&t));
}

fn pass_config() -> VerificationConfig {
    VerificationConfig {
        require_for: vec!["bug".into()],
        require_pass: true,
        require_current_revision: false,
    }
}

fn current_config() -> VerificationConfig {
    VerificationConfig {
        require_for: vec!["bug".into()],
        require_pass: true,
        require_current_revision: true,
    }
}

#[test]
fn gate_allows_when_policy_inactive() {
    let issue = bug("trx-1");
    let report = evaluate_close_gate(&issue, &[], &VerificationConfig::default(), None);
    assert!(report.allowed);
}

#[test]
fn gate_allows_unlisted_type_without_evidence() {
    let cfg = pass_config();
    let task = Issue::new("trx-1".into(), "t".into());
    let report = evaluate_close_gate(&task, &[], &cfg, None);
    assert!(report.allowed);
}

#[test]
fn gate_blocks_without_evidence() {
    let report = evaluate_close_gate(&bug("trx-1"), &[], &pass_config(), None);
    assert!(!report.allowed);
    assert!(report.diagnostics[0].contains("no verification evidence"));
}

#[test]
fn gate_blocks_on_failed_latest_run() {
    let issue = bug("trx-1");
    let mut passed = run("r1", "trx-1", VerificationStatus::Passed);
    passed.timestamp = earlier(60);
    let failed = run("r2", "trx-1", VerificationStatus::Failed);
    let report = evaluate_close_gate(&issue, &[passed, failed], &pass_config(), None);
    assert!(!report.allowed);
    assert!(report.diagnostics[0].contains("status 'failed'"));
    assert_eq!(report.latest_run.unwrap().run_id, "r2");
}

#[test]
fn gate_allows_when_latest_passes() {
    let issue = bug("trx-1");
    let mut failed = run("r1", "trx-1", VerificationStatus::Failed);
    failed.timestamp = earlier(60);
    let passed = run("r2", "trx-1", VerificationStatus::Passed);
    let report = evaluate_close_gate(&issue, &[failed, passed], &pass_config(), None);
    assert!(report.allowed);
}

#[test]
fn gate_blocks_on_stale_revision() {
    let issue = bug("trx-1");
    let mut r = run("r1", "trx-1", VerificationStatus::Passed);
    r.revision = Some("oldsha".into());
    let report = evaluate_close_gate(&issue, &[r], &current_config(), Some("newsha"));
    assert!(!report.allowed);
    assert!(report.diagnostics[0].contains("stale evidence"));
}

#[test]
fn gate_blocks_when_current_revision_unknown() {
    let issue = bug("trx-1");
    let r = run("r1", "trx-1", VerificationStatus::Passed);
    let report = evaluate_close_gate(&issue, &[r], &current_config(), None);
    assert!(!report.allowed);
    assert!(report.diagnostics[0].contains("could not be determined"));
}

#[test]
fn gate_blocks_when_run_has_no_revision_but_required() {
    let issue = bug("trx-1");
    let r = run("r1", "trx-1", VerificationStatus::Passed);
    let report = evaluate_close_gate(&issue, &[r], &current_config(), Some("newsha"));
    assert!(!report.allowed);
    assert!(report.diagnostics[0].contains("no recorded revision"));
}

#[test]
fn gate_allows_current_revision_match() {
    let issue = bug("trx-1");
    let mut r = run("r1", "trx-1", VerificationStatus::Passed);
    r.revision = Some("newsha".into());
    let report = evaluate_close_gate(&issue, &[r], &current_config(), Some("newsha"));
    assert!(report.allowed);
}

#[test]
fn runs_of_other_issues_do_not_open_the_way() {
    let issue = bug("trx-1");
    let other = run("r1", "trx-2", VerificationStatus::Passed);
    let report = evaluate_close_gate(&issue, &[other], &pass_config(), None);
    assert!(!report.allowed);
}

// ---- store

/// Appends runs to a log of one line each and reads it back.
fn read_back(store: &VerificationStore, content: &str, known: &[VerificationRun]) -> Vec<VerificationRun> {
    let lines = content_lines(content);
    let parsed: Vec<Option<VerificationRun>> = lines
        .iter()
        .map(|l| known.iter().find(|r| r.run_id == l.text).cloned())
        .collect();
    store.read_all(&lines, parsed).0
}

#[test]
fn store_append_then_read_round_trips() {
    let store = VerificationStore::at("/repo/.trx");
    assert_eq!(store.path(), "/repo/.trx/verifications.jsonl");

    let r1 = run("r1", "trx-1", VerificationStatus::Passed);
    let r2 = run("r2", "trx-1", VerificationStatus::Failed);
    let content = frame_line("r1") + &frame_line("r2");

    let all = read_back(&store, &content, &[r1, r2]);
    assert_eq!(all.len(), 2);
    assert_eq!(all[0].run_id, "r1");
    assert_eq!(all[1].run_id, "r2");
}

#[test]
fn store_skips_blank_and_malformed_lines() {
    let store = VerificationStore::at("/repo/.trx");
    let content = frame_line("r1") + "\n" + "{not json}\n";
    let all = read_back(&store, &content, &[run("r1", "trx-1", VerificationStatus::Passed)]);
    assert_eq!(all.len(), 1);
}

#[test]
fn store_for_issue_filters_and_sorts_oldest_first() {
    let store = VerificationStore::at("/repo/.trx");

    let mut older = run("r1", "trx-1", VerificationStatus::Passed);
    older.timestamp = earlier(60);
    let newer = run("r2", "trx-1", VerificationStatus::Passed);
    let other = run("rx", "trx-2", VerificationStatus::Passed);

    let for_issue = store.for_issue(&vec![newer, older, other], "trx-1");
    assert_eq!(for_issue.len(), 2);
    assert_eq!(for_issue[0].run_id, "r1"); // older first
    assert_eq!(for_issue[1].run_id, "r2");
}

#[test]
fn store_find_returns_matching_run() {
    let store = VerificationStore::at("/repo/.trx");
    let runs = vec![run("r1", "trx-1", VerificationStatus::Passed)];

    assert!(store.find(&runs, "trx-1", "r1").is_some());
    assert!(store.find(&runs, "trx-1", "missing").is_none());
    assert!(store.find(&runs, "trx-9", "r1").is_none());
}

#[test]
fn of_equally_late_runs_the_last_counts() {
    let a = run("a", "trx-1", VerificationStatus::Passed);
    let b = run("b", "trx-1", VerificationStatus::Failed);
    assert_eq!(latest_run(&[&a, &b]).unwrap().run_id, "b");
    assert!(latest_run(&[]).is_none());
}

// ---- closing

fn close(
    issue: &Issue,
    runs: &[VerificationRun],
    revision: &str,
    override_reason: Option<String>,
) -> Result<trx::edit::Closed, Error> {
    close_checked(
        issue,
        runs,
        &current_config(),
        Some(revision),
        &None,
        &override_reason,
        &AgentCtx::default(),
        now(),
    )
}

fn message(e: &Error) -> String {
    match e {
        Error::Other(m) => m.clone(),
        _ => panic!("another error was expected"),
    }
}

#[test]
fn close_gate_blocks_then_admits_evidence_end_to_end() {
    let older = "1111111111111111";
    let current = "2222222222222222";
    let issue = bug("trx-gate");

    // close fails without evidence
    let e = close(&issue, &[], current, None).err().expect("close should fail without evidence");
    assert!(message(&e).contains("verification"));

    // a failed run does not help
    let mut r1 = run("r1", "trx-gate", VerificationStatus::Failed);
    r1.revision = Some(current.into());
    r1.timestamp = earlier(30);
    let e = close(&issue, &[r1.clone()], current, None)
        .err()
        .expect("close should fail when latest run failed");
    assert!(message(&e).contains("failed"));

    // nor does a run of an older revision
    let mut s1 = run("s1", "trx-gate", VerificationStatus::Passed);
    s1.revision = Some(older.into());
    let e = close(&issue, &[s1], current, None).err().expect("close should fail on stale evidence");
    assert!(message(&e).contains("stale"));
    assert!(message(&e).contains(&older[..8]));
    assert!(message(&e).contains(&current[..8]));

    // a passing run of the current revision does
    let mut r3 = run("r3", "trx-gate", VerificationStatus::Passed);
    r3.revision = Some(current.into());
    let closed = close(&issue, &[r1, r3], current, None).ok();
    assert!(closed.is_some(), "close should succeed with passing current-revision evidence");
    assert_eq!(closed.unwrap().issue.status, Status::Closed);
}

#[test]
fn override_closes_and_is_auditable() {
    let issue = bug("trx-over");
    assert!(close(&issue, &[], "rev", None).is_err());
    let closed = close(
        &issue,
        &[],
        "rev",
        Some("Accepted documentation-only follow-up by Tommy".into()),
    )
    .ok()
    .expect("override close should succeed");
    assert_eq!(closed.event.action.text(), "closed");
    let note = closed.event.note.unwrap();
    assert!(note.contains("verification override"), "override note missing in history: {note}");
    assert!(
        note.contains("documentation-only follow-up"),
        "override reason text missing in history: {note}"
    );
    assert_eq!(closed.issue.status, Status::Closed, "issue should be closed");
}

#[test]
fn close_gate_inactive_by_default_allows_closing_without_evidence() {
    let issue = bug("trx-ungated");
    let report = evaluate_close_gate(&issue, &[], &VerificationConfig::default(), Some("rev"));
    let closed = close_issue(&issue, &None, &None, &report, &AgentCtx::default(), now());
    assert!(closed.is_ok());
}

// ---- recording

fn args(run_id: &str, status: Option<&str>, checks: &[&str]) -> RunArgs {
    RunArgs {
        run_id: Some(run_id.into()),
        status: status.map(String::from),
        revision: None,
        environment: None,
        scenario: None,
        command: None,
        summary: None,
        artifacts: vec![],
        checks: checks.iter().map(|c| c.to_string()).collect(),
        gaps: None,
    }
}

fn green() -> RunArgs {
    let mut a = args("k1", Some("passed"), &["login=passed:12 steps", "search=failed"]);
    a.summary = Some("all green".into());
    a
}

#[test]
fn verify_add_list_show_json_and_idempotency() {
    let store = VerificationStore::at("/repo/.trx");
    let issue = "trx-cli1";
    let mut runs: Vec<VerificationRun> = vec![];

    let first = green().build(issue, true, "auto".into(), now()).ok().unwrap();
    assert!(matches!(submit(&store, &runs, &first), Submission::Append));
    runs.push(first);

    let listed = store.for_issue(&runs, issue);
    assert_eq!(listed.len(), 1);
    assert_eq!(listed[0].run_id, "k1");
    assert_eq!(listed[0].status.text(), "passed");
    assert_eq!(listed[0].checks.len(), 2);
    assert_eq!(store.find(&runs, issue, "k1").unwrap().run_id, "k1");

    // Idempotent re-submission: same record (incl. checks) → no second line.
    let again = green()
        .build(issue, true, "auto".into(), Timestamp::new(1_800_000_100, 0).unwrap())
        .ok()
        .unwrap();
    assert!(
        matches!(submit(&store, &runs, &again), Submission::AlreadyRecorded),
        "idempotent re-add must not duplicate"
    );

    // Conflicting re-submission: same run-id, different content → error.
    let other = args("k1", Some("failed"), &[]).build(issue, true, "auto".into(), now()).ok().unwrap();
    assert!(
        matches!(submit(&store, &runs, &other), Submission::Conflict),
        "conflicting run-id should be rejected"
    );
    assert!(message(&conflict_error(&other)).contains("different content"));
}

#[test]
fn verify_add_validates_inputs() {
    // Unknown issue → error.
    assert!(args("x1", Some("passed"), &[]).build("trx-nope", false, "auto".into(), now()).is_err());

    // Missing status → error.
    let e = args("x2", None, &[]).build("trx-1", true, "auto".into(), now()).err().unwrap();
    assert!(message(&e).contains("--status"));

    // Bogus status → error.
    assert!(args("x3", Some("bogus"), &[]).build("trx-1", true, "auto".into(), now()).is_err());

    // Malformed --check → error.
    assert!(args("x4", Some("passed"), &["no_equals_here"])
        .build("trx-1", true, "auto".into(), now())
        .is_err());
}

#[test]
fn referenced_artifacts_are_not_copied_into_trx() {
    let mut a = args("a1", Some("passed"), &[]);
    a.artifacts = vec!["file:///repo/artifacts/report.txt".into()];
    let r = a.build("trx-1", true, "auto".into(), now()).ok().unwrap();
    // What is recorded is the reference, word for word.
    assert_eq!(r.artifacts, vec!["file:///repo/artifacts/report.txt".to_string()]);
    assert!(r.artifacts[0].ends_with("report.txt"));
}

#[test]
fn checks_are_read_from_their_text() {
    let c = parse_check("login=passed:12 steps").ok().unwrap();
    assert_eq!(c.name, "login");
    assert_eq!(c.status, VerificationStatus::Passed);
    assert_eq!(c.detail.as_deref(), Some("12 steps"));
    let c = parse_check("search=failed").ok().unwrap();
    assert!(c.detail.is_none());
    assert!(parse_check("no_equals_here").is_err());
}

#[test]
fn arguments_win_over_a_record() {
    let mut record = args("rec", Some("failed"), &[]);
    record.summary = Some("from the record".into());
    let merged = args("arg", None, &[]).over(record);
    assert_eq!(merged.run_id.as_deref(), Some("arg"));
    assert_eq!(merged.status.as_deref(), Some("failed"));
    assert_eq!(merged.summary.as_deref(), Some("from the record"));
}

#[test]
fn lists_of_runs_keep_the_newest() {
    let store = VerificationStore::at("/repo/.trx");
    let mut runs = vec![];
    for n in 0..4 {
        let mut r = run(&format!("r{n}"), "trx-1", VerificationStatus::Passed);
        r.timestamp = earlier(100 - n);
        runs.push(r);
    }
    let ids = |limit: Option<usize>| -> Vec<String> {
        list_runs(&store, &runs, "trx-1", limit).into_iter().map(|r| r.run_id).collect()
    };
    assert_eq!(ids(Some(2)), vec!["r2", "r3"]);
    assert_eq!(ids(None).len(), 4);
    assert!(list_runs(&store, &runs, "trx-9", None).is_empty());
}
