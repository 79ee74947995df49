//! The store: snapshots in a log, roots, locks, attributes and old documents.
use automerge::transaction::Transactable;
use automerge::{AutoCommit, ObjType, ROOT};
use trx::attributes::{doctor, ensure_lines, gitattributes_lines, plan_sync_attributes};
use trx::issue::{DependencyType, Issue, IssueType, Status};
use trx::jsonl::{content_lines, frame_line, keep_well_formed};
use trx::legacy_crdt::{fields_to_issue, is_document_name, load_issue_at, read_fields};
use trx::store::{
    find_root, initial_config, lock_step, DirProbe, LockAttempt, LockStep, Store, Stored,
};
use trx::time::Timestamp;
use trx::Error;

const T0: i64 = 1_800_000_000;

fn at(secs: i64) -> Timestamp {
    Timestamp::new(secs, 0).unwrap()
}

fn issue_with_timestamp(id: &str, title: &str, updated_at: Timestamp) -> Issue {
    let mut issue = Issue::new(id.into(), title.into());
    issue.created_at = updated_at;
    issue.updated_at = updated_at;
    issue
}

fn open(log: Vec<Issue>) -> Store {
    Store::open_at("/repo".into(), true, Stored::Log(log)).ok().unwrap()
}

#[test]
fn test_append_only_round_trip_matches_full_rewrite_snapshot() {
    let mut log: Vec<Issue> = vec![];
    let mut append_store = Store::init("/repo".into(), false).ok().unwrap();

    for n in 0..4 {
        let issue = issue_with_timestamp(&format!("trx-{n}"), &format!("issue {n}"), at(T0));
        let lines = append_store.create(Stored::Log(log.clone()), issue).ok().unwrap();
        log.extend(lines);
    }

    let mut issue_1 = append_store.get("trx-1").unwrap().clone();
    issue_1.status = Status::InProgress;
    issue_1.updated_at = at(T0 + 1);
    log.extend(append_store.update(Stored::Log(log.clone()), issue_1).ok().unwrap());

    let mut issue_3 = append_store.get("trx-3").unwrap().clone();
    issue_3.status = Status::Closed;
    issue_3.close_reason = Some("done".into());
    issue_3.updated_at = at(T0 + 2);
    log.extend(append_store.update(Stored::Log(log.clone()), issue_3).ok().unwrap());

    let append_reloaded = open(log);
    let mut latest: Vec<Issue> = append_reloaded.list(true).into_iter().cloned().collect();
    latest.sort_by(|a, b| a.id.cmp(&b.id));

    let rewrite_reloaded = open(latest.clone());
    assert_eq!(latest.len(), 4);
    for expected in latest {
        let actual = rewrite_reloaded.get(&expected.id).unwrap();
        assert_eq!(actual.title, expected.title);
        assert_eq!(actual.status, expected.status);
        assert_eq!(actual.updated_at, expected.updated_at);
        assert_eq!(actual.close_reason, expected.close_reason);
    }
}

#[test]
fn test_load_uses_updated_at_lww_for_duplicate_issue_ids() {
    let mut older = issue_with_timestamp("trx-dup", "older", at(T0));
    older.status = Status::Open;
    let mut newer = issue_with_timestamp("trx-dup", "newer", at(T0 + 5));
    newer.status = Status::Closed;

    let store = open(vec![newer.clone(), older.clone(), newer.clone()]);

    let issue = store.get("trx-dup").unwrap();
    assert_eq!(issue.title, "newer");
    assert_eq!(issue.status, Status::Closed);
    assert_eq!(store.list(true).len(), 1);
}

#[test]
fn test_load_uses_file_order_when_updated_at_ties() {
    let first = issue_with_timestamp("trx-dup", "first", at(T0));
    let second = issue_with_timestamp("trx-dup", "second", at(T0));

    let store = open(vec![first, second]);

    assert_eq!(store.get("trx-dup").unwrap().title, "second");
}

#[test]
fn test_union_merge_log_loads_one_winner_and_compacts_duplicates() {
    let base = issue_with_timestamp("trx-merge", "base", at(T0));
    let mut ours = issue_with_timestamp("trx-merge", "ours", at(T0 + 1));
    ours.status = Status::InProgress;
    let mut theirs = issue_with_timestamp("trx-merge", "theirs", at(T0 + 2));
    theirs.status = Status::Closed;

    let store = open(vec![base.clone(), ours.clone(), base, theirs.clone()]);

    let issue = store.get("trx-merge").unwrap();
    assert_eq!(issue.title, "theirs");
    assert_eq!(issue.status, Status::Closed);
    assert_eq!(store.list(true).len(), 1);

    let compacted = store.save();
    assert_eq!(compacted.len(), 1);
    assert_eq!(compacted[0].title, "theirs");
}

#[test]
fn test_create_appends_one_line_without_rewriting_existing_log() {
    let mut store = Store::init("/repo".into(), false).ok().unwrap();
    let mut log = store
        .create(Stored::Log(vec![]), Issue::new("trx-b".into(), "second sort key".into()))
        .ok()
        .unwrap();
    let before_lines = log.len();

    let added = store
        .create(Stored::Log(log.clone()), Issue::new("trx-a".into(), "first sort key".into()))
        .ok()
        .unwrap();
    assert_eq!(added.len(), 1);
    assert_eq!(added[0].id, "trx-a");
    log.extend(added);
    assert_eq!(log[0].id, "trx-b");
    assert_eq!(log.len(), before_lines + 1);
}

#[test]
fn test_init_writes_union_merge_gitattributes() {
    let attrs = Store::ensure_merge_attributes(None).unwrap();
    for line in gitattributes_lines() {
        assert!(attrs.lines().any(|existing| existing == line));
    }
    assert!(Store::ensure_merge_attributes(Some(&attrs)).is_none());
}

#[test]
fn test_concurrent_creates_are_serialized_without_lost_issues() {
    // Each of eight stores was opened on the empty log; under the lock each reads the log anew.
    let mut log: Vec<Issue> = vec![];
    let mut stores: Vec<Store> = (0..8).map(|_| open(vec![])).collect();
    for (n, store) in stores.iter_mut().enumerate() {
        let issue = Issue::new(format!("trx-{n}"), format!("issue {n}"));
        log.extend(store.create(Stored::Log(log.clone()), issue).ok().unwrap());
    }
    let store = open(log);
    assert_eq!(store.list(false).len(), 8);
    for n in 0..8 {
        assert!(store.get(&format!("trx-{n}")).is_some());
    }
}

fn dir(path: &str, has_trx: bool, has_git: bool) -> DirProbe {
    DirProbe { path: path.into(), has_trx, has_git }
}

#[test]
fn test_find_root_does_not_cross_git_boundary() {
    let root = find_root(&vec![
        dir("/t/child-repo/src/nested", false, false),
        dir("/t/child-repo/src", false, false),
        dir("/t/child-repo", false, true),
        dir("/t", true, false),
    ]);
    assert!(matches!(root, Err(Error::NotInitialized)));
}

#[test]
fn test_find_root_within_git_boundary_finds_repo_trx() {
    let root = find_root(&vec![
        dir("/t/repo/src/nested", false, false),
        dir("/t/repo/src", false, false),
        dir("/t/repo", true, true),
    ]);
    assert_eq!(root.ok().unwrap(), "/t/repo");
}

#[test]
fn stores_are_made_once() {
    assert!(matches!(
        Store::init("/repo".into(), true),
        Err(Error::AlreadyInitialized(_))
    ));
    assert!(matches!(
        Store::open_at("/repo".into(), false, Stored::Log(vec![])),
        Err(Error::NotInitialized)
    ));
    let store = Store::init("/repo".into(), false).ok().unwrap();
    assert_eq!(store.trx_dir(), "/repo/.trx");
    assert_eq!(store.issues_path(), "/repo/.trx/issues.jsonl");
}

#[test]
fn ids_are_taken_once_and_must_be_known() {
    let a = issue_with_timestamp("trx-a", "a", at(T0));
    let mut store = open(vec![a.clone()]);
    assert!(matches!(
        store.create(Stored::Log(vec![a.clone()]), a.clone()),
        Err(Error::AlreadyExists(id)) if id == "trx-a"
    ));
    let b = issue_with_timestamp("trx-b", "b", at(T0));
    assert!(matches!(
        store.update(Stored::Log(vec![a.clone()]), b),
        Err(Error::NotFound(id)) if id == "trx-b"
    ));
    let lines = store
        .delete_at(Stored::Log(vec![a.clone()]), "trx-a", Some("ann".into()), None, at(T0 + 1))
        .ok()
        .unwrap();
    assert_eq!(lines[0].status, Status::Tombstone);
    assert!(store.list(false).is_empty());
    assert_eq!(store.list(true).len(), 1);
}

#[test]
fn legacy_issues_are_written_out_in_full() {
    let a = issue_with_timestamp("trx-b", "b", at(T0));
    let b = issue_with_timestamp("trx-a", "a", at(T0));
    let mut store =
        Store::open_at("/repo".into(), true, Stored::Legacy(vec![a.clone(), b.clone()])).ok().unwrap();
    assert!(store.migrate_pending());
    let c = issue_with_timestamp("trx-c", "c", at(T0));
    let lines = store.create(Stored::Legacy(vec![a, b]), c).ok().unwrap();
    let ids: Vec<&str> = lines.iter().map(|i| i.id.as_str()).collect();
    assert_eq!(ids, vec!["trx-a", "trx-b", "trx-c"]);
    assert!(store.finish_legacy_migration());
    assert!(!store.migrate_pending());
}

#[test]
fn children_are_counted() {
    let store = open(vec![
        issue_with_timestamp("trx-1", "p", at(T0)),
        issue_with_timestamp("trx-1.1", "c", at(T0)),
        issue_with_timestamp("trx-1.4", "c", at(T0)),
        issue_with_timestamp("trx-1.4.9", "g", at(T0)),
        issue_with_timestamp("trx-10.7", "o", at(T0)),
    ]);
    assert_eq!(store.try_next_child_num("trx-1"), Some(5));
    assert_eq!(store.next_child_num("trx-1"), 5);
    assert_eq!(store.try_next_child_num("trx-2"), Some(1));
}

#[test]
fn the_prefix_is_read_from_the_settings() {
    let store = open(vec![]);
    assert_eq!(store.prefix(None), "trx");
    assert_eq!(store.prefix(Some("# a comment\nprefix = \"abc\"\n")), "abc");
    assert_eq!(store.prefix(Some(&initial_config("proj"))), "proj");
    assert_eq!(store.prefix(Some("other = 1\n")), "trx");
}

#[test]
fn locks_are_tried_again_and_given_up() {
    assert!(matches!(lock_step(LockAttempt::Created, 0, "/l"), LockStep::Hold));
    assert!(matches!(lock_step(LockAttempt::AlreadyThere, 0, "/l"), LockStep::Retry(_)));
    assert!(matches!(
        lock_step(LockAttempt::AlreadyThere, 1_000_000, "/l"),
        LockStep::GiveUp(_)
    ));
}

#[test]
fn framed_lines_are_read_back() {
    let content = frame_line("one") + &frame_line("two");
    assert_eq!(content, "one\ntwo\n");
    let lines = content_lines(&content);
    assert_eq!(lines.len(), 2);
    assert_eq!((lines[1].number, lines[1].text.as_str()), (2, "two"));
    let (good, bad) = keep_well_formed(&lines, vec![Some("1".to_string()), None]);
    assert_eq!(good, vec!["1".to_string()]);
    assert_eq!(bad, vec![2]);
}

// ---- attributes

#[test]
fn doctor_warns_when_gitattributes_is_missing() {
    let r = doctor(None, false);
    assert!(!r.healthy);
    assert!(r.lines.iter().any(|l| l.contains("warning: .gitattributes is missing")));
    assert!(r.fixed.is_none());
}

#[test]
fn doctor_fix_installs_missing_gitattributes_entries() {
    let r = doctor(None, true);
    assert!(r.healthy);
    assert!(r
        .lines
        .iter()
        .any(|l| l.contains("installed 2 missing trx merge attribute entries")));
    let attrs = r.fixed.unwrap();
    assert!(attrs.contains(".trx/issues.jsonl text eol=lf merge=union"));
    assert!(attrs.contains(".trx/events.jsonl text eol=lf merge=union"));

    let again = doctor(Some(&attrs), false);
    assert!(again.healthy);
    assert!(again
        .lines
        .iter()
        .any(|l| l.contains(".gitattributes configures trx JSONL union merges")));
}

#[test]
fn repeated_sync_does_not_duplicate_merge_attributes() {
    let attrs = plan_sync_attributes(None, false).ok().unwrap().unwrap();
    assert!(plan_sync_attributes(Some(&attrs), true).ok().unwrap().is_none());
    for required in [
        ".trx/issues.jsonl text eol=lf merge=union",
        ".trx/events.jsonl text eol=lf merge=union",
        ".trx/verifications.jsonl text eol=lf merge=union",
    ] {
        assert_eq!(attrs.lines().filter(|line| *line == required).count(), 1);
    }
}

#[test]
fn sync_refuses_to_absorb_unrelated_gitattributes_edits() {
    match plan_sync_attributes(Some("*.png binary\n"), true) {
        Err(Error::Other(m)) => assert!(m.contains(".gitattributes has uncommitted changes")),
        _ => panic!("the edits should be refused"),
    }
}

#[test]
fn sync_upgrades_legacy_repo_and_concurrent_appends_rebase_cleanly() {
    let attrs = plan_sync_attributes(None, false).ok().unwrap().unwrap();
    assert!(attrs.contains(".trx/issues.jsonl text eol=lf merge=union"));
    assert!(attrs.contains(".trx/events.jsonl text eol=lf merge=union"));
    assert!(attrs.contains(".trx/verifications.jsonl text eol=lf merge=union"));

    // A union merge keeps the lines of both sides, and both issues are there.
    let merged = open(vec![
        issue_with_timestamp("trx-1", "first issue", at(T0)),
        issue_with_timestamp("trx-2", "second issue", at(T0 + 1)),
    ]);
    let titles: Vec<&str> = merged.list(false).iter().map(|i| i.title.as_str()).collect();
    assert!(titles.contains(&"first issue"));
    assert!(titles.contains(&"second issue"));
}

#[test]
fn attributes_are_put_behind_what_is_there() {
    let added = ensure_lines("*.png binary", &vec!["a".into(), "b".into()]).unwrap();
    assert_eq!(added, "*.png binary\na\nb\n");
    assert!(ensure_lines(&added, &vec!["b".into()]).is_none());
}

// ---- old documents

fn legacy_document() -> Vec<u8> {
    let mut doc = AutoCommit::new();
    doc.put(ROOT, "id", "trx-old").unwrap();
    doc.put(ROOT, "title", "An old issue").unwrap();
    doc.put(ROOT, "status", "in_progress").unwrap();
    doc.put(ROOT, "priority", 1_i64).unwrap();
    doc.put(ROOT, "issue_type", "bug").unwrap();
    doc.put(ROOT, "created_at", "2026-01-02T03:04:05Z").unwrap();
    doc.put(ROOT, "updated_at", "2026-01-02T03:04:06Z").unwrap();
    let labels = doc.put_object(ROOT, "labels", ObjType::List).unwrap();
    doc.insert(&labels, 0, "ui").unwrap();
    doc.insert(&labels, 1, "core").unwrap();
    let deps = doc.put_object(ROOT, "dependencies", ObjType::List).unwrap();
    let dep = doc.insert_object(&deps, 0, ObjType::Map).unwrap();
    doc.put(&dep, "issue_id", "trx-old").unwrap();
    doc.put(&dep, "depends_on_id", "trx-base").unwrap();
    doc.put(&dep, "type", "blocks").unwrap();
    doc.put(&dep, "dep_type", "blocks").unwrap();
    doc.put(&dep, "created_at", "2026-01-02T03:04:05Z").unwrap();
    doc.save()
}

#[test]
fn old_documents_become_issues() {
    let issue = load_issue_at(&legacy_document(), at(T0)).ok().unwrap();
    assert_eq!(issue.id, "trx-old");
    assert_eq!(issue.title, "An old issue");
    assert_eq!(issue.status, Status::InProgress);
    assert_eq!(issue.priority, 1);
    assert_eq!(issue.issue_type, IssueType::Bug);
    assert_eq!(issue.created_at, at(1_767_323_045));
    assert_eq!(issue.updated_at, at(1_767_323_046));
    assert_eq!(issue.labels, vec!["ui", "core"]);
    assert_eq!(issue.dependencies.len(), 1);
    assert_eq!(issue.dependencies[0].depends_on_id, "trx-base");
    assert_eq!(issue.dependencies[0].dep_type, DependencyType::Blocks);
    assert!(issue.assignee.is_none());
}

#[test]
fn items_that_are_no_maps_name_no_dependency() {
    let mut doc = AutoCommit::new();
    doc.put(ROOT, "id", "trx-odd").unwrap();
    doc.put(ROOT, "title", "Odd").unwrap();
    doc.put(ROOT, "issue_id", "a key that occurs").unwrap();
    let deps = doc.put_object(ROOT, "dependencies", ObjType::List).unwrap();
    let list = doc.insert_object(&deps, 0, ObjType::List).unwrap();
    doc.insert(&list, 0, "x").unwrap();
    let text = doc.insert_object(&deps, 1, ObjType::Text).unwrap();
    doc.splice_text(&text, 0, 0, "y").unwrap();
    doc.insert(&deps, 2, "z").unwrap();
    let map = doc.insert_object(&deps, 3, ObjType::Map).unwrap();
    doc.put(&map, "issue_id", "trx-odd").unwrap();
    doc.put(&map, "depends_on_id", "trx-base").unwrap();
    let issue = load_issue_at(&doc.save(), at(T0)).ok().unwrap();
    assert_eq!(issue.dependencies.len(), 1);
    assert_eq!(issue.dependencies[0].depends_on_id, "trx-base");
    assert_eq!(issue.dependencies[0].created_at, at(T0));
}

#[test]
fn lists_that_are_no_lists_hold_no_texts() {
    let mut doc = AutoCommit::new();
    doc.put(ROOT, "id", "trx-odd").unwrap();
    doc.put(ROOT, "title", "Odd").unwrap();
    doc.put(ROOT, "sessions", 5_i64).unwrap();
    let labels = doc.put_object(ROOT, "labels", ObjType::Map).unwrap();
    doc.put(&labels, "a", 1_i64).unwrap();
    let issue = load_issue_at(&doc.save(), at(T0)).ok().unwrap();
    assert!(issue.sessions.is_empty());
    assert!(issue.dependencies.is_empty());
}

#[test]
fn fields_of_a_document_are_taken_as_they_are() {
    let doc = AutoCommit::load(&legacy_document()).unwrap();
    let f = read_fields(&doc);
    assert_eq!(f.priority, Some(1));
    assert_eq!(f.status.as_deref(), Some("in_progress"));
    let issue = fields_to_issue(f, at(T0)).ok().unwrap();
    assert_eq!(issue.id, "trx-old");
}

#[test]
fn documents_without_an_id_are_refused() {
    let mut doc = AutoCommit::new();
    doc.put(ROOT, "title", "no id").unwrap();
    assert!(load_issue_at(&doc.save(), at(T0)).is_err());
    assert!(load_issue_at(&vec![1, 2, 3], at(T0)).is_err());
}

#[test]
fn documents_are_known_by_their_names() {
    assert!(is_document_name("trx-1.automerge"));
    assert!(!is_document_name("trx-1.json"));
}
