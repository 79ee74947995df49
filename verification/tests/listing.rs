//! Dates, queries, relations, plans and changes.
use trx::agent_ctx::AgentCtx;
use trx::create::{
    choose_id, clean_edited_text, create_issue, create_item, editor_template, is_json_plan,
    plan_child, plan_epic, read_description, split_plan, wants_input,
};
use trx::dates::{parse_date_at, parse_date_expr, DateExpr, TimeUnit};
use trx::edit::{
    action_for_update, dep_block, dep_events, dep_unblock, split_ids, update_event, UpdateArgs,
};
use trx::events::EventAction;
use trx::graph::IssueGraph;
use trx::import::{convert_with, import_line, import_step, read_times, rename_id, ImportStep};
use trx::issue::{DependencyType, Issue, IssueType, Status};
use trx::json::{parse_json, parse_json_list, Json};
use trx::markdown::{export, ExportQuery};
use trx::plan::{parse_batch_text, parse_plan_json, parse_plan_markdown, parse_plan_text};
use trx::query::{descendant_ids, list_issues, resolve_assignee, ListArgs, ListQuery, SortKey};
use trx::relations::{handover, issue_links, ready_report, search, ReadyQuery};
use trx::robot::{next_issue, triage};
use trx::store::{Store, Stored};
use trx::time::Timestamp;
use trx::tree::{build_dep_tree, dep_tree};
use trx::Error;

const T0: i64 = 1_800_000_000;

fn at(secs: i64) -> Timestamp {
    Timestamp::new(secs, 0).unwrap()
}

fn issue(id: &str, title: &str, priority: u8, secs: i64) -> Issue {
    let mut i = Issue::new_at(id.into(), title.into(), at(secs));
    i.priority = priority;
    i
}

fn store(issues: Vec<Issue>) -> Store {
    Store::open_at("/repo".into(), true, Stored::Log(issues)).ok().unwrap()
}

fn ids(v: &[&Issue]) -> Vec<String> {
    v.iter().map(|i| i.id.clone()).collect()
}

/// An epic with two children, of which the second is blocked by the first, and a chore.
fn sample() -> Vec<Issue> {
    let mut epic = issue("trx-e", "The epic", 1, T0);
    epic.issue_type = IssueType::Epic;
    let mut a = issue("trx-e.1", "First step", 2, T0 + 10);
    a.add_dependency_at("trx-e".into(), DependencyType::ParentChild, at(T0 + 10));
    a.labels = vec!["ui".into()];
    let mut b = issue("trx-e.2", "Second step", 0, T0 + 20);
    b.add_dependency_at("trx-e".into(), DependencyType::ParentChild, at(T0 + 20));
    b.add_dependency_at("trx-e.1".into(), DependencyType::Blocks, at(T0 + 20));
    let mut c = issue("trx-c", "Sweep the floor", 3, T0 + 30);
    c.issue_type = IssueType::Chore;
    c.assignee = Some("ann".into());
    let mut d = issue("trx-d", "Old news", 2, T0 - 100);
    d.close_at(None, at(T0 - 50));
    vec![epic, a, b, c, d]
}

fn everything() -> ListQuery {
    ListQuery {
        all: false,
        epic: None,
        status: None,
        issue_type: None,
        priority: None,
        search: None,
        labels: vec![],
        assignee: None,
        created_after: None,
        created_before: None,
        sort: SortKey::Priority,
        reverse: false,
        limit: None,
    }
}

// ---- dates

#[test]
fn dates_are_read_as_instants_days_and_spans() {
    let now = at(T0);
    assert_eq!(
        parse_date_at("2026-01-02T03:04:05Z", now).ok().unwrap(),
        Some(at(1_767_323_045))
    );
    assert_eq!(parse_date_at("2026-01-02", now).ok().unwrap(), Some(at(1_767_312_000)));
    assert_eq!(parse_date_at("2 days", now).ok().unwrap(), Some(at(T0 - 2 * 86_400)));
    assert_eq!(parse_date_at("1 week", now).ok().unwrap(), Some(at(T0 - 7 * 86_400)));
    assert_eq!(parse_date_at("3 Hours", now).ok().unwrap(), Some(at(T0 - 3 * 3_600)));
    assert_eq!(parse_date_at("1 month", now).ok().unwrap(), Some(at(T0 - 30 * 86_400)));
    assert!(matches!(parse_date_at("whenever", now), Err(Error::Other(m)) if m.starts_with("Cannot parse date: 'whenever'")));
    assert!(matches!(parse_date_at("2 moons", now), Err(Error::Other(m)) if m.starts_with("Unknown time unit: moons")));
    assert!(matches!(
        parse_date_expr("2 days"),
        Ok(DateExpr::Ago { count: 2, unit: TimeUnit::Day })
    ));
}

// ---- lists

#[test]
fn lists_are_by_priority_and_newest_first() {
    let s = store(sample());
    assert_eq!(ids(&list_issues(&s, &everything())), vec!["trx-e.2", "trx-e", "trx-e.1", "trx-c"]);
    let all = ListQuery { all: true, ..everything() };
    assert_eq!(list_issues(&s, &all).len(), 5);
}

#[test]
fn lists_are_filtered_sorted_and_cut() {
    let s = store(sample());
    let q = ListQuery { labels: vec!["ui".into()], ..everything() };
    assert_eq!(ids(&list_issues(&s, &q)), vec!["trx-e.1"]);
    let q = ListQuery { search: Some("STEP".into()), sort: SortKey::Id, ..everything() };
    assert_eq!(ids(&list_issues(&s, &q)), vec!["trx-e.1", "trx-e.2"]);
    let q = ListQuery { sort: SortKey::Created, limit: Some(2), ..everything() };
    assert_eq!(ids(&list_issues(&s, &q)), vec!["trx-c", "trx-e.2"]);
    let q = ListQuery { sort: SortKey::Id, reverse: true, ..everything() };
    assert_eq!(ids(&list_issues(&s, &q)), vec!["trx-e.2", "trx-e.1", "trx-e", "trx-c"]);
    let q = ListQuery { status: Some(Status::Closed), ..everything() };
    assert_eq!(ids(&list_issues(&s, &q)), vec!["trx-d"]);
    let q = ListQuery { assignee: Some("ann".into()), ..everything() };
    assert_eq!(ids(&list_issues(&s, &q)), vec!["trx-c"]);
}

#[test]
fn epics_hold_their_descendants() {
    let s = store(sample());
    let all = s.list(false);
    let mut d = descendant_ids(&all, "trx-e");
    d.sort();
    assert!(d.contains(&"trx-e.1".to_string()) && d.contains(&"trx-e.2".to_string()));
    let q = ListQuery { epic: Some("trx-e".into()), sort: SortKey::Id, ..everything() };
    let shown = ids(&list_issues(&s, &q));
    assert_eq!(shown, vec!["trx-e", "trx-e.1", "trx-e.2"]);

    // A closed child is shown on request.
    let mut issues = sample();
    issues[1].close_at(None, at(T0 + 50));
    let s = store(issues);
    assert_eq!(ids(&list_issues(&s, &q)), vec!["trx-e", "trx-e.2"]);
    let q = ListQuery { all: true, ..q };
    assert_eq!(ids(&list_issues(&s, &q)), vec!["trx-e", "trx-e.1", "trx-e.2"]);
}

fn list_args() -> ListArgs {
    ListArgs {
        status: None,
        issue_type: None,
        priority: None,
        search: None,
        epic: None,
        all: false,
        limit: None,
        labels: vec![],
        assignee: None,
        created_after: None,
        created_before: None,
        sort: "priority".into(),
        reverse: false,
    }
}

#[test]
fn list_arguments_are_checked() {
    let s = store(sample());
    assert!(list_args().to_query(&s).is_ok());
    let bad = ListArgs { status: Some("nope".into()), ..list_args() };
    assert!(bad.to_query(&s).is_err());
    let bad = ListArgs { issue_type: Some("nope".into()), ..list_args() };
    assert!(bad.to_query(&s).is_err());
    let bad = ListArgs { sort: "nope".into(), ..list_args() };
    assert!(bad.to_query(&s).is_err());
    let bad = ListArgs { epic: Some("trx-none".into()), ..list_args() };
    assert!(bad.to_query(&s).is_err());
    assert!(SortKey::parse("updated").is_ok());
    assert_eq!(SortKey::Updated.label(), "updated");
}

#[test]
fn me_is_resolved() {
    assert_eq!(resolve_assignee("bob", None, None), "bob");
    assert_eq!(resolve_assignee("me", Some("Ann".into()), Some("ann".into())), "Ann");
    assert_eq!(resolve_assignee("me", None, Some("ann".into())), "ann");
}

// ---- relations

#[test]
fn ready_work_is_not_blocked() {
    let s = store(sample());
    let q = ReadyQuery { issue_type: None, priority: None, labels: vec![], limit: None };
    let r = ready_report(&s, &q);
    assert_eq!(ids(&r.ready), vec!["trx-e", "trx-e.1", "trx-c"]);
    assert_eq!(ids(&r.blocked), vec!["trx-e.2"]);
    let g = IssueGraph::from_issues(&s.list_open());
    assert_eq!(g.ready_issues(s.list_open()).len(), 3);
}

#[test]
fn links_go_both_ways() {
    let s = store(sample());
    let links = issue_links(&s, s.get("trx-e.2").unwrap());
    assert_eq!(links.parent.as_deref(), Some("trx-e"));
    assert_eq!(links.blocked_by, vec!["trx-e.1"]);
    let links = issue_links(&s, s.get("trx-e.1").unwrap());
    assert_eq!(links.blocks, vec!["trx-e.2"]);
    let links = issue_links(&s, s.get("trx-e").unwrap());
    assert_eq!(links.children, vec!["trx-e.1", "trx-e.2"]);
}

#[test]
fn handover_names_what_holds_work_up() {
    let s = store(sample());
    let rows = handover(&s);
    let last = rows.iter().find(|r| r.issue.id == "trx-e.2").unwrap();
    assert!(!last.ready);
    assert_eq!(last.blocked_by, vec!["trx-e.1"]);
    assert!(rows[0].ready);
}

#[test]
fn search_ignores_case() {
    let s = store(sample());
    assert_eq!(ids(&search(&s, "SWEEP")), vec!["trx-c"]);
    assert!(search(&s, "nothing like it").is_empty());
}

#[test]
fn the_next_issue_is_the_most_urgent_ready_one() {
    let s = store(sample());
    assert_eq!(next_issue(s.list_open()).unwrap().id, "trx-e");
    assert_eq!(triage(s.list_open())[0].id, "trx-e.2");
    assert!(next_issue(vec![]).is_none());
}

#[test]
fn trees_show_what_an_issue_rests_on() {
    let s = store(sample());
    let t = build_dep_tree(&s, "trx-e.2").unwrap();
    assert_eq!(t.id, "trx-e.2");
    assert!(t.depends_on.iter().any(|n| n.id == "trx-e.1"));
    assert!(build_dep_tree(&s, "trx-none").is_none());
    let lines = dep_tree(&s, "trx-e.2").unwrap();
    let text: String =
        lines.iter().flat_map(|l| l.iter().map(|p| p.text.clone())).collect();
    assert!(text.contains("trx-e.1"));
    assert!(dep_tree(&s, "trx-none").is_none());
}

#[test]
fn cycles_in_trees_are_cut() {
    let mut a = issue("trx-a", "a", 2, T0);
    a.add_dependency_at("trx-b".into(), DependencyType::Blocks, at(T0));
    let mut b = issue("trx-b", "b", 2, T0);
    b.add_dependency_at("trx-a".into(), DependencyType::Blocks, at(T0));
    let s = store(vec![a, b]);
    let t = build_dep_tree(&s, "trx-a").unwrap();
    assert!(t.depends_on[0].depends_on[0].cycle);
}

// ---- new issues

#[test]
fn descriptions_come_from_the_input_on_a_dash() {
    assert!(wants_input(&Some("-".into())));
    assert!(!wants_input(&Some("x".into())));
    assert_eq!(read_description(Some("-".into()), "  text \n").as_deref(), Some("text"));
    assert_eq!(read_description(Some("-".into()), " \n"), None);
    assert_eq!(read_description(Some("given".into()), "").as_deref(), Some("given"));
}

#[test]
fn edited_descriptions_lose_their_comments() {
    assert!(editor_template("", "T").starts_with("# T\n"));
    assert_eq!(editor_template("old", "T"), "old");
    assert_eq!(clean_edited_text("<!-- c -->\n# T\ntext\n").ok().unwrap(), "# T\ntext");
    assert!(matches!(clean_edited_text("<!-- c -->\n \n"), Err(Error::Other(_))));
}

#[test]
fn new_issues_stand_below_their_parent() {
    let ctx = AgentCtx { user_id: Some("ann".into()), ..Default::default() };
    let s = store(sample());
    let id = choose_id(&s, &Some("trx-e".into()), "trx-new".into()).unwrap();
    assert_eq!(id, "trx-e.3");
    assert_eq!(choose_id(&s, &None, "trx-new".into()).unwrap(), "trx-new");
    let i = create_issue(id, "T", "bug", 1, None, Some("trx-e".into()), &ctx, at(T0)).ok().unwrap();
    assert_eq!(i.parent().as_deref(), Some("trx-e"));
    assert_eq!(i.issue_type, IssueType::Bug);
    assert_eq!(i.created_by.as_deref(), Some("ann"));
    assert!(create_issue("x".into(), "T", "nope", 1, None, None, &ctx, at(T0)).is_err());
}

// ---- plans

fn obj(members: Vec<(&str, Json)>) -> Json {
    Json::Obj(members.into_iter().map(|(k, v)| (k.to_string(), v)).collect())
}

fn text(s: &str) -> Json {
    Json::Str(s.to_string())
}

#[test]
fn plans_are_read_from_json() {
    let plan = Json::Arr(vec![
        obj(vec![("title", text("The epic")), ("type", text("epic"))]),
        obj(vec![("title", text("Step")), ("priority", Json::UInt(1))]),
    ]);
    let items = parse_plan_json(&plan).ok().unwrap();
    assert_eq!(items.len(), 2);
    assert_eq!(items[0].title.as_deref(), Some("The epic"));
    assert_eq!(items[1].priority, Some(1));
    let (epic, children) = split_plan(items).ok().unwrap();
    let ctx = AgentCtx::default();
    let e = plan_epic(&epic, "trx-p".into(), 2, &ctx, at(T0));
    assert_eq!(e.issue_type, IssueType::Epic);
    let c = plan_child(&children[0], "trx-p", "trx-p.1".into(), 2, &ctx, at(T0));
    assert_eq!(c.parent().as_deref(), Some("trx-p"));
    assert_eq!(c.title, "Step");
    assert!(split_plan(vec![]).is_err());
    assert!(create_item(&children[0], 0, "trx-q".into(), &ctx, at(T0)).is_ok());
}

fn message<T>(r: Result<T, Error>) -> String {
    match r {
        Err(Error::Other(m)) => m,
        _ => String::new(),
    }
}

#[test]
fn values_are_read_from_their_text() {
    let v = parse_json(r#"{"b": [1, -2, 1.5, null, true], "a": "x\ny", "b": ["last"], "c": {}}"#);
    let v = v.ok().unwrap();
    assert!(matches!(v.get("a").and_then(|a| a.as_str()), Some(s) if s == "x\ny"));
    assert!(matches!(v.get("b"), Some(Json::Arr(a)) if a.len() == 1));
    assert!(matches!(v.get("c"), Some(Json::Obj(o)) if o.is_empty()));
    assert!(v.get("d").is_none());
    let l = parse_json_list("[1, -2, 1.5, null, true, 18446744073709551616]").ok().unwrap();
    assert_eq!(l[0].as_u64(), Some(1));
    assert!(matches!(l[1], Json::NegInt(-2)));
    assert!(matches!(&l[2], Json::Real(s) if s == "1.5"));
    assert!(matches!(l[3], Json::Null));
    assert!(matches!(l[4], Json::Bool(true)));
    assert!(matches!(&l[5], Json::Real(_)));
    assert_eq!(message(parse_json("x")), "expected value at line 1 column 1");
    assert!(message(parse_json_list("{}")).contains("expected a sequence"));
}

#[test]
fn plans_are_read_from_text_in_json() {
    let list = r#"[{"title": "The epic"}, {"title": "Step", "priority": 1}]"#;
    let items = parse_plan_text(list).ok().unwrap();
    assert_eq!(items.len(), 2);
    assert_eq!(items[1].title.as_deref(), Some("Step"));
    assert_eq!(items[1].priority, Some(1));
    let tree = r#"{"title": "The epic", "children": [{"title": "One"}, {"title": "Two"}]}"#;
    let items = parse_plan_text(tree).ok().unwrap();
    let titles: Vec<Option<&str>> = items.iter().map(|i| i.title.as_deref()).collect();
    assert_eq!(titles, vec![Some("The epic"), Some("One"), Some("Two")]);
    assert_eq!(parse_plan_text(r#"{"title": "Alone"}"#).ok().unwrap().len(), 1);
    assert_eq!(message(parse_plan_text("7")), "Expected JSON array or object with 'children'");
    assert_eq!(message(parse_plan_text("x")), "expected value at line 1 column 1");
    let batch = parse_batch_text(list).ok().unwrap();
    assert_eq!(batch[0].title.as_deref(), Some("The epic"));
    assert!(message(parse_batch_text(tree)).contains("expected a sequence"));
    assert!(parse_batch_text("[").is_err());
}

#[test]
fn plans_are_read_from_markdown() {
    let md = "# The epic\n\nWhy.\n\n## First\n\nDo it.\n\n## Second\n";
    let items = parse_plan_markdown(md, None).ok().unwrap();
    assert_eq!(items[0].title.as_deref(), Some("The epic"));
    let titles: Vec<&str> = items.iter().filter_map(|i| i.title.as_deref()).collect();
    assert!(titles.contains(&"First") && titles.contains(&"Second"));
    let named = parse_plan_markdown(md, Some("Mine")).ok().unwrap();
    assert_eq!(named[0].title.as_deref(), Some("Mine"));
    assert!(is_json_plan("plan.json"));
    assert!(!is_json_plan("plan.md"));
}

// ---- changes

fn no_change() -> UpdateArgs {
    UpdateArgs { status: None, priority: None, title: None, description: None, clear: vec![] }
}

#[test]
fn updates_change_what_they_name() {
    let before = issue("trx-1", "old", 2, T0);
    let args = UpdateArgs {
        status: Some("in_progress".into()),
        title: Some("new".into()),
        ..no_change()
    };
    let after = args.apply(&before, at(T0 + 5)).ok().unwrap();
    assert_eq!(after.title, "new");
    assert_eq!(after.status, Status::InProgress);
    assert_eq!(after.priority, 2);
    assert_eq!(after.updated_at, at(T0 + 5));
    let e = update_event(&before, &after, &AgentCtx::default()).unwrap();
    assert_eq!(e.action, EventAction::Updated);
    assert_eq!(e.changes.len(), 2);
    assert!(update_event(&before, &before, &AgentCtx::default()).is_none());
    let bad = UpdateArgs { status: Some("nope".into()), ..no_change() };
    assert!(bad.apply(&before, at(T0)).is_err());
}

#[test]
fn closing_and_reopening_are_told_apart() {
    let open = issue("trx-1", "t", 2, T0);
    let mut closed = open.clone();
    closed.close_at(None, at(T0));
    assert_eq!(action_for_update(&open, &closed), EventAction::Closed);
    assert_eq!(action_for_update(&closed, &open), EventAction::Reopened);
    assert_eq!(action_for_update(&open, &open), EventAction::Updated);
}

#[test]
fn blockers_are_added_and_taken_away() {
    let s = store(sample());
    assert_eq!(split_ids("trx-e, trx-e.1"), vec!["trx-e", "trx-e.1"]);
    let added = dep_block(&s, "trx-c", "trx-e.1,trx-e.2", at(T0 + 40)).ok().unwrap();
    assert_eq!(added.changed, vec!["trx-e.1", "trx-e.2"]);
    assert_eq!(added.issue.blocker_ids(), vec!["trx-e.1", "trx-e.2"]);
    let events = dep_events(&added, EventAction::DepAdded, &AgentCtx::default());
    assert_eq!(events.len(), 2);
    let again = dep_block(&s, "trx-e.2", "trx-e.1", at(T0 + 40)).ok().unwrap();
    assert_eq!(again.unchanged, vec!["trx-e.1"]);
    let gone = dep_unblock(&s, "trx-e.2", "trx-e.1", at(T0 + 40)).ok().unwrap();
    assert!(gone.issue.blocker_ids().is_empty());
    assert!(dep_block(&s, "trx-none", "trx-c", at(T0)).is_err());
    assert!(dep_block(&s, "trx-c", "trx-none", at(T0)).is_err());
}

// ---- import

#[test]
fn imported_issues_get_another_prefix() {
    assert_eq!(rename_id("bd-12", "trx"), "trx-12");
    let value = obj(vec![
        ("id", text("bd-12")),
        ("title", text("Imported")),
        ("status", text("closed")),
        ("priority", Json::UInt(1)),
        ("created_at", text("2026-01-02T03:04:05Z")),
    ]);
    let times = read_times(&value);
    assert_eq!(times.created_at, Some(at(1_767_323_045)));
    let i = convert_with(&value, "trx", times, at(T0)).unwrap();
    assert_eq!(i.id, "trx-12");
    assert_eq!(i.status, Status::Closed);
    assert_eq!(i.priority, 1);
    assert_eq!(i.created_at, at(1_767_323_045));
    let s = store(vec![]);
    assert!(matches!(import_step(&s, &value, "trx", at(T0)), ImportStep::Create(_)));
    let s = store(vec![i]);
    assert!(matches!(import_step(&s, &value, "trx", at(T0)), ImportStep::Skip));
}

#[test]
fn lines_of_a_database_are_imported() {
    let s = store(vec![issue("trx-1", "here", 2, T0)]);
    let read = |line: &str| import_line(&s, line, "trx", at(T0));
    assert!(matches!(read("  \t "), Ok(None)));
    assert!(matches!(read(r#"{"id": "bd-1", "title": "again"}"#), Ok(Some(ImportStep::Skip))));
    assert!(matches!(read(r#"{"title": "no id"}"#), Ok(Some(ImportStep::Skip))));
    let Ok(Some(ImportStep::Create(i))) = read(r#"{"id": "bd-2", "title": "New", "priority": 0}"#)
    else {
        panic!("an issue is made")
    };
    assert_eq!((i.id.as_str(), i.title.as_str(), i.priority), ("trx-2", "New", 0));
    assert_eq!(i.created_at, at(T0));
    assert_eq!(message(read("x")), "expected value at line 1 column 1");
}

// ---- export

#[test]
fn exports_hold_every_open_issue() {
    let s = store(sample());
    let q = ExportQuery { include_closed: false, issue_type: None, labels: vec![] };
    let md = export(&s, &q, &at(T0), "0.6.0");
    assert!(md.contains("trx-e.1") && md.contains("trx-c"));
    assert!(!md.contains("Old news"));
    let q = ExportQuery { include_closed: true, ..q };
    assert!(export(&s, &q, &at(T0), "0.6.0").contains("Old news"));
}
