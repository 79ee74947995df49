//! Taking over issues from a Beads database, one JSON value for each issue.
use crate::error::{Error, ErrorView};
use crate::issue::{
    added_dependency_comes_last, fresh_issue, issue_type_names_read_back, status_names_read_back,
    DependencyType, DependencyView, Issue, IssueType, IssueView, Status,
};
use crate::json::{parse_json, parsed_json, Json, JsonView};
use crate::store::{lemma_index_of, lookup, Store};
use crate::text::{
    begins_with, concat, is_blank, is_blank_text, same_text, strip_prefix, stripped,
};
use crate::time::{rfc3339_instant, Timestamp};
use vstd::prelude::*;

verus! {

/// An id with its Beads prefix replaced. Other ids stay.
pub open spec fn renamed(id: Seq<char>, prefix: Seq<char>) -> Seq<char> {
    match stripped(id, "bd-"@) {
        Some(rest) => prefix + "-"@ + rest,
        None => id,
    }
}

pub fn rename_id(id: &str, prefix: &str) -> (r: String)
    ensures
        r@ == renamed(id@, prefix@),
{
    match strip_prefix(id, "bd-") {
        Some(rest) => {
            let mut r = concat(prefix, "-");
            r.append(&rest);
            r
        },
        None => id.to_owned(),
    }
}

/// The type of a dependency: everything but blocking and parenthood is a mere relation.
pub open spec fn imported_dep_type(t: Seq<char>) -> DependencyType {
    if t == "blocks"@ {
        DependencyType::Blocks
    } else if t == "parent-child"@ {
        DependencyType::ParentChild
    } else {
        DependencyType::Related
    }
}

/// The issue with the dependencies that some values describe; those without a target or a
/// type are left out.
pub open spec fn with_imported_deps(
    i: IssueView,
    deps: Seq<JsonView>,
    prefix: Seq<char>,
    now: Timestamp,
) -> IssueView
    decreases deps.len(),
{
    if deps.len() == 0 {
        i
    } else {
        let before = with_imported_deps(i, deps.drop_last(), prefix, now);
        match (deps.last().member_text("depends_on_id"@), deps.last().member_text("type"@)) {
            (Some(on), Some(t)) => before.after_add_dependency(
                renamed(on, prefix),
                imported_dep_type(t),
                now,
            ),
            _ => before,
        }
    }
}

/// The instants that a value holds.
#[derive(Clone, Copy, Debug)]
pub struct ImportedTimes {
    pub created_at: Option<Timestamp>,
    pub updated_at: Option<Timestamp>,
    pub closed_at: Option<Timestamp>,
}

/// The instant in the text of a member.
pub open spec fn member_instant(value: JsonView, key: Seq<char>) -> Option<Timestamp> {
    match value.member_text(key) {
        Some(s) => rfc3339_instant(s),
        None => None,
    }
}

/// The id of the issue that a value describes; none where it has none or it is empty.
pub open spec fn imported_id(value: JsonView, prefix: Seq<char>) -> Option<Seq<char>> {
    match value.member_text("id"@) {
        Some(id) => if id.len() == 0 {
            None
        } else {
            Some(renamed(id, prefix))
        },
        None => None,
    }
}

/// The issue that a value describes, taken over at `now`.
pub open spec fn imported(
    value: JsonView,
    id: Seq<char>,
    prefix: Seq<char>,
    times: ImportedTimes,
    now: Timestamp,
) -> IssueView {
    let title = match value.member_text("title"@) {
        Some(t) => t,
        None => "Untitled"@,
    };
    let base = fresh_issue(id, title, now);
    let plain = IssueView {
        description: value.member_text("description"@),
        status: match value.member_text("status"@) {
            Some(s) => match Status::parsed(s) {
                Some(x) => x,
                None => Status::Open,
            },
            None => base.status,
        },
        priority: match value.member_uint("priority"@) {
            Some(p) => p as u8,
            None => base.priority,
        },
        issue_type: match value.member_text("issue_type"@) {
            Some(s) => match IssueType::parsed(s) {
                Some(x) => x,
                None => IssueType::Task,
            },
            None => base.issue_type,
        },
        created_at: match times.created_at {
            Some(t) => t,
            None => base.created_at,
        },
        updated_at: match times.updated_at {
            Some(t) => t,
            None => base.updated_at,
        },
        closed_at: times.closed_at,
        close_reason: value.member_text("close_reason"@),
        ..base
    };
    match value.member_items("dependencies"@) {
        Some(deps) => with_imported_deps(plain, deps, prefix, now),
        None => plain,
    }
}

fn read_instant(value: &Json, key: &str) -> (r: Option<Timestamp>)
    ensures
        r == member_instant(value@, key@),
{
    match value.get_str(key) {
        Some(s) => Timestamp::parse_rfc3339(&s),
        None => None,
    }
}

/// Reads the instants of a value.
pub fn read_times(value: &Json) -> (r: ImportedTimes)
    ensures
        r == times_in(value@),
{
    ImportedTimes {
        created_at: read_instant(value, "created_at"),
        updated_at: read_instant(value, "updated_at"),
        closed_at: read_instant(value, "closed_at"),
    }
}

fn add_imported_deps(issue: &mut Issue, deps: &Vec<Json>, prefix: &str, now: Timestamp)
    ensures
        final(issue)@ == with_imported_deps(old(issue)@, deps.deep_view(), prefix@, now),
{
    let ghost d = deps.deep_view();
    let ghost start = issue@;
    let mut i: usize = 0;
    assert(d.take(0) =~= seq![]);
    while i < deps.len()
        invariant
            i <= deps.len(),
            d == deps.deep_view(),
            issue@ == with_imported_deps(start, d.take(i as int), prefix@, now),
        decreases deps.len() - i,
    {
        assert(d.take(i + 1).drop_last() =~= d.take(i as int));
        assert(d.take(i + 1).last() == deps@[i as int]@);
        match (deps[i].get_str("depends_on_id"), deps[i].get_str("type")) {
            (Some(on), Some(t)) => {
                let dep_type = if same_text(&t, "blocks") {
                    DependencyType::Blocks
                } else if same_text(&t, "parent-child") {
                    DependencyType::ParentChild
                } else {
                    DependencyType::Related
                };
                let _new = issue.add_dependency_at(rename_id(&on, prefix), dep_type, now);
            },
            _ => {},
        }
        i += 1;
    }
    assert(d.take(d.len() as int) =~= d);
}

/// The issue that a value describes, with the instants that were read from it.
pub fn convert_with(value: &Json, prefix: &str, times: ImportedTimes, now: Timestamp) -> (r: Option<
    Issue,
>)
    ensures
        match imported_id(value@, prefix@) {
            None => r is None,
            Some(id) => r is Some && r->0@ == imported(value@, id, prefix@, times, now),
        },
{
    let id = match value.get_str("id") {
        Some(id) => id,
        None => return None,
    };
    if id.as_str().is_empty() {
        return None;
    }
    let new_id = rename_id(&id, prefix);
    let title = match value.get_str("title") {
        Some(t) => t,
        None => "Untitled".to_owned(),
    };
    let mut issue = Issue::new_at(new_id, title, now);
    issue.description = value.get_str("description");
    if let Some(s) = value.get_str("status") {
        issue.status = match Status::parse(&s) {
            Ok(x) => x,
            Err(_) => Status::Open,
        };
    }
    if let Some(p) = value.get_u64("priority") {
        issue.priority = #[verifier::truncate] (p as u8);
    }
    if let Some(s) = value.get_str("issue_type") {
        issue.issue_type = match IssueType::parse(&s) {
            Ok(x) => x,
            Err(_) => IssueType::Task,
        };
    }
    if let Some(t) = times.created_at {
        issue.created_at = t;
    }
    if let Some(t) = times.updated_at {
        issue.updated_at = t;
    }
    issue.closed_at = times.closed_at;
    issue.close_reason = value.get_str("close_reason");
    match value.get_array("dependencies") {
        Some(deps) => add_imported_deps(&mut issue, deps, prefix, now),
        None => {},
    }
    Some(issue)
}

/// What becomes of one value.
pub enum ImportStep {
    Skip,
    Create(Issue),
}

/// The instants that a value holds.
pub open spec fn times_in(value: JsonView) -> ImportedTimes {
    ImportedTimes {
        created_at: member_instant(value, "created_at"@),
        updated_at: member_instant(value, "updated_at"@),
        closed_at: member_instant(value, "closed_at"@),
    }
}

/// The issue that is made of a value: none where the value has no id, or where there is an
/// issue with its id already.
pub open spec fn import_of(
    entries: Seq<IssueView>,
    value: JsonView,
    prefix: Seq<char>,
    now: Timestamp,
) -> Option<IssueView> {
    match imported_id(value, prefix) {
        None => None,
        Some(id) => if lookup(entries, id) is Some {
            None
        } else {
            Some(imported(value, id, prefix, times_in(value), now))
        },
    }
}

/// Decides on one value.
pub fn import_step(store: &Store, value: &Json, prefix: &str, now: Timestamp) -> (r: ImportStep)
    ensures
        match import_of(store.entries(), value@, prefix@, now) {
            None => r is Skip,
            Some(i) => r is Create && r->Create_0@ == i,
        },
{
    let times = read_times(value);
    match convert_with(value, prefix, times, now) {
        None => ImportStep::Skip,
        Some(issue) => {
            proof {
                lemma_import_keeps_id(value@, imported_id(value@, prefix@)->0, prefix@, times, now);
            }
            if store.get(&issue.id).is_some() {
                ImportStep::Skip
            } else {
                ImportStep::Create(issue)
            }
        },
    }
}

/// Decides on one line of a database, which holds a value in JSON. Nothing is said of a blank
/// line.
pub fn import_line(store: &Store, line: &str, prefix: &str, now: Timestamp) -> (r: Result<
    Option<ImportStep>,
    Error,
>)
    ensures
        if is_blank_text(line@) {
            r is Ok && r->Ok_0 is None
        } else {
            match parsed_json(line@) {
                Err(m) => r is Err && r->Err_0@ == ErrorView::Other(m),
                Ok(value) => r is Ok && r->Ok_0 is Some && match import_of(
                    store.entries(),
                    value,
                    prefix@,
                    now,
                ) {
                    None => r->Ok_0->0 is Skip,
                    Some(i) => r->Ok_0->0 is Create && r->Ok_0->0->Create_0@ == i,
                },
            }
        },
{
    if is_blank(line) {
        return Ok(None);
    }
    match parse_json(line) {
        Ok(value) => Ok(Some(import_step(store, &value, prefix, now))),
        Err(e) => Err(e),
    }
}

proof fn lemma_deps_keep_id(i: IssueView, deps: Seq<JsonView>, prefix: Seq<char>, now: Timestamp)
    ensures
        with_imported_deps(i, deps, prefix, now).id == i.id,
    decreases deps.len(),
{
    if deps.len() > 0 {
        lemma_deps_keep_id(i, deps.drop_last(), prefix, now);
    }
}

proof fn lemma_import_keeps_id(
    value: JsonView,
    id: Seq<char>,
    prefix: Seq<char>,
    times: ImportedTimes,
    now: Timestamp,
)
    ensures
        imported(value, id, prefix, times, now).id == id,
{
    let title = match value.member_text("title"@) {
        Some(t) => t,
        None => "Untitled"@,
    };
    match value.member_items("dependencies"@) {
        Some(deps) => {
            let base = fresh_issue(id, title, now);
            let plain = IssueView {
                description: value.member_text("description"@),
                status: match value.member_text("status"@) {
                    Some(s) => match Status::parsed(s) {
                        Some(x) => x,
                        None => Status::Open,
                    },
                    None => base.status,
                },
                priority: match value.member_uint("priority"@) {
                    Some(p) => p as u8,
                    None => base.priority,
                },
                issue_type: match value.member_text("issue_type"@) {
                    Some(s) => match IssueType::parsed(s) {
                        Some(x) => x,
                        None => IssueType::Task,
                    },
                    None => base.issue_type,
                },
                created_at: match times.created_at {
                    Some(t) => t,
                    None => base.created_at,
                },
                updated_at: match times.updated_at {
                    Some(t) => t,
                    None => base.updated_at,
                },
                closed_at: times.closed_at,
                close_reason: value.member_text("close_reason"@),
                ..base
            };
            lemma_deps_keep_id(plain, deps, prefix, now);
        },
        None => {},
    }
}

/// Ids and the references to them are renamed alike: two Beads ids are the same exactly
/// where they are the same afterwards.
pub proof fn renaming_keeps_ids_apart(a: Seq<char>, b: Seq<char>, prefix: Seq<char>)
    requires
        begins_with(a, "bd-"@),
        begins_with(b, "bd-"@),
    ensures
        renamed(a, prefix) == renamed(b, prefix) <==> a == b,
{
    reveal_strlit("bd-");
    let x = a.skip(3);
    let y = b.skip(3);
    let p = prefix + "-"@;
    assert(renamed(a, prefix) == p + x);
    assert(renamed(b, prefix) == p + y);
    if p + x == p + y {
        assert((p + x).skip(p.len() as int) =~= x);
        assert((p + y).skip(p.len() as int) =~= y);
        assert(a =~= a.take(3) + x);
        assert(b =~= b.take(3) + y);
    }
}

/// An id that begins with the prefix of Beads gets the prefix of this tracker in its place; any
/// other id stays.
pub proof fn ids_get_the_prefix(id: Seq<char>, rest: Seq<char>, prefix: Seq<char>)
    ensures
        id == seq!['b', 'd', '-'] + rest ==> renamed(id, prefix) == prefix + seq!['-'] + rest,
        !(id.len() >= 3 && id[0] == 'b' && id[1] == 'd' && id[2] == '-') ==> renamed(id, prefix)
            == id,
{
    reveal_strlit("bd-");
    reveal_strlit("-");
    assert("bd-"@ =~= seq!['b', 'd', '-']);
    assert("-"@ =~= seq!['-']);
    if id == seq!['b', 'd', '-'] + rest {
        assert(id.take(3) =~= "bd-"@);
        assert(id.skip(3) =~= rest);
    }
    if begins_with(id, "bd-"@) {
        let f = id.take(3);
        assert(f[0] == id[0] && f[1] == id[1] && f[2] == id[2]);
    }
}

/// The value is one that describes a dependency on `on`, of that kind: it says on what, and how.
pub open spec fn describes_dependency(
    value: JsonView,
    prefix: Seq<char>,
    on: Seq<char>,
    t: DependencyType,
) -> bool {
    &&& value.member_text("depends_on_id"@) is Some
    &&& value.member_text("type"@) is Some
    &&& on == renamed(value.member_text("depends_on_id"@)->0, prefix)
    &&& t == (if value.member_text("type"@) == Some("blocks"@) {
        DependencyType::Blocks
    } else if value.member_text("type"@) == Some("parent-child"@) {
        DependencyType::ParentChild
    } else {
        DependencyType::Related
    })
}

/// The issue has a dependency of that kind on `on`.
pub open spec fn depends(i: IssueView, on: Seq<char>, t: DependencyType) -> bool {
    exists|d: DependencyView| #[trigger]
        i.dependencies.contains(d) && d.depends_on_id == on && d.dep_type == t
}

proof fn lemma_imported_deps(
    i: IssueView,
    deps: Seq<JsonView>,
    prefix: Seq<char>,
    now: Timestamp,
    on: Seq<char>,
    t: DependencyType,
)
    ensures
        ({
            let w = with_imported_deps(i, deps, prefix, now);
            &&& depends(w, on, t) <==> depends(i, on, t) || exists|k: int|
                0 <= k < deps.len() && describes_dependency(#[trigger] deps[k], prefix, on, t)
            &&& w.id == i.id && w.title == i.title && w.description == i.description && w.status
                == i.status && w.priority == i.priority && w.issue_type == i.issue_type
            &&& w.created_at == i.created_at && w.closed_at == i.closed_at && w.close_reason
                == i.close_reason && w.labels == i.labels
            &&& (forall|k: int|
                0 <= k < deps.len() ==> (#[trigger] deps[k]).member_text("depends_on_id"@) is None
                    || deps[k].member_text("type"@) is None) ==> w == i
        }),
    decreases deps.len(),
{
    if deps.len() > 0 {
        let front = deps.drop_last();
        let v = with_imported_deps(i, front, prefix, now);
        let w = with_imported_deps(i, deps, prefix, now);
        let last = deps.last();
        lemma_imported_deps(i, front, prefix, now, on, t);
        assert(deps[deps.len() - 1] == last);
        let described = exists|k: int|
            0 <= k < deps.len() && describes_dependency(#[trigger] deps[k], prefix, on, t);
        let before = exists|k: int|
            0 <= k < front.len() && describes_dependency(#[trigger] front[k], prefix, on, t);
        assert(described <==> before || describes_dependency(last, prefix, on, t)) by {
            if before {
                let k = choose|k: int|
                    0 <= k < front.len() && describes_dependency(#[trigger] front[k], prefix, on, t);
                assert(deps[k] == front[k]);
            }
            if described {
                let k = choose|k: int|
                    0 <= k < deps.len() && describes_dependency(#[trigger] deps[k], prefix, on, t);
                if k < front.len() {
                    assert(front[k] == deps[k]);
                }
            }
        }
        if last.member_text("depends_on_id"@) is Some && last.member_text("type"@) is Some {
            let o = renamed(last.member_text("depends_on_id"@)->0, prefix);
            let u = imported_dep_type(last.member_text("type"@)->0);
            added_dependency_comes_last(v, o, u, now);
            let n = v.dependencies.len() as int;
            if !depends(v, o, u) {
                assert forall|d: DependencyView| #[trigger]
                    w.dependencies.contains(d) <==> v.dependencies.contains(d) || d
                        == w.dependencies[n] by {
                    if w.dependencies.contains(d) {
                        let k = choose|k: int|
                            0 <= k < w.dependencies.len() && w.dependencies[k] == d;
                        if k < n {
                            assert(w.dependencies.take(n)[k] == v.dependencies[k]);
                        }
                    }
                    if v.dependencies.contains(d) {
                        let k = choose|k: int|
                            0 <= k < v.dependencies.len() && v.dependencies[k] == d;
                        assert(w.dependencies.take(n)[k] == w.dependencies[k]);
                    }
                }
                if depends(v, on, t) {
                    let d = choose|d: DependencyView| #[trigger]
                        v.dependencies.contains(d) && d.depends_on_id == on && d.dep_type == t;
                    assert(w.dependencies.contains(d));
                }
                if describes_dependency(last, prefix, on, t) {
                    assert(w.dependencies.contains(w.dependencies[n]));
                }
                if depends(w, on, t) {
                    let d = choose|d: DependencyView| #[trigger]
                        w.dependencies.contains(d) && d.depends_on_id == on && d.dep_type == t;
                    assert(v.dependencies.contains(d) || d == w.dependencies[n]);
                }
            }
        }
        if forall|k: int|
            0 <= k < deps.len() ==> (#[trigger] deps[k]).member_text("depends_on_id"@) is None
                || deps[k].member_text("type"@) is None {
            assert forall|k: int| 0 <= k < front.len() implies (#[trigger] front[k]).member_text(
                "depends_on_id"@,
            ) is None || front[k].member_text("type"@) is None by {
                assert(front[k] == deps[k]);
            }
        }
    }
}

/// A value is left out where it has no id, or there is an issue under the id already. Any other
/// becomes an issue with what the value says: title, description, state, priority, type, the
/// times and why it was closed, and a dependency for each that it describes and no others.
/// What the value does not say is as in a new issue.
#[verifier::spinoff_prover]
#[verifier::rlimit(40)]
pub proof fn imported_issues_keep_their_content(
    entries: Seq<IssueView>,
    value: JsonView,
    prefix: Seq<char>,
    now: Timestamp,
    on: Seq<char>,
    t: DependencyType,
)
    ensures
        ({
            let id = value.member_text("id"@);
            let r = import_of(entries, value, prefix, now);
            let taken = exists|k: int|
                0 <= k < entries.len() && (#[trigger] entries[k]).id == renamed(id->0, prefix);
            &&& r is Some <==> id is Some && id->0.len() > 0 && !taken
            &&& r matches Some(i) ==> {
                &&& i.id == renamed(id->0, prefix)
                &&& value.member_text("title"@) matches Some(s) ==> i.title == s
                &&& value.member_text("title"@) is None ==> i.title == "Untitled"@
                &&& i.description == value.member_text("description"@)
                &&& forall|s: Status|
                    value.member_text("status"@) == Some(#[trigger] s.name()) ==> i.status == s
                &&& value.member_text("status"@) is None ==> i.status == Status::Open
                &&& forall|s: IssueType|
                    value.member_text("issue_type"@) == Some(#[trigger] s.name())
                        ==> i.issue_type == s
                &&& value.member_text("issue_type"@) is None ==> i.issue_type == IssueType::Task
                &&& value.member_uint("priority"@) matches Some(n) ==> n <= 255 ==> i.priority as u64
                    == n
                &&& value.member_uint("priority"@) is None ==> i.priority == 2
                &&& i.close_reason == value.member_text("close_reason"@)
                &&& i.created_at == (match value.member_text("created_at"@) {
                    Some(s) => match rfc3339_instant(s) {
                        Some(at) => at,
                        None => now,
                    },
                    None => now,
                })
                &&& i.closed_at == (match value.member_text("closed_at"@) {
                    Some(s) => rfc3339_instant(s),
                    None => None,
                })
                &&& depends(i, on, t) <==> value.member_items("dependencies"@) is Some
                    && exists|k: int|
                    0 <= k < value.member_items("dependencies"@)->0.len() && describes_dependency(
                        #[trigger] value.member_items("dependencies"@)->0[k],
                        prefix,
                        on,
                        t,
                    )
                &&& value.member_items("dependencies"@) is None ==> i.updated_at == (
                match value.member_text("updated_at"@) {
                    Some(s) => match rfc3339_instant(s) {
                        Some(at) => at,
                        None => now,
                    },
                    None => now,
                })
            }
        }),
{
    let id = value.member_text("id"@);
    if id is Some {
        lemma_index_of(entries, renamed(id->0, prefix));
    }
    if import_of(entries, value, prefix, now) is Some {
        let i = import_of(entries, value, prefix, now)->0;
        assert forall|s: Status| value.member_text("status"@) == Some(
            #[trigger] s.name(),
        ) implies Status::parsed(s.name()) == Some(s) by {
            status_names_read_back(s);
        }
        assert forall|s: IssueType| value.member_text("issue_type"@) == Some(
            #[trigger] s.name(),
        ) implies IssueType::parsed(s.name()) == Some(s) by {
            issue_type_names_read_back(s);
        }
        let times = times_in(value);
        let key = renamed(id->0, prefix);
        let title = match value.member_text("title"@) {
            Some(t) => t,
            None => "Untitled"@,
        };
        let base = fresh_issue(key, title, now);
        let plain = IssueView {
            description: value.member_text("description"@),
            status: match value.member_text("status"@) {
                Some(s) => match Status::parsed(s) {
                    Some(x) => x,
                    None => Status::Open,
                },
                None => base.status,
            },
            priority: match value.member_uint("priority"@) {
                Some(p) => p as u8,
                None => base.priority,
            },
            issue_type: match value.member_text("issue_type"@) {
                Some(s) => match IssueType::parsed(s) {
                    Some(x) => x,
                    None => IssueType::Task,
                },
                None => base.issue_type,
            },
            created_at: match times.created_at {
                Some(t) => t,
                None => base.created_at,
            },
            updated_at: match times.updated_at {
                Some(t) => t,
                None => base.updated_at,
            },
            closed_at: times.closed_at,
            close_reason: value.member_text("close_reason"@),
            ..base
        };
        assert(!depends(plain, on, t));
        match value.member_items("dependencies"@) {
            Some(deps) => {
                lemma_imported_deps(plain, deps, prefix, now, on, t);
            },
            None => {},
        }
    }
}

} // verus!
