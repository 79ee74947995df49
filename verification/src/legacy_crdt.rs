//! Reads issues from the documents of the earlier layout, one Automerge document for each
//! issue. Nothing is ever written in that layout.
use crate::error::{Error, ErrorView};
use crate::issue::{
    fresh_issue, Dependency, DependencyType, DependencyView, Issue, IssueType, IssueView, Status,
};
use crate::text::{concat, ends_in, ends_with};
use crate::time::{rfc3339_instant, Timestamp};
use automerge::ReadDoc;
use vstd::prelude::*;

verus! {

/// A document of the `automerge` crate.
#[verifier::external_type_specification]
#[verifier::external_body]
pub struct ExAutoCommit(automerge::AutoCommit);

/// An item of a list: its text, where it is a text, whether it is a map, and the texts under
/// its keys, where it is one.
pub struct ItemView {
    pub text: Option<Seq<char>>,
    pub is_map: bool,
    pub fields: Map<Seq<char>, Seq<char>>,
}

impl ItemView {
    /// The text under a key; only a map has any.
    pub open spec fn field(self, key: Seq<char>) -> Option<Seq<char>> {
        if self.is_map {
            entry(self.fields, key)
        } else {
            None
        }
    }
}

/// The part of a document that is read: the entries of its root that are texts, those that
/// can be taken for an integer, and the items under each key.
pub struct DocumentView {
    pub texts: Map<Seq<char>, Seq<char>>,
    pub ints: Map<Seq<char>, i64>,
    pub lists: Map<Seq<char>, Seq<ItemView>>,
}

impl DocumentView {
    pub open spec fn text(self, key: Seq<char>) -> Option<Seq<char>> {
        entry(self.texts, key)
    }

    pub open spec fn integer(self, key: Seq<char>) -> Option<i64> {
        entry(self.ints, key)
    }

    /// The items under a key; none where there is no list.
    pub open spec fn items(self, key: Seq<char>) -> Seq<ItemView> {
        match entry(self.lists, key) {
            Some(items) => items,
            None => seq![],
        }
    }

    /// The instant that the text under a key stands for.
    pub open spec fn instant(self, key: Seq<char>) -> Option<Timestamp> {
        match self.text(key) {
            Some(s) => rfc3339_instant(s),
            None => None,
        }
    }
}

pub open spec fn entry<K, V>(m: Map<K, V>, key: K) -> Option<V> {
    if m.dom().contains(key) {
        Some(m[key])
    } else {
        None
    }
}

/// What an `automerge::AutoCommit` holds.
pub uninterp spec fn document_of(doc: automerge::AutoCommit) -> DocumentView;

/// What `automerge::AutoCommit::load` reads from the bytes of a saved document, or its
/// message.
pub uninterp spec fn loaded_document(bytes: Seq<u8>) -> Result<DocumentView, Seq<char>>;

/// Whether every operation of a document is one that Automerge could have made on what stood
/// there before: under a text in a map or a table, at an element in a list or a text. On
/// another operation Automerge panics, as soon as it comes across it.
pub uninterp spec fn is_sound(doc: automerge::AutoCommit) -> bool;

/// The byte strings that spell out the operations of a document, its checksums included.
pub uninterp spec fn spellings(doc: automerge::AutoCommit) -> Set<Seq<u8>>;

/// The bytes spell out no document but a sound one. Bytes that are no document at all, or that
/// fail their checksums, are among these; left out are only bytes that were made up, with
/// their checksums, to hold an operation that Automerge does not make.
pub open spec fn is_readable(bytes: Seq<u8>) -> bool {
    forall|doc: automerge::AutoCommit| #[trigger]
        spellings(doc).contains(bytes) ==> is_sound(doc)
}

/// `automerge::AutoCommit::load`: the document in those bytes, or why there is none. Both
/// depend on the bytes alone. Bytes that are no document, or that fail their checksums, are
/// refused. Whether each operation fits its object is not looked at: bytes with one that does
/// not are left out, so that the document is sound.
#[verifier::external_body]
fn load_document(bytes: &Vec<u8>) -> (r: Result<automerge::AutoCommit, String>)
    requires
        is_readable(bytes@),
    ensures
        match r {
            Ok(doc) => loaded_document(bytes@) == Ok::<DocumentView, Seq<char>>(document_of(doc))
                && spellings(doc).contains(bytes@) && is_sound(doc),
            Err(message) => loaded_document(bytes@) == Err::<DocumentView, Seq<char>>(message@),
        },
{
    automerge::AutoCommit::load(bytes).map_err(|e| e.to_string())
}

/// `automerge::ReadDoc::get` under a key of the root, and `automerge::Value::to_str`: the
/// text there.
#[verifier::external_body]
fn get_str(doc: &automerge::AutoCommit, key: &str) -> (r: Option<String>)
    requires
        is_sound(*doc),
    ensures
        r.deep_view() == document_of(*doc).text(key@),
{
    let (v, _) = doc.get(automerge::ROOT, key).ok()??;
    v.to_str().map(|s| s.to_string())
}

/// `automerge::ReadDoc::get` under a key of the root, and `automerge::Value::to_i64`: the
/// integer there.
#[verifier::external_body]
fn get_i64(doc: &automerge::AutoCommit, key: &str) -> (r: Option<i64>)
    requires
        is_sound(*doc),
    ensures
        r == document_of(*doc).integer(key@),
{
    let (v, _) = doc.get(automerge::ROOT, key).ok()??;
    v.to_i64()
}

/// `automerge::ReadDoc::length` of what stands under a key of the root: the number of its
/// items, 0 where there is nothing or no object.
#[verifier::external_body]
fn list_len(doc: &automerge::AutoCommit, key: &str) -> (r: usize)
    requires
        is_sound(*doc),
    ensures
        r == document_of(*doc).items(key@).len(),
{
    match doc.get(automerge::ROOT, key) {
        Ok(Some((_, list))) => doc.length(&list),
        _ => 0,
    }
}

/// `automerge::ReadDoc::get` at an index of a list below the root: the text there.
#[verifier::external_body]
fn list_text(doc: &automerge::AutoCommit, key: &str, i: usize) -> (r: Option<String>)
    requires
        is_sound(*doc),
        i < document_of(*doc).items(key@).len(),
    ensures
        r.deep_view() == document_of(*doc).items(key@)[i as int].text,
{
    let (_, list) = doc.get(automerge::ROOT, key).ok()??;
    let (v, _) = doc.get(&list, i).ok()??;
    v.to_str().map(|s| s.to_string())
}

/// `automerge::ReadDoc::object_type` of an item of a list below the root: whether it is an
/// object whose entries stand under texts, a map or a table.
#[verifier::external_body]
fn list_is_map(doc: &automerge::AutoCommit, key: &str, i: usize) -> (r: bool)
    requires
        is_sound(*doc),
        i < document_of(*doc).items(key@).len(),
    ensures
        r == document_of(*doc).items(key@)[i as int].is_map,
{
    let Ok(Some((_, list))) = doc.get(automerge::ROOT, key) else { return false };
    let Ok(Some((_, item))) = doc.get(&list, i) else { return false };
    match doc.object_type(&item) {
        Ok(automerge::ObjType::Map) => true,
        Ok(automerge::ObjType::Table) => true,
        _ => false,
    }
}

/// `automerge::ReadDoc::get` under a key of a map in a list below the root: the text there.
/// Only maps are asked: under a text, a list is no object that Automerge can search.
#[verifier::external_body]
fn list_field(doc: &automerge::AutoCommit, key: &str, i: usize, field: &str) -> (r: Option<String>)
    requires
        is_sound(*doc),
        i < document_of(*doc).items(key@).len(),
        document_of(*doc).items(key@)[i as int].is_map,
    ensures
        r.deep_view() == entry(document_of(*doc).items(key@)[i as int].fields, field@),
{
    let (_, list) = doc.get(automerge::ROOT, key).ok()??;
    let (_, item) = doc.get(&list, i).ok()??;
    let (v, _) = doc.get(&item, field).ok()??;
    v.to_str().map(|s| s.to_string())
}

/// A dependency as a document holds it.
pub struct LegacyDependency {
    pub issue_id: Option<String>,
    pub depends_on_id: Option<String>,
    pub dep_type: Option<String>,
    pub created_at: Option<Timestamp>,
    pub created_by: Option<String>,
}

pub struct LegacyDependencyView {
    pub issue_id: Option<Seq<char>>,
    pub depends_on_id: Option<Seq<char>>,
    pub dep_type: Option<Seq<char>>,
    pub created_at: Option<Timestamp>,
    pub created_by: Option<Seq<char>>,
}

impl DeepView for LegacyDependency {
    type V = LegacyDependencyView;

    open spec fn deep_view(&self) -> LegacyDependencyView {
        LegacyDependencyView {
            issue_id: self.issue_id.deep_view(),
            depends_on_id: self.depends_on_id.deep_view(),
            dep_type: self.dep_type.deep_view(),
            created_at: self.created_at,
            created_by: self.created_by.deep_view(),
        }
    }
}

/// The fields of an issue as a document holds them.
pub struct LegacyFields {
    pub id: Option<String>,
    pub title: Option<String>,
    pub description: Option<String>,
    pub status: Option<String>,
    pub priority: Option<i64>,
    pub issue_type: Option<String>,
    pub created_at: Option<Timestamp>,
    pub updated_at: Option<Timestamp>,
    pub closed_at: Option<Timestamp>,
    pub deleted_at: Option<Timestamp>,
    pub assignee: Option<String>,
    pub close_reason: Option<String>,
    pub notes: Option<String>,
    pub created_by: Option<String>,
    pub deleted_by: Option<String>,
    pub delete_reason: Option<String>,
    pub original_type: Option<String>,
    pub sessions: Vec<String>,
    pub labels: Vec<String>,
    pub dependencies: Vec<LegacyDependency>,
}

/// The texts among some items, in order.
pub open spec fn item_texts(items: Seq<ItemView>) -> Seq<Seq<char>>
    decreases items.len(),
{
    if items.len() == 0 {
        seq![]
    } else {
        match items.last().text {
            Some(s) => item_texts(items.drop_last()).push(s),
            None => item_texts(items.drop_last()),
        }
    }
}

pub open spec fn item_dependency(item: ItemView) -> LegacyDependencyView {
    LegacyDependencyView {
        issue_id: item.field("issue_id"@),
        depends_on_id: item.field("depends_on_id"@),
        dep_type: item.field("type"@),
        created_at: match item.field("created_at"@) {
            Some(s) => rfc3339_instant(s),
            None => None,
        },
        created_by: item.field("created_by"@),
    }
}

/// The fields are those of the document.
pub open spec fn are_fields_of(f: LegacyFields, d: DocumentView) -> bool {
    &&& f.id.deep_view() == d.text("id"@)
    &&& f.title.deep_view() == d.text("title"@)
    &&& f.description.deep_view() == d.text("description"@)
    &&& f.status.deep_view() == d.text("status"@)
    &&& f.priority == d.integer("priority"@)
    &&& f.issue_type.deep_view() == d.text("issue_type"@)
    &&& f.created_at == d.instant("created_at"@)
    &&& f.updated_at == d.instant("updated_at"@)
    &&& f.closed_at == d.instant("closed_at"@)
    &&& f.deleted_at == d.instant("deleted_at"@)
    &&& f.assignee.deep_view() == d.text("assignee"@)
    &&& f.close_reason.deep_view() == d.text("close_reason"@)
    &&& f.notes.deep_view() == d.text("notes"@)
    &&& f.created_by.deep_view() == d.text("created_by"@)
    &&& f.deleted_by.deep_view() == d.text("deleted_by"@)
    &&& f.delete_reason.deep_view() == d.text("delete_reason"@)
    &&& f.original_type.deep_view() == d.text("original_type"@)
    &&& f.sessions.deep_view() == item_texts(d.items("sessions"@))
    &&& f.labels.deep_view() == item_texts(d.items("labels"@))
    &&& f.dependencies.deep_view() == Seq::new(
        d.items("dependencies"@).len(),
        |i: int| item_dependency(d.items("dependencies"@)[i]),
    )
}

fn instant_of(s: Option<String>) -> (r: Option<Timestamp>)
    ensures
        r == (match s.deep_view() {
            Some(t) => rfc3339_instant(t),
            None => None,
        }),
{
    match s {
        Some(t) => Timestamp::parse_rfc3339(&t),
        None => None,
    }
}

fn get_datetime(doc: &automerge::AutoCommit, key: &str) -> (r: Option<Timestamp>)
    requires
        is_sound(*doc),
    ensures
        r == document_of(*doc).instant(key@),
{
    instant_of(get_str(doc, key))
}

fn get_texts(doc: &automerge::AutoCommit, key: &str) -> (r: Vec<String>)
    requires
        is_sound(*doc),
    ensures
        r.deep_view() == item_texts(document_of(*doc).items(key@)),
{
    let ghost items = document_of(*doc).items(key@);
    let n = list_len(doc, key);
    let mut r: Vec<String> = Vec::new();
    let mut i: usize = 0;
    assert(r.deep_view() =~= item_texts(items.take(0)));
    while i < n
        invariant
            i <= n,
            is_sound(*doc),
            items == document_of(*doc).items(key@),
            n == items.len(),
            r.deep_view() == item_texts(items.take(i as int)),
        decreases n - i,
    {
        let ghost before = r.deep_view();
        assert(items.take(i + 1).drop_last() =~= items.take(i as int));
        match list_text(doc, key, i) {
            Some(s) => {
                r.push(s);
                assert(r.deep_view() =~= before.push(s@));
            },
            None => {},
        }
        i += 1;
    }
    assert(items.take(items.len() as int) =~= items);
    r
}

/// The text under a key of an item; nothing where the item is no map.
fn item_field(doc: &automerge::AutoCommit, key: &str, i: usize, field: &str) -> (r: Option<String>)
    requires
        is_sound(*doc),
        i < document_of(*doc).items(key@).len(),
    ensures
        r.deep_view() == document_of(*doc).items(key@)[i as int].field(field@),
{
    if list_is_map(doc, key, i) {
        list_field(doc, key, i, field)
    } else {
        None
    }
}

fn get_dependencies(doc: &automerge::AutoCommit) -> (r: Vec<LegacyDependency>)
    requires
        is_sound(*doc),
    ensures
        ({
            let items = document_of(*doc).items("dependencies"@);
            r.deep_view() == Seq::new(items.len(), |i: int| item_dependency(items[i]))
        }),
{
    let ghost items = document_of(*doc).items("dependencies"@);
    let n = list_len(doc, "dependencies");
    let mut r: Vec<LegacyDependency> = Vec::new();
    let mut i: usize = 0;
    while i < n
        invariant
            i <= n,
            is_sound(*doc),
            items == document_of(*doc).items("dependencies"@),
            n == items.len(),
            r.len() == i,
            forall|j: int| 0 <= j < i ==> (#[trigger] r@[j]).deep_view() == item_dependency(items[j]),
        decreases n - i,
    {
        r.push(
            LegacyDependency {
                issue_id: item_field(doc, "dependencies", i, "issue_id"),
                depends_on_id: item_field(doc, "dependencies", i, "depends_on_id"),
                dep_type: item_field(doc, "dependencies", i, "type"),
                created_at: instant_of(item_field(doc, "dependencies", i, "created_at")),
                created_by: item_field(doc, "dependencies", i, "created_by"),
            },
        );
        i += 1;
    }
    assert(r.deep_view() =~= Seq::new(items.len(), |i: int| item_dependency(items[i])));
    r
}

/// Reads the fields of an issue from a document.
pub fn read_fields(doc: &automerge::AutoCommit) -> (r: LegacyFields)
    requires
        is_sound(*doc),
    ensures
        are_fields_of(r, document_of(*doc)),
{
    LegacyFields {
        id: get_str(doc, "id"),
        title: get_str(doc, "title"),
        description: get_str(doc, "description"),
        status: get_str(doc, "status"),
        priority: get_i64(doc, "priority"),
        issue_type: get_str(doc, "issue_type"),
        created_at: get_datetime(doc, "created_at"),
        updated_at: get_datetime(doc, "updated_at"),
        closed_at: get_datetime(doc, "closed_at"),
        deleted_at: get_datetime(doc, "deleted_at"),
        assignee: get_str(doc, "assignee"),
        close_reason: get_str(doc, "close_reason"),
        notes: get_str(doc, "notes"),
        created_by: get_str(doc, "created_by"),
        deleted_by: get_str(doc, "deleted_by"),
        delete_reason: get_str(doc, "delete_reason"),
        original_type: get_str(doc, "original_type"),
        sessions: get_texts(doc, "sessions"),
        labels: get_texts(doc, "labels"),
        dependencies: get_dependencies(doc),
    }
}

/// The dependencies that have both ends. A type that is missing or unknown is taken for
/// blocking, a missing time for `now`.
pub open spec fn legacy_dependencies(
    deps: Seq<LegacyDependencyView>,
    now: Timestamp,
) -> Seq<DependencyView>
    decreases deps.len(),
{
    if deps.len() == 0 {
        seq![]
    } else {
        let d = deps.last();
        let rest = legacy_dependencies(deps.drop_last(), now);
        match (d.issue_id, d.depends_on_id) {
            (Some(issue_id), Some(depends_on_id)) => rest.push(
                DependencyView {
                    issue_id,
                    depends_on_id,
                    dep_type: match d.dep_type {
                        Some(t) => match DependencyType::parsed(t) {
                            Some(x) => x,
                            None => DependencyType::Blocks,
                        },
                        None => DependencyType::Blocks,
                    },
                    created_at: match d.created_at {
                        Some(t) => t,
                        None => now,
                    },
                    created_by: d.created_by,
                },
            ),
            _ => rest,
        }
    }
}

/// The issue that the fields of a document describe. What is missing is as in an issue
/// made at `now`; a state or type that is unknown is open, or a task. Of the priority the
/// lowest eight bits are kept.
pub open spec fn legacy_issue(
    id: Seq<char>,
    title: Seq<char>,
    f: LegacyFields,
    now: Timestamp,
) -> IssueView {
    let base = fresh_issue(id, title, now);
    IssueView {
        description: f.description.deep_view(),
        status: match f.status.deep_view() {
            Some(s) => match Status::parsed(s) {
                Some(x) => x,
                None => Status::Open,
            },
            None => base.status,
        },
        priority: match f.priority {
            Some(n) => n as u8,
            None => base.priority,
        },
        issue_type: match f.issue_type.deep_view() {
            Some(s) => match IssueType::parsed(s) {
                Some(x) => x,
                None => IssueType::Task,
            },
            None => base.issue_type,
        },
        created_at: match f.created_at {
            Some(t) => t,
            None => base.created_at,
        },
        updated_at: match f.updated_at {
            Some(t) => t,
            None => base.updated_at,
        },
        closed_at: f.closed_at,
        deleted_at: f.deleted_at,
        assignee: f.assignee.deep_view(),
        close_reason: f.close_reason.deep_view(),
        notes: f.notes.deep_view(),
        created_by: f.created_by.deep_view(),
        deleted_by: f.deleted_by.deep_view(),
        delete_reason: f.delete_reason.deep_view(),
        original_type: f.original_type.deep_view(),
        sessions: f.sessions.deep_view(),
        labels: f.labels.deep_view(),
        dependencies: legacy_dependencies(f.dependencies.deep_view(), now),
        ..base
    }
}

fn convert_dependencies(deps: &Vec<LegacyDependency>, now: Timestamp) -> (r: Vec<Dependency>)
    ensures
        r.deep_view() == legacy_dependencies(deps.deep_view(), now),
{
    let ghost d = deps.deep_view();
    let mut r: Vec<Dependency> = Vec::new();
    let mut i: usize = 0;
    assert(r.deep_view() =~= legacy_dependencies(d.take(0), now));
    while i < deps.len()
        invariant
            i <= deps.len(),
            d == deps.deep_view(),
            r.deep_view() == legacy_dependencies(d.take(i as int), now),
        decreases deps.len() - i,
    {
        let ghost before = r.deep_view();
        assert(d.take(i + 1).drop_last() =~= d.take(i as int));
        assert(d.take(i + 1).last() == deps@[i as int].deep_view());
        let dep = &deps[i];
        match (&dep.issue_id, &dep.depends_on_id) {
            (Some(issue_id), Some(depends_on_id)) => {
                let dep_type = match &dep.dep_type {
                    Some(t) => match DependencyType::parse(t) {
                        Some(x) => x,
                        None => DependencyType::Blocks,
                    },
                    None => DependencyType::Blocks,
                };
                let created_at = match dep.created_at {
                    Some(t) => t,
                    None => now,
                };
                let x = Dependency {
                    issue_id: issue_id.clone(),
                    depends_on_id: depends_on_id.clone(),
                    dep_type,
                    created_at,
                    created_by: dep.created_by.clone(),
                };
                let ghost xv = x@;
                r.push(x);
                assert(r.deep_view() =~= before.push(xv));
            },
            _ => {},
        }
        i += 1;
    }
    assert(d.take(d.len() as int) =~= d);
    r
}

/// The issue that the fields of a document describe, read at `now`.
pub fn fields_to_issue(f: LegacyFields, now: Timestamp) -> (r: Result<Issue, Error>)
    ensures
        match (f.id.deep_view(), f.title.deep_view()) {
            (None, _) => r is Err && r->Err_0@ == ErrorView::Other("Missing id field"@),
            (Some(_), None) => r is Err && r->Err_0@ == ErrorView::Other("Missing title field"@),
            (Some(id), Some(title)) => r is Ok && r->Ok_0@ == legacy_issue(id, title, f, now),
        },
{
    let id = match f.id {
        Some(id) => id,
        None => return Err(Error::Other("Missing id field".to_owned())),
    };
    let title = match f.title {
        Some(title) => title,
        None => return Err(Error::Other("Missing title field".to_owned())),
    };
    let mut issue = Issue::new_at(id, title, now);
    issue.description = f.description;
    if let Some(s) = &f.status {
        issue.status = match Status::parse(s) {
            Ok(x) => x,
            Err(_) => Status::Open,
        };
    }
    if let Some(n) = f.priority {
        issue.priority = #[verifier::truncate] (n as u8);
    }
    if let Some(s) = &f.issue_type {
        issue.issue_type = match IssueType::parse(s) {
            Ok(x) => x,
            Err(_) => IssueType::Task,
        };
    }
    if let Some(t) = f.created_at {
        issue.created_at = t;
    }
    if let Some(t) = f.updated_at {
        issue.updated_at = t;
    }
    issue.closed_at = f.closed_at;
    issue.deleted_at = f.deleted_at;
    issue.assignee = f.assignee;
    issue.close_reason = f.close_reason;
    issue.notes = f.notes;
    issue.created_by = f.created_by;
    issue.deleted_by = f.deleted_by;
    issue.delete_reason = f.delete_reason;
    issue.original_type = f.original_type;
    issue.sessions = f.sessions;
    issue.labels = f.labels;
    issue.dependencies = convert_dependencies(&f.dependencies, now);
    Ok(issue)
}

/// The issue in a document, read at `now`.
pub fn doc_to_issue(doc: &automerge::AutoCommit, now: Timestamp) -> (r: Result<Issue, Error>)
    requires
        is_sound(*doc),
    ensures
        match (document_of(*doc).text("id"@), document_of(*doc).text("title"@)) {
            (None, _) => r is Err && r->Err_0@ == ErrorView::Other("Missing id field"@),
            (Some(_), None) => r is Err && r->Err_0@ == ErrorView::Other("Missing title field"@),
            (Some(id), Some(title)) => r is Ok && exists|f: LegacyFields| #[trigger]
                are_fields_of(f, document_of(*doc)) && r->Ok_0@ == legacy_issue(id, title, f, now),
        },
{
    let f = read_fields(doc);
    fields_to_issue(f, now)
}

/// The issue in the bytes of a saved document, read at `now`.
pub fn load_issue_at(bytes: &Vec<u8>, now: Timestamp) -> (r: Result<Issue, Error>)
    requires
        is_readable(bytes@),
    ensures
        match loaded_document(bytes@) {
            Err(message) => r is Err && r->Err_0@ == ErrorView::Other(
                "Failed to load automerge doc: "@ + message,
            ),
            Ok(d) => match (d.text("id"@), d.text("title"@)) {
                (None, _) => r is Err && r->Err_0@ == ErrorView::Other("Missing id field"@),
                (Some(_), None) => r is Err && r->Err_0@ == ErrorView::Other("Missing title field"@),
                (Some(id), Some(title)) => r is Ok && exists|f: LegacyFields| #[trigger]
                    are_fields_of(f, d) && r->Ok_0@ == legacy_issue(id, title, f, now),
            },
        },
{
    match load_document(bytes) {
        Ok(doc) => doc_to_issue(&doc, now),
        Err(message) => Err(
            Error::Other(concat("Failed to load automerge doc: ", &message)),
        ),
    }
}

/// The issue in the bytes of a saved document, read now.
pub fn load_issue(bytes: &Vec<u8>) -> (r: Result<Issue, Error>)
    requires
        is_readable(bytes@),
    ensures
        match loaded_document(bytes@) {
            Err(message) => r is Err && r->Err_0@ == ErrorView::Other(
                "Failed to load automerge doc: "@ + message,
            ),
            Ok(d) => match (d.text("id"@), d.text("title"@)) {
                (None, _) => r is Err && r->Err_0@ == ErrorView::Other("Missing id field"@),
                (Some(_), None) => r is Err && r->Err_0@ == ErrorView::Other("Missing title field"@),
                (Some(id), Some(title)) => r is Ok && exists|f: LegacyFields, now: Timestamp|
                    are_fields_of(f, d) && r->Ok_0@ == #[trigger] legacy_issue(id, title, f, now),
            },
        },
{
    let now = Timestamp::now();
    load_issue_at(bytes, now)
}

/// Whether a file of the legacy directory holds a document: its name ends in `.automerge`
/// after something else.
pub fn is_document_name(name: &str) -> (r: bool)
    ensures
        r == (ends_in(name@, ".automerge"@) && name@ != ".automerge"@),
{
    ends_with(name, ".automerge") && !crate::text::same_text(name, ".automerge")
}

// ------------------------------------------------------------------------- laws

/// Law: the texts of a list are those of its items that are texts, and no other.
pub proof fn texts_of_a_list_are_kept(items: Seq<ItemView>, s: Seq<char>)
    ensures
        item_texts(items).contains(s) <==> exists|k: int|
            0 <= k < items.len() && (#[trigger] items[k]).text == Some(s),
        item_texts(items).len() <= items.len(),
        (forall|k: int| 0 <= k < items.len() ==> (#[trigger] items[k]).text is Some)
            ==> item_texts(items).len() == items.len(),
    decreases items.len(),
{
    if items.len() > 0 {
        let front = items.drop_last();
        let before = item_texts(front);
        texts_of_a_list_are_kept(front, s);
        assert forall|k: int| 0 <= k < front.len() implies #[trigger] front[k] == items[k] by {}
        assert(items[items.len() - 1] == items.last());
        if item_texts(items).contains(s) {
            let m = choose|m: int| 0 <= m < item_texts(items).len() && item_texts(items)[m] == s;
            if m < before.len() {
                assert(before[m] == s);
                let k = choose|k: int| 0 <= k < front.len() && (#[trigger] front[k]).text == Some(s);
                assert(items[k].text == Some(s));
            }
        }
        if exists|k: int| 0 <= k < items.len() && (#[trigger] items[k]).text == Some(s) {
            let k = choose|k: int| 0 <= k < items.len() && (#[trigger] items[k]).text == Some(s);
            if k < front.len() {
                assert(front[k].text == Some(s));
                let m = choose|m: int| 0 <= m < before.len() && before[m] == s;
                assert(item_texts(items)[m] == s);
            } else {
                assert(item_texts(items)[before.len() as int] == s);
            }
        }
        if forall|k: int| 0 <= k < items.len() ==> (#[trigger] items[k]).text is Some {
            assert forall|k: int| 0 <= k < front.len() implies (#[trigger] front[k]).text is Some by {
                assert(items[k].text is Some);
            }
        }
    }
}

/// Law: a dependency is kept if and only if both of its ends are known. Its type, time and
/// author are kept with it.
pub proof fn dependencies_with_two_ends_are_kept(
    deps: Seq<LegacyDependencyView>,
    now: Timestamp,
    k: int,
)
    requires
        0 <= k < deps.len(),
    ensures
        deps[k].issue_id is Some && deps[k].depends_on_id is Some ==> exists|d: DependencyView|
            {
                &&& #[trigger] legacy_dependencies(deps, now).contains(d)
                &&& d.issue_id == deps[k].issue_id->0
                &&& d.depends_on_id == deps[k].depends_on_id->0
                &&& deps[k].dep_type is Some && DependencyType::parsed(deps[k].dep_type->0) is Some
                    ==> d.dep_type == DependencyType::parsed(deps[k].dep_type->0)->0
                &&& deps[k].dep_type is None ==> d.dep_type == DependencyType::Blocks
                &&& deps[k].created_at is Some ==> d.created_at == deps[k].created_at->0
                &&& d.created_by == deps[k].created_by
            },
        (forall|j: int|
            0 <= j < deps.len() ==> (#[trigger] deps[j]).issue_id is None || deps[j].depends_on_id
                is None) ==> legacy_dependencies(deps, now).len() == 0,
        legacy_dependencies(deps, now).len() <= deps.len(),
    decreases deps.len(),
{
    let front = deps.drop_last();
    let before = legacy_dependencies(front, now);
    let r = legacy_dependencies(deps, now);
    assert(deps[deps.len() - 1] == deps.last());
    assert forall|j: int| 0 <= j < front.len() implies #[trigger] front[j] == deps[j] by {}
    if front.len() > 0 {
        dependencies_with_two_ends_are_kept(
            front,
            now,
            if k < front.len() {
                k
            } else {
                0
            },
        );
        if forall|j: int|
            0 <= j < deps.len() ==> (#[trigger] deps[j]).issue_id is None || deps[j].depends_on_id
                is None {
            assert forall|j: int| 0 <= j < front.len() implies (#[trigger] front[j]).issue_id
                is None || front[j].depends_on_id is None by {
                assert(deps[j].issue_id is None || deps[j].depends_on_id is None);
            }
        }
    }
    if deps[k].issue_id is Some && deps[k].depends_on_id is Some {
        if k < front.len() {
            let d = choose|d: DependencyView|
                {
                    &&& #[trigger] before.contains(d)
                    &&& d.issue_id == front[k].issue_id->0
                    &&& d.depends_on_id == front[k].depends_on_id->0
                    &&& front[k].dep_type is Some && DependencyType::parsed(front[k].dep_type->0)
                        is Some ==> d.dep_type == DependencyType::parsed(front[k].dep_type->0)->0
                    &&& front[k].dep_type is None ==> d.dep_type == DependencyType::Blocks
                    &&& front[k].created_at is Some ==> d.created_at == front[k].created_at->0
                    &&& d.created_by == front[k].created_by
                };
            let m = choose|m: int| 0 <= m < before.len() && before[m] == d;
            assert(r[m] == d);
            assert(r.contains(d));
        } else {
            assert(r.contains(r[before.len() as int]));
        }
    }
}

/// Law: what a document holds of an issue is in the issue that is read from it, each entry in
/// the field of its name. Nothing else comes in but what a new issue has.
pub proof fn documents_become_issues(
    d: DocumentView,
    f: LegacyFields,
    id: Seq<char>,
    title: Seq<char>,
    now: Timestamp,
    s: Seq<char>,
)
    ensures
        are_fields_of(f, d) ==> {
            let i = legacy_issue(id, title, f, now);
            &&& i.id == id && i.title == title
            &&& i.description == d.text("description"@)
            &&& i.assignee == d.text("assignee"@)
            &&& i.notes == d.text("notes"@)
            &&& i.close_reason == d.text("close_reason"@)
            &&& i.created_by == d.text("created_by"@)
            &&& i.deleted_by == d.text("deleted_by"@)
            &&& i.delete_reason == d.text("delete_reason"@)
            &&& i.original_type == d.text("original_type"@)
            &&& i.closed_at == d.instant("closed_at"@)
            &&& i.deleted_at == d.instant("deleted_at"@)
            &&& d.instant("created_at"@) is Some ==> i.created_at == d.instant("created_at"@)->0
            &&& d.instant("created_at"@) is None ==> i.created_at == now
            &&& d.instant("updated_at"@) is Some ==> i.updated_at == d.instant("updated_at"@)->0
            &&& d.instant("updated_at"@) is None ==> i.updated_at == now
            &&& d.integer("priority"@) is Some && 0 <= d.integer("priority"@)->0 <= 255
                ==> i.priority == d.integer("priority"@)->0
            &&& d.integer("priority"@) is None ==> i.priority == 2
            &&& d.text("status"@) is None ==> i.status == Status::Open
            &&& d.text("issue_type"@) is None ==> i.issue_type == IssueType::Task
            &&& forall|x: Status| d.text("status"@) == Some(#[trigger] x.name()) ==> i.status == x
            &&& forall|x: IssueType|
                d.text("issue_type"@) == Some(#[trigger] x.name()) ==> i.issue_type == x
            &&& i.labels.contains(s) <==> exists|k: int|
                0 <= k < d.items("labels"@).len() && (#[trigger] d.items("labels"@)[k]).text
                    == Some(s)
            &&& i.sessions.contains(s) <==> exists|k: int|
                0 <= k < d.items("sessions"@).len() && (#[trigger] d.items("sessions"@)[k]).text
                    == Some(s)
        },
{
    texts_of_a_list_are_kept(d.items("labels"@), s);
    texts_of_a_list_are_kept(d.items("sessions"@), s);
    assert forall|x: Status| #[trigger] Status::parsed(x.name()) == Some(x) by {
        crate::issue::status_names_read_back(x);
    }
    assert forall|x: IssueType| #[trigger] IssueType::parsed(x.name()) == Some(x) by {
        crate::issue::issue_type_names_read_back(x);
    }
}

} // verus!
