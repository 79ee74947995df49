//! The tree of what an issue depends on.
use crate::filter::filtering_keeps_what_passes;
use crate::issue::{contains_text, DependencyType, DependencyView, Issue, IssueView, Status};
use crate::query::links_to;
use crate::relations::ids_of;
use crate::store::{
    distinct_ids, index_of, issues_are_found_by_id, listed, listing_leaves_out_the_deleted, lookup,
    Store,
};
use crate::style::{new_line, plain, push_line, push_span, toned, Span, SpanView, Tone};
use crate::text::{concat, same_text};
use vstd::prelude::*;

verus! {

// ------------------------------------------------------------------------ paths

/// The ids on the way from the root of a tree: all of them in the store, none twice.
pub open spec fn is_path(entries: Seq<IssueView>, path: Seq<Seq<char>>) -> bool {
    path.no_duplicates() && forall|i: int|
        0 <= i < path.len() ==> ids_of(entries).contains(#[trigger] path[i])
}

/// How many more issues a path can take up.
pub open spec fn room(entries: Seq<IssueView>, path: Seq<Seq<char>>) -> nat {
    (entries.len() + 1 - path.len()) as nat
}

proof fn lemma_path_fits(entries: Seq<IssueView>, path: Seq<Seq<char>>)
    requires
        is_path(entries, path),
    ensures
        path.len() <= entries.len(),
{
    let ids = ids_of(entries);
    path.unique_seq_to_set();
    ids.lemma_cardinality_of_set();
    assert(path.to_set().subset_of(ids.to_set())) by {
        assert forall|x: Seq<char>| path.to_set().contains(x) implies ids.to_set().contains(x) by {
            let i = choose|i: int| 0 <= i < path.len() && path[i] == x;
            assert(ids.contains(path[i]));
        }
    }
    vstd::set_lib::lemma_len_subset(path.to_set(), ids.to_set());
}

proof fn lemma_path_push(entries: Seq<IssueView>, path: Seq<Seq<char>>, id: Seq<char>)
    requires
        is_path(entries, path),
        !path.contains(id),
        ids_of(entries).contains(id),
    ensures
        is_path(entries, path.push(id)),
        path.len() < entries.len(),
{
    let p = path.push(id);
    assert forall|i: int, j: int| 0 <= i < p.len() && 0 <= j < p.len() && i != j implies p[i]
        != p[j] by {
        if i == path.len() {
            assert(path[j] == p[j]);
        } else if j == path.len() {
            assert(path[i] == p[i]);
        }
    }
    assert forall|i: int| 0 <= i < p.len() implies ids_of(entries).contains(#[trigger] p[i]) by {
        if i < path.len() {
            assert(ids_of(entries).contains(path[i]));
        }
    }
    lemma_path_fits(entries, p);
}

proof fn lemma_lookup_in_ids(entries: Seq<IssueView>, id: Seq<char>)
    requires
        lookup(entries, id) is Some,
    ensures
        ids_of(entries).contains(id),
        (lookup(entries, id)->0).id == id,
{
    crate::store::lemma_index_of(entries, id);
    let k = index_of(entries, id);
    assert(ids_of(entries)[k] == id);
}

// ------------------------------------------------------------------------ lines

/// What a dependency is called in a tree.
pub open spec fn dep_label(t: DependencyType) -> Seq<char> {
    match t {
        DependencyType::Blocks => "blocked by"@,
        DependencyType::ParentChild => "child of"@,
        DependencyType::Related => "related to"@,
    }
}

fn dep_label_text(t: DependencyType) -> (r: &'static str)
    ensures
        r@ == dep_label(t),
{
    match t {
        DependencyType::Blocks => "blocked by",
        DependencyType::ParentChild => "child of",
        DependencyType::Related => "related to",
    }
}

/// The line for a dependency on an issue that is there.
pub open spec fn found_line(
    prefix: Seq<char>,
    is_last: bool,
    d: DependencyView,
    target: IssueView,
) -> Seq<SpanView> {
    seq![
        plain(prefix),
        plain(
            if is_last {
                "└── "@
            } else {
                "├── "@
            },
        ),
        if target.status.spec_is_open() {
            toned(Tone::Yellow, "○"@)
        } else {
            toned(Tone::Green, "●"@)
        },
        plain(" "@),
        toned(Tone::Cyan, d.depends_on_id),
        plain(" "@),
        plain(target.title),
        plain(" ["@),
        toned(Tone::Dim, dep_label(d.dep_type)),
        plain("]"@),
    ]
}

/// The line for a dependency on an issue that is not there.
pub open spec fn missing_line(prefix: Seq<char>, is_last: bool, d: DependencyView) -> Seq<SpanView> {
    seq![
        plain(prefix),
        plain(
            if is_last {
                "└── "@
            } else {
                "├── "@
            },
        ),
        toned(Tone::Red, "✗"@),
        plain(" "@),
        plain(d.depends_on_id),
        plain(" [missing]"@),
    ]
}

/// What stands before the lines below a dependency.
pub open spec fn child_prefix(prefix: Seq<char>, is_last: bool) -> Seq<char> {
    prefix + (if is_last {
        "    "@
    } else {
        "│   "@
    })
}

/// The lines below an issue: one for each dependency, each followed by the lines below it.
/// An issue that is on the way to itself has none.
pub open spec fn tree_lines(
    entries: Seq<IssueView>,
    issue: IssueView,
    prefix: Seq<char>,
    path: Seq<Seq<char>>,
    n: nat,
) -> Seq<Seq<SpanView>>
    decreases n, 0nat,
{
    if n == 0 || path.contains(issue.id) {
        seq![]
    } else {
        deps_lines(
            entries,
            issue.dependencies,
            issue.dependencies.len(),
            prefix,
            path.push(issue.id),
            (n - 1) as nat,
        )
    }
}

/// The lines for the first `k` dependencies.
pub open spec fn deps_lines(
    entries: Seq<IssueView>,
    deps: Seq<DependencyView>,
    k: nat,
    prefix: Seq<char>,
    path: Seq<Seq<char>>,
    n: nat,
) -> Seq<Seq<SpanView>>
    decreases n, k,
{
    if k == 0 {
        seq![]
    } else {
        let d = deps[k - 1];
        let is_last = k == deps.len();
        let before = deps_lines(entries, deps, (k - 1) as nat, prefix, path, n);
        match lookup(entries, d.depends_on_id) {
            Some(target) => before.push(found_line(prefix, is_last, d, target)) + tree_lines(
                entries,
                target,
                child_prefix(prefix, is_last),
                path,
                n,
            ),
            None => before.push(missing_line(prefix, is_last, d)),
        }
    }
}

fn make_found_line(prefix: &str, is_last: bool, d: &crate::issue::Dependency, target: &Issue) -> (r:
    Vec<Span>)
    ensures
        r.deep_view() == found_line(prefix@, is_last, d@, target@),
{
    let mut r = new_line();
    push_span(&mut r, Tone::Plain, prefix);
    push_span(
        &mut r,
        Tone::Plain,
        if is_last {
            "└── "
        } else {
            "├── "
        },
    );
    if target.status.is_open() {
        push_span(&mut r, Tone::Yellow, "○");
    } else {
        push_span(&mut r, Tone::Green, "●");
    }
    push_span(&mut r, Tone::Plain, " ");
    push_span(&mut r, Tone::Cyan, &d.depends_on_id);
    push_span(&mut r, Tone::Plain, " ");
    push_span(&mut r, Tone::Plain, &target.title);
    push_span(&mut r, Tone::Plain, " [");
    push_span(&mut r, Tone::Dim, dep_label_text(d.dep_type));
    push_span(&mut r, Tone::Plain, "]");
    assert(r.deep_view() =~= found_line(prefix@, is_last, d@, target@));
    r
}

fn make_missing_line(prefix: &str, is_last: bool, d: &crate::issue::Dependency) -> (r: Vec<Span>)
    ensures
        r.deep_view() == missing_line(prefix@, is_last, d@),
{
    let mut r = new_line();
    push_span(&mut r, Tone::Plain, prefix);
    push_span(
        &mut r,
        Tone::Plain,
        if is_last {
            "└── "
        } else {
            "├── "
        },
    );
    push_span(&mut r, Tone::Red, "✗");
    push_span(&mut r, Tone::Plain, " ");
    push_span(&mut r, Tone::Plain, &d.depends_on_id);
    push_span(&mut r, Tone::Plain, " [missing]");
    assert(r.deep_view() =~= missing_line(prefix@, is_last, d@));
    r
}

fn copy_path(path: &Vec<String>, id: &str) -> (r: Vec<String>)
    ensures
        r.deep_view() == path.deep_view().push(id@),
{
    let mut r = crate::issue::copy_texts(path);
    let ghost before = r.deep_view();
    r.push(id.to_owned());
    assert(r.deep_view() =~= before.push(id@));
    r
}

fn print_below(store: &Store, issue: &Issue, prefix: &str, path: &Vec<String>) -> (r: Vec<
    Vec<Span>,
>)
    requires
        is_path(store.entries(), path.deep_view()),
        ids_of(store.entries()).contains(issue@.id),
    ensures
        r.deep_view() == tree_lines(
            store.entries(),
            issue@,
            prefix@,
            path.deep_view(),
            room(store.entries(), path.deep_view()),
        ),
    decreases room(store.entries(), path.deep_view()),
{
    let ghost entries = store.entries();
    let mut lines: Vec<Vec<Span>> = Vec::new();
    proof {
        lemma_path_fits(entries, path.deep_view());
        assert(lines.deep_view() =~= seq![]);
    }
    if contains_text(path, &issue.id) {
        return lines;
    }
    let here = copy_path(path, &issue.id);
    proof {
        lemma_path_push(entries, path.deep_view(), issue@.id);
    }
    let ghost n = room(entries, here.deep_view());
    assert(n == (room(entries, path.deep_view()) - 1) as nat);
    let total: usize = issue.dependencies.len();
    let mut k: usize = 0;
    while k < total
        invariant
            k <= total,
            total == issue.dependencies.len(),
            entries == store.entries(),
            is_path(entries, here.deep_view()),
            n == room(entries, here.deep_view()),
            n < room(entries, path.deep_view()),
            lines.deep_view() == deps_lines(
                entries,
                issue@.dependencies,
                k as nat,
                prefix@,
                here.deep_view(),
                n,
            ),
        decreases total - k,
    {
        let ghost before = lines.deep_view();
        let d = &issue.dependencies[k];
        assert(issue@.dependencies[k as int] == d@);
        let is_last = k + 1 == total;
        match store.get(&d.depends_on_id) {
            Some(target) => {
                proof {
                    lemma_lookup_in_ids(entries, d@.depends_on_id);
                }
                push_line(&mut lines, make_found_line(prefix, is_last, d, target));
                let below_prefix = concat(
                    prefix,
                    if is_last {
                        "    "
                    } else {
                        "│   "
                    },
                );
                let mut below = print_below(store, target, &below_prefix, &here);
                let ghost b = below.deep_view();
                let ghost l = lines.deep_view();
                lines.append(&mut below);
                assert(lines.deep_view() =~= l + b);
            },
            None => {
                push_line(&mut lines, make_missing_line(prefix, is_last, d));
            },
        }
        k += 1;
    }
    lines
}

/// The tree of an issue as lines: the issue itself, then what it depends on.
pub open spec fn dep_tree_lines(entries: Seq<IssueView>, issue: IssueView) -> Seq<Seq<SpanView>> {
    seq![
        seq![
            toned(Tone::CyanBold, issue.id),
            plain(" "@),
            toned(Tone::Bold, issue.title),
        ],
    ] + tree_lines(entries, issue, seq![], seq![], entries.len() + 1)
}

/// The tree of an issue of the store, where there is one with that id.
pub fn dep_tree(store: &Store, id: &str) -> (r: Option<Vec<Vec<Span>>>)
    ensures
        match lookup(store.entries(), id@) {
            Some(issue) => r.deep_view() == Some(dep_tree_lines(store.entries(), issue)),
            None => r is None,
        },
{
    match store.get(id) {
        None => None,
        Some(issue) => {
            proof {
                lemma_lookup_in_ids(store.entries(), id@);
            }
            let mut head = new_line();
            push_span(&mut head, Tone::CyanBold, &issue.id);
            push_span(&mut head, Tone::Plain, " ");
            push_span(&mut head, Tone::Bold, &issue.title);
            assert(head.deep_view() =~= seq![
                toned(Tone::CyanBold, issue@.id),
                plain(" "@),
                toned(Tone::Bold, issue@.title),
            ]);
            let mut lines: Vec<Vec<Span>> = Vec::new();
            assert(lines.deep_view() =~= seq![]);
            push_line(&mut lines, head);
            let empty: Vec<String> = Vec::new();
            assert(empty.deep_view() =~= Seq::<Seq<char>>::empty());
            let no_prefix = String::new();
            assert(no_prefix@ =~= Seq::<char>::empty());
            let mut below = print_below(store, issue, &no_prefix, &empty);
            let ghost b = below.deep_view();
            let ghost l = lines.deep_view();
            lines.append(&mut below);
            assert(lines.deep_view() =~= l + b);
            assert(l =~= seq![head.deep_view()]);
            Some(lines)
        },
    }
}

// ------------------------------------------------------------------------- nodes

/// An issue that depends on another, and how.
pub struct Dependent {
    pub id: String,
    pub title: String,
    pub dep_type: DependencyType,
}

pub struct DependentView {
    pub id: Seq<char>,
    pub title: Seq<char>,
    pub dep_type: DependencyType,
}

impl DeepView for Dependent {
    type V = DependentView;

    open spec fn deep_view(&self) -> DependentView {
        DependentView { id: self.id@, title: self.title@, dep_type: self.dep_type }
    }
}

/// A node of the tree. Where `cycle` holds, the issue is on the way to itself and the node
/// ends there.
pub struct DepNode {
    pub id: String,
    pub title: String,
    pub status: Status,
    pub cycle: bool,
    /// How the node above depends on this one.
    pub dep_type: Option<DependencyType>,
    pub depends_on: Vec<DepNode>,
    pub depended_on_by: Vec<Dependent>,
}

/// The dependencies whose target is in the store.
pub open spec fn found_deps(entries: Seq<IssueView>, deps: Seq<DependencyView>) -> Seq<
    DependencyView,
> {
    deps.filter(|d: DependencyView| lookup(entries, d.depends_on_id) is Some)
}

/// The type of the first dependency on `id`.
pub open spec fn first_dep_type(deps: Seq<DependencyView>, id: Seq<char>) -> Option<DependencyType>
    decreases deps.len(),
{
    if deps.len() == 0 {
        None
    } else if deps[0].depends_on_id == id {
        Some(deps[0].dep_type)
    } else {
        first_dep_type(deps.drop_first(), id)
    }
}

/// The issues that depend on `id`, and how.
pub open spec fn dependents_of(all: Seq<IssueView>, id: Seq<char>) -> Seq<DependentView>
    decreases all.len(),
{
    if all.len() == 0 {
        seq![]
    } else {
        let before = dependents_of(all.drop_last(), id);
        match first_dep_type(all.last().dependencies, id) {
            Some(t) => before.push(
                DependentView { id: all.last().id, title: all.last().title, dep_type: t },
            ),
            None => before,
        }
    }
}

/// The node is the tree of the issue.
pub open spec fn is_tree_of(
    node: DepNode,
    entries: Seq<IssueView>,
    issue: IssueView,
    path: Seq<Seq<char>>,
    n: nat,
) -> bool
    decreases n,
{
    &&& node.id@ == issue.id
    &&& node.title@ == issue.title
    &&& node.status == issue.status
    &&& node.cycle == path.contains(issue.id)
    &&& if path.contains(issue.id) {
        node.depends_on@.len() == 0 && node.depended_on_by@.len() == 0
    } else {
        let found = found_deps(entries, issue.dependencies);
        &&& n > 0
        &&& node.depends_on@.len() == found.len()
        &&& forall|i: int|
            0 <= i < found.len() ==> (#[trigger] node.depends_on@[i]).dep_type == Some(
                found[i].dep_type,
            ) && is_tree_of(
                node.depends_on@[i],
                entries,
                lookup(entries, found[i].depends_on_id)->0,
                path.push(issue.id),
                (n - 1) as nat,
            )
        &&& node.depended_on_by.deep_view() == dependents_of(listed(entries, false), issue.id)
    }
}

fn dep_type_on(issue: &Issue, id: &str) -> (r: Option<DependencyType>)
    ensures
        r == first_dep_type(issue@.dependencies, id@),
{
    let ghost deps = issue@.dependencies;
    let mut i: usize = 0;
    assert(deps.skip(0) =~= deps);
    while i < issue.dependencies.len()
        invariant
            i <= issue.dependencies.len(),
            deps == issue@.dependencies,
            first_dep_type(deps, id@) == first_dep_type(deps.skip(i as int), id@),
        decreases issue.dependencies.len() - i,
    {
        assert(deps[i as int] == issue.dependencies@[i as int]@);
        assert(deps.skip(i as int).drop_first() =~= deps.skip(i + 1));
        if same_text(&issue.dependencies[i].depends_on_id, id) {
            return Some(issue.dependencies[i].dep_type);
        }
        i += 1;
    }
    None
}

fn find_dependents_of(store: &Store, id: &str) -> (r: Vec<Dependent>)
    ensures
        r.deep_view() == dependents_of(listed(store.entries(), false), id@),
{
    let all = store.list(false);
    let ghost d = all.deep_view();
    let mut r: Vec<Dependent> = Vec::new();
    let mut i: usize = 0;
    assert(r.deep_view() =~= dependents_of(d.take(0), id@));
    while i < all.len()
        invariant
            i <= all.len(),
            d == all.deep_view(),
            r.deep_view() == dependents_of(d.take(i as int), id@),
        decreases all.len() - i,
    {
        let ghost before = r.deep_view();
        assert(d.take(i + 1).drop_last() =~= d.take(i as int));
        assert(d.take(i + 1).last() == all@[i as int]@);
        match dep_type_on(all[i], id) {
            Some(t) => {
                let x = Dependent { id: all[i].id.clone(), title: all[i].title.clone(), dep_type: t };
                let ghost xv = x.deep_view();
                r.push(x);
                assert(r.deep_view() =~= before.push(xv));
            },
            None => {},
        }
        i += 1;
    }
    assert(d.take(d.len() as int) =~= d);
    r
}

fn build_node(store: &Store, issue: &Issue, path: &Vec<String>) -> (r: DepNode)
    requires
        is_path(store.entries(), path.deep_view()),
        ids_of(store.entries()).contains(issue@.id),
    ensures
        is_tree_of(
            r,
            store.entries(),
            issue@,
            path.deep_view(),
            room(store.entries(), path.deep_view()),
        ),
        r.dep_type is None,
    decreases room(store.entries(), path.deep_view()),
{
    let ghost entries = store.entries();
    proof {
        lemma_path_fits(entries, path.deep_view());
    }
    if contains_text(path, &issue.id) {
        return DepNode {
            id: issue.id.clone(),
            title: issue.title.clone(),
            status: issue.status,
            cycle: true,
            dep_type: None,
            depends_on: Vec::new(),
            depended_on_by: Vec::new(),
        };
    }
    let here = copy_path(path, &issue.id);
    proof {
        lemma_path_push(entries, path.deep_view(), issue@.id);
    }
    let ghost n = room(entries, here.deep_view());
    let ghost deps = issue@.dependencies;
    let ghost f = |d: DependencyView| lookup(entries, d.depends_on_id) is Some;
    let mut kids: Vec<DepNode> = Vec::new();
    let mut k: usize = 0;
    proof {
        reveal(Seq::filter);
        assert(deps.take(0) =~= seq![]);
    }
    while k < issue.dependencies.len()
        invariant
            k <= issue.dependencies.len(),
            entries == store.entries(),
            deps == issue@.dependencies,
            f == (|d: DependencyView| lookup(entries, d.depends_on_id) is Some),
            is_path(entries, here.deep_view()),
            n == room(entries, here.deep_view()),
            n < room(entries, path.deep_view()),
            kids@.len() == deps.take(k as int).filter(f).len(),
            forall|i: int|
                0 <= i < kids@.len() ==> (#[trigger] kids@[i]).dep_type == Some(
                    deps.take(k as int).filter(f)[i].dep_type,
                ) && is_tree_of(
                    kids@[i],
                    entries,
                    lookup(entries, deps.take(k as int).filter(f)[i].depends_on_id)->0,
                    here.deep_view(),
                    n,
                ),
        decreases issue.dependencies.len() - k,
    {
        let d = &issue.dependencies[k];
        let ghost before = deps.take(k as int).filter(f);
        assert(deps[k as int] == d@);
        proof {
            crate::text::lemma_filter_push(deps.take(k as int), d@, f);
            assert(deps.take(k + 1) =~= deps.take(k as int).push(d@));
        }
        match store.get(&d.depends_on_id) {
            Some(target) => {
                proof {
                    lemma_lookup_in_ids(entries, d@.depends_on_id);
                }
                let child = build_node(store, target, &here);
                let child = DepNode {
                    id: child.id,
                    title: child.title,
                    status: child.status,
                    cycle: child.cycle,
                    dep_type: Some(d.dep_type),
                    depends_on: child.depends_on,
                    depended_on_by: child.depended_on_by,
                };
                let ghost kids0 = kids@;
                kids.push(child);
                assert forall|i: int| 0 <= i < kids@.len() implies (#[trigger] kids@[i]).dep_type
                    == Some(deps.take(k + 1).filter(f)[i].dep_type) && is_tree_of(
                    kids@[i],
                    entries,
                    lookup(entries, deps.take(k + 1).filter(f)[i].depends_on_id)->0,
                    here.deep_view(),
                    n,
                ) by {
                    if i < kids0.len() {
                        assert(kids@[i] == kids0[i]);
                    }
                }
            },
            None => {},
        }
        k += 1;
    }
    assert(deps.take(deps.len() as int) =~= deps);
    let dependents = find_dependents_of(store, &issue.id);
    DepNode {
        id: issue.id.clone(),
        title: issue.title.clone(),
        status: issue.status,
        cycle: false,
        dep_type: None,
        depends_on: kids,
        depended_on_by: dependents,
    }
}

/// The tree of an issue of the store, where there is one with that id.
pub fn build_dep_tree(store: &Store, id: &str) -> (r: Option<DepNode>)
    ensures
        match lookup(store.entries(), id@) {
            Some(issue) => r is Some && is_tree_of(
                r->0,
                store.entries(),
                issue,
                seq![],
                store.entries().len() + 1,
            ) && r->0.dep_type is None,
            None => r is None,
        },
{
    match store.get(id) {
        None => None,
        Some(issue) => {
            proof {
                lemma_lookup_in_ids(store.entries(), id@);
            }
            let empty: Vec<String> = Vec::new();
            assert(empty.deep_view() =~= Seq::<Seq<char>>::empty());
            Some(build_node(store, issue, &empty))
        },
    }
}

// ------------------------------------------------------------------------- laws

/// A way down a tree: issues of the store, none twice, each of which depends on the next.
pub open spec fn is_way(entries: Seq<IssueView>, way: Seq<IssueView>) -> bool {
    &&& way.len() > 0
    &&& forall|i: int| 0 <= i < way.len() ==> entries.contains(#[trigger] way[i])
    &&& forall|i: int, j: int|
        0 <= i < j < way.len() ==> (#[trigger] way[i]).id != (#[trigger] way[j]).id
    &&& forall|i: int, j: int|
        0 <= i && j == i + 1 && j < way.len() ==> links_to(
            #[trigger] way[i],
            (#[trigger] way[j]).id,
        )
}

/// The line shows an issue that another depends on, so many levels below the root: its sign is
/// empty while work remains, and its id, its title and how it is depended on are to be read.
pub open spec fn shows_issue(
    line: Seq<SpanView>,
    level: int,
    d: DependencyView,
    target: IssueView,
) -> bool {
    &&& line.len() == 10
    &&& line[0].text.len() == 4 * (level - 1)
    &&& line[2].text == (if target.status == Status::Closed || target.status == Status::Tombstone {
        "●"@
    } else {
        "○"@
    })
    &&& line[4].text == target.id
    &&& line[6].text == target.title
    &&& line[8].text == (match d.dep_type {
        DependencyType::Blocks => "blocked by"@,
        DependencyType::ParentChild => "child of"@,
        DependencyType::Related => "related to"@,
    })
}

proof fn lemma_dep_block(
    entries: Seq<IssueView>,
    deps: Seq<DependencyView>,
    total: nat,
    k: int,
    prefix: Seq<char>,
    path: Seq<Seq<char>>,
    n: nat,
) -> (o: int)
    requires
        0 <= k < total <= deps.len(),
        lookup(entries, deps[k].depends_on_id) is Some,
    ensures
        ({
            let lines = deps_lines(entries, deps, total, prefix, path, n);
            let target = lookup(entries, deps[k].depends_on_id)->0;
            let is_last = k + 1 == deps.len();
            let below = tree_lines(entries, target, child_prefix(prefix, is_last), path, n);
            &&& 0 <= o
            &&& o + 1 + below.len() <= lines.len()
            &&& lines[o] == found_line(prefix, is_last, deps[k], target)
            &&& lines.subrange(o + 1, o + 1 + below.len()) == below
        }),
    decreases total,
{
    let lines = deps_lines(entries, deps, total, prefix, path, n);
    let before = deps_lines(entries, deps, (total - 1) as nat, prefix, path, n);
    let target = lookup(entries, deps[k].depends_on_id)->0;
    let is_last = k + 1 == deps.len();
    let below = tree_lines(entries, target, child_prefix(prefix, is_last), path, n);
    assert(lines.take(before.len() as int) =~= before);
    if k == total - 1 {
        let o = before.len() as int;
        assert(lines.subrange(o + 1, o + 1 + below.len()) =~= below);
        o
    } else {
        let o = lemma_dep_block(entries, deps, (total - 1) as nat, k, prefix, path, n);
        assert(lines[o] == lines.take(before.len() as int)[o]);
        assert(lines.subrange(o + 1, o + 1 + below.len()) =~= before.subrange(
            o + 1,
            o + 1 + below.len(),
        )) by {
            assert forall|i: int| o + 1 <= i < o + 1 + below.len() implies lines[i] == before[i] by {
                assert(lines.take(before.len() as int)[i] == lines[i]);
            }
        }
        o
    }
}

proof fn lemma_child_prefix(prefix: Seq<char>, is_last: bool)
    ensures
        child_prefix(prefix, is_last).len() == prefix.len() + 4,
{
    reveal_strlit("    ");
    reveal_strlit("│   ");
}

/// The lines below an issue hold one for the end of every way down from it.
proof fn lemma_way_is_shown(
    entries: Seq<IssueView>,
    way: Seq<IssueView>,
    level: int,
    prefix: Seq<char>,
    path: Seq<Seq<char>>,
    n: nat,
) -> (r: (int, DependencyView))
    requires
        distinct_ids(entries),
        is_way(entries, way),
        way.len() >= 2,
        n + 1 >= way.len(),
        prefix.len() == 4 * level,
        forall|i: int| 0 <= i < way.len() ==> !path.contains((#[trigger] way[i]).id),
    ensures
        0 <= r.0 < tree_lines(entries, way[0], prefix, path, n).len(),
        shows_issue(
            tree_lines(entries, way[0], prefix, path, n)[r.0],
            level + way.len() - 1,
            r.1,
            way.last(),
        ),
        way[way.len() - 2].dependencies.contains(r.1),
        r.1.depends_on_id == way.last().id,
    decreases way.len(),
{
    let issue = way[0];
    let deps = issue.dependencies;
    let here = path.push(issue.id);
    let lines = tree_lines(entries, issue, prefix, path, n);
    assert(!path.contains(way[0].id));
    assert(links_to(way[0], way[1].id));
    let d = choose|d: DependencyView| #[trigger]
        deps.contains(d) && d.depends_on_id == way[1].id;
    let k = choose|k: int| 0 <= k < deps.len() && deps[k] == d;
    assert(entries.contains(way[1]));
    issues_are_found_by_id(entries, way[1], way[1].id);
    let m = (n - 1) as nat;
    let o = lemma_dep_block(entries, deps, deps.len(), k, prefix, here, m);
    let is_last = k + 1 == deps.len();
    let below_prefix = child_prefix(prefix, is_last);
    let below = tree_lines(entries, way[1], below_prefix, here, m);
    lemma_child_prefix(prefix, is_last);
    if way.len() == 2 {
        assert(way.last() == way[1]);
        (o, d)
    } else {
        let rest = way.drop_first();
        assert forall|i: int| 0 <= i < rest.len() implies entries.contains(#[trigger] rest[i]) by {
            assert(rest[i] == way[i + 1]);
        }
        assert forall|i: int, j: int| 0 <= i < j < rest.len() implies (#[trigger] rest[i]).id != (
        #[trigger] rest[j]).id by {
            assert(rest[i] == way[i + 1] && rest[j] == way[j + 1]);
        }
        assert forall|i: int, j: int| 0 <= i && j == i + 1 && j < rest.len() implies links_to(
            #[trigger] rest[i],
            (#[trigger] rest[j]).id,
        ) by {
            assert(rest[i] == way[i + 1] && rest[j] == way[j + 1]);
        }
        assert forall|i: int| 0 <= i < rest.len() implies !here.contains(
            (#[trigger] rest[i]).id,
        ) by {
            assert(rest[i] == way[i + 1]);
            assert(way[0].id != way[i + 1].id);
            if here.contains(rest[i].id) {
                let q = choose|q: int| 0 <= q < here.len() && here[q] == rest[i].id;
                if q < path.len() {
                    assert(path[q] == rest[i].id);
                }
            }
        }
        let (j, last_d) = lemma_way_is_shown(entries, rest, level + 1, below_prefix, here, m);
        assert(lines.subrange(o + 1, o + 1 + below.len())[j] == lines[o + 1 + j]);
        assert(rest.last() == way.last());
        assert(rest[rest.len() - 2] == way[way.len() - 2]);
        (o + 1 + j, last_d)
    }
}

/// The tree of an issue shows everything that it depends on, directly or over others: for the
/// end of every way down from it there is a line, as deep as the way is long.
pub proof fn trees_show_everything_below(entries: Seq<IssueView>, way: Seq<IssueView>)
    requires
        distinct_ids(entries),
        is_way(entries, way),
        way.len() >= 2,
    ensures
        exists|j: int, d: DependencyView|
            #![trigger dep_tree_lines(entries, way[0])[j], way[way.len() - 2].dependencies.contains(d)]
            1 <= j < dep_tree_lines(entries, way[0]).len() && way[way.len()
                - 2].dependencies.contains(d) && d.depends_on_id == way.last().id && shows_issue(
                dep_tree_lines(entries, way[0])[j],
                way.len() - 1,
                d,
                way.last(),
            ),
        dep_tree_lines(entries, way[0])[0].len() == 3,
        dep_tree_lines(entries, way[0])[0][0].text == way[0].id,
        dep_tree_lines(entries, way[0])[0][2].text == way[0].title,
{
    let ids = Seq::new(way.len(), |i: int| way[i].id);
    assert(is_path(entries, ids)) by {
        assert forall|i: int| 0 <= i < ids.len() implies ids_of(entries).contains(
            #[trigger] ids[i],
        ) by {
            assert(entries.contains(way[i]));
            let k = choose|k: int| 0 <= k < entries.len() && entries[k] == way[i];
            assert(ids_of(entries)[k] == ids[i]);
        }
        assert forall|i: int, j: int| 0 <= i < ids.len() && 0 <= j < ids.len() && i != j implies ids[i]
            != ids[j] by {
            if i < j {
                assert(way[i].id != way[j].id);
            } else {
                assert(way[j].id != way[i].id);
            }
        }
    }
    lemma_path_fits(entries, ids);
    let none: Seq<char> = seq![];
    let start: Seq<Seq<char>> = seq![];
    let (j, d) = lemma_way_is_shown(entries, way, 0, none, start, entries.len() + 1);
    let lines = dep_tree_lines(entries, way[0]);
    assert(lines[j + 1] == tree_lines(entries, way[0], none, start, entries.len() + 1)[j]);
    assert(way[way.len() - 2].dependencies.contains(d));
}

proof fn lemma_line_has_way(
    entries: Seq<IssueView>,
    above: Seq<IssueView>,
    issue: IssueView,
    prefix: Seq<char>,
    path: Seq<Seq<char>>,
    n: nat,
    j: int,
) -> (r: (Seq<IssueView>, DependencyView))
    requires
        distinct_ids(entries),
        is_way(entries, above.push(issue)),
        path == Seq::new(above.len(), |i: int| above[i].id),
        prefix.len() == 4 * above.len(),
        0 <= j < tree_lines(entries, issue, prefix, path, n).len(),
    ensures
        is_way(entries, r.0),
        r.0[0] == above.push(issue)[0],
        r.0.last().dependencies.contains(r.1),
        tree_lines(entries, issue, prefix, path, n)[j][4].text == r.1.depends_on_id,
        tree_lines(entries, issue, prefix, path, n)[j][0].text.len() == 4 * (r.0.len() - 1),
    decreases n, 0nat, 1nat,
{
    let here = path.push(issue.id);
    let a = above.push(issue);
    assert(here =~= Seq::new(a.len(), |i: int| a[i].id));
    lemma_deps_line_has_way(
        entries,
        a,
        issue.dependencies.len(),
        prefix,
        here,
        (n - 1) as nat,
        j,
    )
}

proof fn lemma_deps_line_has_way(
    entries: Seq<IssueView>,
    a: Seq<IssueView>,
    k: nat,
    prefix: Seq<char>,
    here: Seq<Seq<char>>,
    n: nat,
    j: int,
) -> (r: (Seq<IssueView>, DependencyView))
    requires
        distinct_ids(entries),
        is_way(entries, a),
        k <= a.last().dependencies.len(),
        here == Seq::new(a.len(), |i: int| a[i].id),
        prefix.len() == 4 * (a.len() - 1),
        0 <= j < deps_lines(entries, a.last().dependencies, k, prefix, here, n).len(),
    ensures
        is_way(entries, r.0),
        r.0[0] == a[0],
        r.0.last().dependencies.contains(r.1),
        deps_lines(entries, a.last().dependencies, k, prefix, here, n)[j][4].text
            == r.1.depends_on_id,
        deps_lines(entries, a.last().dependencies, k, prefix, here, n)[j][0].text.len() == 4 * (
        r.0.len() - 1),
    decreases n, k, 0nat,
{
    let deps = a.last().dependencies;
    let d = deps[k - 1];
    let is_last = k == deps.len();
    let before = deps_lines(entries, deps, (k - 1) as nat, prefix, here, n);
    let lines = deps_lines(entries, deps, k, prefix, here, n);
    if j < before.len() {
        assert(lines[j] == before[j]);
        lemma_deps_line_has_way(entries, a, (k - 1) as nat, prefix, here, n, j)
    } else if j == before.len() {
        assert(deps.contains(d));
        (a, d)
    } else {
        let target = lookup(entries, d.depends_on_id)->0;
        let below_prefix = child_prefix(prefix, is_last);
        let below = tree_lines(entries, target, below_prefix, here, n);
        lemma_child_prefix(prefix, is_last);
        let i = j - before.len() - 1;
        assert(lines[j] == below[i]);
        issues_are_found_by_id(entries, target, d.depends_on_id);
        assert(!here.contains(target.id));
        let way = a.push(target);
        assert forall|p: int| 0 <= p < way.len() implies entries.contains(#[trigger] way[p]) by {
            if p < a.len() {
                assert(way[p] == a[p]);
            }
        }
        assert forall|p: int, q: int| 0 <= p < q < way.len() implies (#[trigger] way[p]).id != (
        #[trigger] way[q]).id by {
            assert(way[p] == a[p]);
            if q < a.len() {
                assert(way[q] == a[q]);
            } else {
                assert(here[p] == a[p].id);
            }
        }
        assert(links_to(a.last(), target.id)) by {
            assert(deps.contains(d));
        }
        assert forall|p: int, q: int| 0 <= p && q == p + 1 && q < way.len() implies links_to(
            #[trigger] way[p],
            (#[trigger] way[q]).id,
        ) by {
            assert(way[p] == a[p]);
            if q < a.len() {
                assert(way[q] == a[q]);
            } else {
                assert(a[p] == a.last());
            }
        }
        lemma_line_has_way(entries, a, target, below_prefix, here, n, i)
    }
}

/// A tree shows nothing but what is depended on: every line below the first names what some
/// issue depends on, to which a way of that many steps leads down from the root.
pub proof fn trees_show_only_dependencies(entries: Seq<IssueView>, issue: IssueView, j: int)
    requires
        distinct_ids(entries),
        entries.contains(issue),
        1 <= j < dep_tree_lines(entries, issue).len(),
    ensures
        exists|way: Seq<IssueView>, d: DependencyView|
            #![trigger is_way(entries, way), way.last().dependencies.contains(d)]
            is_way(entries, way) && way[0] == issue && way.last().dependencies.contains(d)
                && dep_tree_lines(entries, issue)[j][4].text == d.depends_on_id && dep_tree_lines(
                entries,
                issue,
            )[j][0].text.len() == 4 * (way.len() - 1),
{
    let none: Seq<char> = seq![];
    let start: Seq<Seq<char>> = seq![];
    let above: Seq<IssueView> = seq![];
    assert(start =~= Seq::new(above.len(), |i: int| above[i].id));
    assert(above.push(issue) =~= seq![issue]);
    let (way, d) = lemma_line_has_way(
        entries,
        above,
        issue,
        none,
        start,
        entries.len() + 1,
        j - 1,
    );
    assert(dep_tree_lines(entries, issue)[j] == tree_lines(
        entries,
        issue,
        none,
        start,
        entries.len() + 1,
    )[j - 1]);
    assert(is_way(entries, way) && way.last().dependencies.contains(d));
}

/// The node at the end of a way down from another, given by the places among what each node
/// depends on.
pub open spec fn node_at(node: DepNode, places: Seq<int>) -> DepNode
    decreases places.len(),
{
    if places.len() == 0 {
        node
    } else {
        node_at(node.depends_on@[places[0]], places.drop_first())
    }
}

/// The places are all there.
pub open spec fn has_places(node: DepNode, places: Seq<int>) -> bool
    decreases places.len(),
{
    places.len() == 0 || (0 <= places[0] < node.depends_on@.len() && has_places(
        node.depends_on@[places[0]],
        places.drop_first(),
    ))
}

proof fn lemma_way_has_node(
    node: DepNode,
    entries: Seq<IssueView>,
    way: Seq<IssueView>,
    path: Seq<Seq<char>>,
    n: nat,
) -> (places: Seq<int>)
    requires
        distinct_ids(entries),
        is_way(entries, way),
        is_tree_of(node, entries, way[0], path, n),
        forall|i: int| 0 <= i < way.len() ==> !path.contains((#[trigger] way[i]).id),
    ensures
        has_places(node, places),
        places.len() == way.len() - 1,
        node_at(node, places).id@ == way.last().id,
        node_at(node, places).title@ == way.last().title,
        node_at(node, places).status == way.last().status,
        !node_at(node, places).cycle,
        way.len() >= 2 ==> exists|d: DependencyView| #[trigger]
            way[way.len() - 2].dependencies.contains(d) && d.depends_on_id == way.last().id
                && node_at(node, places).dep_type == Some(d.dep_type),
    decreases way.len(),
{
    assert(!path.contains(way[0].id));
    if way.len() == 1 {
        seq![]
    } else {
        let deps = way[0].dependencies;
        let here = path.push(way[0].id);
        assert(links_to(way[0], way[1].id));
        let d = choose|d: DependencyView| #[trigger]
            deps.contains(d) && d.depends_on_id == way[1].id;
        assert(entries.contains(way[1]));
        issues_are_found_by_id(entries, way[1], way[1].id);
        let f = |d: DependencyView| lookup(entries, d.depends_on_id) is Some;
        let found = found_deps(entries, deps);
        assert(found == deps.filter(f));
        filtering_keeps_what_passes(deps, f, d);
        let k = choose|k: int| 0 <= k < found.len() && found[k] == d;
        let child = node.depends_on@[k];
        let rest = way.drop_first();
        assert forall|i: int| 0 <= i < rest.len() implies entries.contains(#[trigger] rest[i]) by {
            assert(rest[i] == way[i + 1]);
        }
        assert forall|i: int, j: int| 0 <= i < j < rest.len() implies (#[trigger] rest[i]).id != (
        #[trigger] rest[j]).id by {
            assert(rest[i] == way[i + 1] && rest[j] == way[j + 1]);
        }
        assert forall|i: int, j: int| 0 <= i && j == i + 1 && j < rest.len() implies links_to(
            #[trigger] rest[i],
            (#[trigger] rest[j]).id,
        ) by {
            assert(rest[i] == way[i + 1] && rest[j] == way[j + 1]);
        }
        assert forall|i: int| 0 <= i < rest.len() implies !here.contains(
            (#[trigger] rest[i]).id,
        ) by {
            assert(rest[i] == way[i + 1]);
            assert(way[0].id != way[i + 1].id);
            if here.contains(rest[i].id) {
                let q = choose|q: int| 0 <= q < here.len() && here[q] == rest[i].id;
                if q < path.len() {
                    assert(path[q] == rest[i].id);
                }
            }
        }
        assert(is_tree_of(child, entries, way[1], here, (n - 1) as nat));
        let below = lemma_way_has_node(child, entries, rest, here, (n - 1) as nat);
        let places = seq![k] + below;
        assert(places.drop_first() =~= below);
        assert(rest.last() == way.last());
        if way.len() == 2 {
            assert(node_at(node, places) == node_at(child, below));
            assert(node_at(child, below) == child);
            assert(way[0].dependencies.contains(d));
        } else {
            assert(rest[rest.len() - 2] == way[way.len() - 2]);
            assert(node_at(node, places) == node_at(child, below));
        }
        places
    }
}

/// The tree of nodes reaches everything that its issue depends on, directly or over others:
/// there is a node for the end of every way down, as deep as the way is long, with how the one
/// before depends on it.
pub proof fn nodes_reach_everything_below(
    node: DepNode,
    entries: Seq<IssueView>,
    way: Seq<IssueView>,
)
    requires
        distinct_ids(entries),
        is_way(entries, way),
        is_tree_of(node, entries, way[0], seq![], entries.len() + 1),
    ensures
        exists|places: Seq<int>|
            #![trigger has_places(node, places)]
            has_places(node, places) && places.len() == way.len() - 1 && node_at(
                node,
                places,
            ).id@ == way.last().id && node_at(node, places).title@ == way.last().title && node_at(
                node,
                places,
            ).status == way.last().status && !node_at(node, places).cycle && (way.len() >= 2
                ==> exists|d: DependencyView| #[trigger]
                way[way.len() - 2].dependencies.contains(d) && d.depends_on_id == way.last().id
                    && node_at(node, places).dep_type == Some(d.dep_type)),
{
    let places = lemma_way_has_node(node, entries, way, seq![], entries.len() + 1);
    assert(has_places(node, places));
}

proof fn lemma_first_dep_type(deps: Seq<DependencyView>, id: Seq<char>)
    ensures
        first_dep_type(deps, id) is Some <==> exists|d: DependencyView| #[trigger]
            deps.contains(d) && d.depends_on_id == id,
        first_dep_type(deps, id) matches Some(t) ==> exists|d: DependencyView| #[trigger]
            deps.contains(d) && d.depends_on_id == id && d.dep_type == t,
    decreases deps.len(),
{
    if deps.len() > 0 {
        let rest = deps.drop_first();
        lemma_first_dep_type(rest, id);
        assert(deps.contains(deps[0]));
        if deps[0].depends_on_id != id {
            if first_dep_type(deps, id) is Some {
                let t = first_dep_type(deps, id)->0;
                let d = choose|d: DependencyView| #[trigger]
                    rest.contains(d) && d.depends_on_id == id && d.dep_type == t;
                let k = choose|k: int| 0 <= k < rest.len() && rest[k] == d;
                assert(deps[k + 1] == d);
                assert(deps.contains(d));
            }
            if exists|d: DependencyView| #[trigger] deps.contains(d) && d.depends_on_id == id {
                let d = choose|d: DependencyView| #[trigger]
                    deps.contains(d) && d.depends_on_id == id;
                let k = choose|k: int| 0 <= k < deps.len() && deps[k] == d;
                assert(rest[k - 1] == d);
                assert(rest.contains(d));
            }
        }
    }
}

proof fn lemma_dependents(all: Seq<IssueView>, id: Seq<char>, x: DependentView)
    ensures
        dependents_of(all, id).contains(x) <==> exists|i: int|
            0 <= i < all.len() && (#[trigger] all[i]).id == x.id && all[i].title == x.title
                && first_dep_type(all[i].dependencies, id) == Some(x.dep_type),
    decreases all.len(),
{
    if all.len() > 0 {
        let front = all.drop_last();
        let b = dependents_of(front, id);
        let r = dependents_of(all, id);
        lemma_dependents(front, id, x);
        assert(all[all.len() - 1] == all.last());
        if b.contains(x) {
            let m = choose|m: int| 0 <= m < b.len() && b[m] == x;
            assert(r[m] == x);
            let i = choose|i: int|
                0 <= i < front.len() && (#[trigger] front[i]).id == x.id && front[i].title
                    == x.title && first_dep_type(front[i].dependencies, id) == Some(x.dep_type);
            assert(all[i] == front[i]);
        }
        if r.contains(x) && !b.contains(x) {
            let m = choose|m: int| 0 <= m < r.len() && r[m] == x;
            if m < b.len() {
                assert(b[m] == x);
            }
        }
        if exists|i: int|
            0 <= i < all.len() && (#[trigger] all[i]).id == x.id && all[i].title == x.title
                && first_dep_type(all[i].dependencies, id) == Some(x.dep_type) {
            let i = choose|i: int|
                0 <= i < all.len() && (#[trigger] all[i]).id == x.id && all[i].title == x.title
                    && first_dep_type(all[i].dependencies, id) == Some(x.dep_type);
            if i < front.len() {
                assert(front[i] == all[i]);
            } else {
                assert(r[b.len() as int] == x);
            }
        }
    }
}

/// The issues that are said to depend on another are those of the store, the deleted ones left
/// out, that have a dependency on it.
pub proof fn dependents_are_those_that_link(entries: Seq<IssueView>, id: Seq<char>, y: IssueView)
    ensures
        entries.contains(y) && y.status != Status::Tombstone && links_to(y, id)
            ==> exists|t: DependencyType| #[trigger]
            dependents_of(listed(entries, false), id).contains(
                DependentView { id: y.id, title: y.title, dep_type: t },
            ),
        forall|x: DependentView| #[trigger]
            dependents_of(listed(entries, false), id).contains(x) ==> exists|z: IssueView|
                #[trigger]
                entries.contains(z) && z.status != Status::Tombstone && z.id == x.id && z.title
                    == x.title && links_to(z, id),
{
    let all = listed(entries, false);
    if entries.contains(y) && y.status != Status::Tombstone && links_to(y, id) {
        listing_leaves_out_the_deleted(entries, false, y);
        lemma_first_dep_type(y.dependencies, id);
        let t = first_dep_type(y.dependencies, id)->0;
        let i = choose|i: int| 0 <= i < all.len() && all[i] == y;
        assert(all[i].id == y.id);
        lemma_dependents(all, id, DependentView { id: y.id, title: y.title, dep_type: t });
    }
    assert forall|x: DependentView| #[trigger] dependents_of(all, id).contains(x) implies exists|
        z: IssueView,
    |
        #[trigger]
        entries.contains(z) && z.status != Status::Tombstone && z.id == x.id && z.title == x.title
            && links_to(z, id) by {
        lemma_dependents(all, id, x);
        let i = choose|i: int|
            0 <= i < all.len() && (#[trigger] all[i]).id == x.id && all[i].title == x.title
                && first_dep_type(all[i].dependencies, id) == Some(x.dep_type);
        lemma_first_dep_type(all[i].dependencies, id);
        listing_leaves_out_the_deleted(entries, false, all[i]);
        assert(entries.contains(all[i]));
    }
}

} // verus!
