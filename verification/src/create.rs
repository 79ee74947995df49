//! New issues: from the command line, from lists and from plans.
use crate::agent_ctx::AgentCtx;
use crate::error::{Error, ErrorView};
use crate::events::{enrich_issue, enriched};
use crate::filter::filtering_keeps_what_passes;
use crate::id::{child_id, generate_child_id};
use crate::issue::{
    added_dependency_comes_last, blockers_of, fresh_issue, issue_type_names_read_back,
    new_issues_are_blank, parents_and_blockers_are_dependencies, DependencyType, DependencyView,
    Issue, IssueType, IssueView, Status,
};
use crate::plan::{PlanItem, PlanItemView};
use crate::store::{max_child, next_child_id_is_new, Store};
use crate::text::{
    begins_with, concat, decimal, decimal_text, ends_in, ends_with, is_space, join, joined,
    lemma_filter_push, lines_of, split_lines, starts_with, trim, trim_start, trimmed,
    trimmed_start,
};
use crate::time::Timestamp;
use vstd::prelude::*;

verus! {

// ---------------------------------------------------------------- descriptions

/// A description as it was given: `-` stands for what is read from standard input, and
/// that counts where it is not blank.
pub open spec fn given_description(
    description: Option<Seq<char>>,
    input: Seq<char>,
) -> Option<Seq<char>> {
    if description == Some("-"@) {
        if trimmed(input).len() == 0 {
            None
        } else {
            Some(trimmed(input))
        }
    } else {
        description
    }
}

/// Whether standard input has to be read for a description.
pub fn wants_input(description: &Option<String>) -> (r: bool)
    ensures
        r == (description.deep_view() == Some("-"@)),
{
    crate::events::opt_is(description, "-")
}

/// The description that is meant. `input` is what standard input held, where it was read.
pub fn read_description(description: Option<String>, input: &str) -> (r: Option<String>)
    ensures
        r.deep_view() == given_description(description.deep_view(), input@),
{
    if wants_input(&description) {
        let text = trim(input);
        if text.as_str().is_empty() {
            None
        } else {
            Some(text)
        }
    } else {
        description
    }
}

/// What the editor is opened on: the current description, or a form where there is none.
pub open spec fn editor_start(current: Seq<char>, title: Seq<char>) -> Seq<char> {
    if current.len() == 0 {
        "# "@ + title
            + "\n\n<!-- Write description below. Lines starting with # are kept. -->\n<!-- Save and close editor to confirm. Empty file cancels. -->\n\n## Context\n\n\n## Scope\n\n\n## Acceptance Criteria\n\n- \n"@
    } else {
        current
    }
}

pub fn editor_template(current: &str, title: &str) -> (r: String)
    ensures
        r@ == editor_start(current@, title@),
{
    if current.is_empty() {
        let mut r = concat("# ", title);
        r.append(
            "\n\n<!-- Write description below. Lines starting with # are kept. -->\n<!-- Save and close editor to confirm. Empty file cancels. -->\n\n## Context\n\n\n## Scope\n\n\n## Acceptance Criteria\n\n- \n",
        );
        r
    } else {
        current.to_owned()
    }
}

/// A line that is a comment.
pub open spec fn is_comment(line: Seq<char>) -> bool {
    begins_with(trimmed_start(line), "<!--"@)
}

/// What was written in the editor, without comments and white space around it.
pub open spec fn edited_text(content: Seq<char>) -> Seq<char> {
    trimmed(joined(lines_of(content).filter(|l: Seq<char>| !is_comment(l)), "\n"@))
}

/// Takes the description from what the editor left.
pub fn clean_edited_text(content: &str) -> (r: Result<String, Error>)
    ensures
        if edited_text(content@).len() == 0 {
            r is Err && r->Err_0@ == ErrorView::Other("Empty description — cancelled"@)
        } else {
            r is Ok && r->Ok_0@ == edited_text(content@)
        },
{
    let lines = split_lines(content);
    let ghost d = lines.deep_view();
    let ghost f = |l: Seq<char>| !is_comment(l);
    let mut kept: Vec<String> = Vec::new();
    let mut i: usize = 0;
    proof {
        reveal(Seq::filter);
        assert(d.take(0) =~= seq![]);
        assert(kept.deep_view() =~= d.take(0).filter(f));
    }
    while i < lines.len()
        invariant
            i <= lines.len(),
            d == lines.deep_view(),
            f == (|l: Seq<char>| !is_comment(l)),
            kept.deep_view() == d.take(i as int).filter(f),
        decreases lines.len() - i,
    {
        let ghost before = kept.deep_view();
        proof {
            lemma_filter_push(d.take(i as int), lines@[i as int]@, f);
            assert(d.take(i + 1) =~= d.take(i as int).push(lines@[i as int]@));
        }
        if !starts_with(&trim_start(&lines[i]), "<!--") {
            kept.push(lines[i].clone());
            assert(kept.deep_view() =~= before.push(lines@[i as int]@));
        }
        i += 1;
    }
    assert(d.take(d.len() as int) =~= d);
    let text = trim(&join(&kept, "\n"));
    if text.as_str().is_empty() {
        Err(Error::Other("Empty description — cancelled".to_owned()))
    } else {
        Ok(text)
    }
}

// ------------------------------------------------------------------------- ids

/// The id of a new issue: the next child's of its parent, else a fresh one. There is none
/// where the numbers of the parent's children are used up.
pub open spec fn chosen_id(
    entries: Seq<IssueView>,
    parent: Option<Seq<char>>,
    fresh: Seq<char>,
) -> Option<Seq<char>> {
    match parent {
        Some(p) => if max_child(entries, p) < u32::MAX {
            Some(child_id(p, max_child(entries, p) + 1))
        } else {
            None
        },
        None => Some(fresh),
    }
}

pub fn choose_id(store: &Store, parent: &Option<String>, fresh: String) -> (r: Option<String>)
    ensures
        r.deep_view() == chosen_id(store.entries(), parent.deep_view(), fresh@),
{
    match parent {
        Some(p) => match store.try_next_child_num(p) {
            Some(n) => Some(generate_child_id(p, n)),
            None => None,
        },
        None => Some(fresh),
    }
}

// ---------------------------------------------------------------------- issues

/// The issue after it was made to depend on each of `ids`.
pub open spec fn with_blockers(i: IssueView, ids: Seq<Seq<char>>, now: Timestamp) -> IssueView
    decreases ids.len(),
{
    if ids.len() == 0 {
        i
    } else {
        with_blockers(i, ids.drop_last(), now).after_add_dependency(
            ids.last(),
            DependencyType::Blocks,
            now,
        )
    }
}

fn add_blockers(issue: &mut Issue, ids: &Vec<String>, now: Timestamp)
    ensures
        final(issue)@ == with_blockers(old(issue)@, ids.deep_view(), now),
{
    let ghost start = issue@;
    let ghost d = ids.deep_view();
    let mut i: usize = 0;
    assert(d.take(0) =~= seq![]);
    while i < ids.len()
        invariant
            i <= ids.len(),
            d == ids.deep_view(),
            issue@ == with_blockers(start, d.take(i as int), now),
        decreases ids.len() - i,
    {
        assert(d.take(i + 1).drop_last() =~= d.take(i as int));
        assert(d.take(i + 1).last() == ids@[i as int]@);
        let _new = issue.add_dependency_at(ids[i].clone(), DependencyType::Blocks, now);
        i += 1;
    }
    assert(d.take(d.len() as int) =~= d);
}

/// What a new issue is made of.
pub struct NewIssue {
    pub id: String,
    pub title: String,
    pub issue_type: IssueType,
    pub priority: u8,
    pub description: Option<String>,
    pub parent: Option<String>,
    pub blocks: Vec<String>,
}

/// The issue that is made at `now`, with what the context knows.
pub open spec fn made_issue(
    id: Seq<char>,
    title: Seq<char>,
    issue_type: IssueType,
    priority: u8,
    description: Option<Seq<char>>,
    parent: Option<Seq<char>>,
    blocks: Seq<Seq<char>>,
    ctx: AgentCtx,
    now: Timestamp,
) -> IssueView {
    let base = IssueView { issue_type, priority, description, ..fresh_issue(id, title, now) };
    let placed = match parent {
        Some(p) => base.after_add_dependency(p, DependencyType::ParentChild, now),
        None => base,
    };
    enriched(with_blockers(placed, blocks, now), ctx)
}

impl NewIssue {
    pub open spec fn made(self, ctx: AgentCtx, now: Timestamp) -> IssueView {
        made_issue(
            self.id@,
            self.title@,
            self.issue_type,
            self.priority,
            self.description.deep_view(),
            self.parent.deep_view(),
            self.blocks.deep_view(),
            ctx,
            now,
        )
    }

    /// Makes the issue at `now`.
    pub fn make(self, ctx: &AgentCtx, now: Timestamp) -> (r: Issue)
        ensures
            r@ == self.made(*ctx, now),
    {
        let mut issue = Issue::new_at(self.id, self.title, now);
        issue.issue_type = self.issue_type;
        issue.priority = self.priority;
        issue.description = self.description;
        match self.parent {
            Some(p) => {
                let _new = issue.add_dependency_at(p, DependencyType::ParentChild, now);
            },
            None => {},
        }
        add_blockers(&mut issue, &self.blocks, now);
        let _touched = enrich_issue(&mut issue, ctx);
        issue
    }
}

/// The issue for a command line that asks for a new one, with the id that was chosen.
pub fn create_issue(
    id: String,
    title: &str,
    issue_type: &str,
    priority: u8,
    description: Option<String>,
    parent: Option<String>,
    ctx: &AgentCtx,
    now: Timestamp,
) -> (r: Result<Issue, Error>)
    ensures
        match IssueType::parsed(issue_type@) {
            Some(t) => r is Ok && r->Ok_0@ == made_issue(
                id@,
                title@,
                t,
                priority,
                description.deep_view(),
                parent.deep_view(),
                seq![],
                *ctx,
                now,
            ),
            None => r is Err && r->Err_0@ == ErrorView::Other("invalid issue type: "@ + issue_type@),
        },
{
    let t = match IssueType::parse(issue_type) {
        Ok(t) => t,
        Err(e) => return Err(e),
    };
    let none: Vec<String> = Vec::new();
    assert(none.deep_view() =~= seq![]);
    let n = NewIssue {
        id,
        title: title.to_owned(),
        issue_type: t,
        priority,
        description,
        parent,
        blocks: none,
    };
    Ok(n.make(ctx, now))
}

/// The lowest eight bits of a priority, or the default.
pub open spec fn item_priority(p: Option<u64>, default: u8) -> u8 {
    match p {
        Some(n) => n as u8,
        None => default,
    }
}

fn priority_of(p: Option<u64>, default: u8) -> (r: u8)
    ensures
        r == item_priority(p, default),
{
    match p {
        Some(n) => #[verifier::truncate] (n as u8),
        None => default,
    }
}

fn text_or(s: &Option<String>, default: &str) -> (r: String)
    ensures
        r@ == opt_text(s.deep_view(), default@),
{
    match s {
        Some(x) => x.clone(),
        None => default.to_owned(),
    }
}

pub open spec fn opt_text(s: Option<Seq<char>>, default: Seq<char>) -> Seq<char> {
    match s {
        Some(x) => x,
        None => default,
    }
}

/// What is wrong with the `index`th item of a list of new issues.
pub open spec fn item_problem(item: PlanItemView, index: nat) -> Option<ErrorView> {
    if item.title is None {
        Some(ErrorView::Other("Item "@ + decimal(index) + " missing 'title'"@))
    } else if IssueType::parsed(opt_text(item.issue_type, "task"@)) is None {
        Some(ErrorView::Other("invalid issue type: "@ + opt_text(item.issue_type, "task"@)))
    } else {
        None
    }
}

/// The issue for the `index`th item of a list of new issues, with the id that was chosen.
pub fn create_item(
    item: &PlanItem,
    index: usize,
    id: String,
    ctx: &AgentCtx,
    now: Timestamp,
) -> (r: Result<Issue, Error>)
    ensures
        ({
            let v = item.deep_view();
            match item_problem(v, index as nat) {
                Some(e) => r is Err && r->Err_0@ == e,
                None => r is Ok && r->Ok_0@ == made_issue(
                    id@,
                    v.title->0,
                    IssueType::parsed(opt_text(v.issue_type, "task"@))->0,
                    item_priority(v.priority, 2),
                    v.description,
                    v.parent,
                    v.blocks,
                    *ctx,
                    now,
                ),
            }
        }),
{
    let title = match &item.title {
        Some(t) => t.clone(),
        None => {
            let mut m = concat("Item ", &decimal_text(index as u64));
            m.append(" missing 'title'");
            return Err(Error::Other(m));
        },
    };
    let issue_type = match IssueType::parse(&text_or(&item.issue_type, "task")) {
        Ok(t) => t,
        Err(e) => return Err(e),
    };
    let n = NewIssue {
        id,
        title,
        issue_type,
        priority: priority_of(item.priority, 2),
        description: item.description.clone(),
        parent: item.parent.clone(),
        blocks: crate::issue::copy_texts(&item.blocks),
    };
    Ok(n.make(ctx, now))
}

/// The epic of a plan.
pub fn plan_epic(item: &PlanItem, id: String, priority: u8, ctx: &AgentCtx, now: Timestamp) -> (r:
    Issue)
    ensures
        r@ == made_issue(
            id@,
            opt_text(item.deep_view().title, "Plan Epic"@),
            IssueType::Epic,
            item_priority(item.deep_view().priority, priority),
            item.deep_view().description,
            None,
            seq![],
            *ctx,
            now,
        ),
{
    let none: Vec<String> = Vec::new();
    assert(none.deep_view() =~= seq![]);
    let n = NewIssue {
        id,
        title: text_or(&item.title, "Plan Epic"),
        issue_type: IssueType::Epic,
        priority: priority_of(item.priority, priority),
        description: item.description.clone(),
        parent: None,
        blocks: none,
    };
    n.make(ctx, now)
}

/// A child of a plan's epic. A type that is unknown is taken for a task.
pub fn plan_child(
    item: &PlanItem,
    epic_id: &str,
    id: String,
    priority: u8,
    ctx: &AgentCtx,
    now: Timestamp,
) -> (r: Issue)
    ensures
        r@ == made_issue(
            id@,
            opt_text(item.deep_view().title, "Task"@),
            match IssueType::parsed(opt_text(item.deep_view().issue_type, "task"@)) {
                Some(t) => t,
                None => IssueType::Task,
            },
            item_priority(item.deep_view().priority, priority),
            item.deep_view().description,
            Some(epic_id@),
            item.deep_view().blocks,
            *ctx,
            now,
        ),
{
    let issue_type = match IssueType::parse(&text_or(&item.issue_type, "task")) {
        Ok(t) => t,
        Err(_) => IssueType::Task,
    };
    let n = NewIssue {
        id,
        title: text_or(&item.title, "Task"),
        issue_type,
        priority: priority_of(item.priority, priority),
        description: item.description.clone(),
        parent: Some(epic_id.to_owned()),
        blocks: crate::issue::copy_texts(&item.blocks),
    };
    n.make(ctx, now)
}

/// Whether a plan file holds JSON.
pub fn is_json_plan(path: &str) -> (r: bool)
    ensures
        r == ends_in(path@, ".json"@),
{
    ends_with(path, ".json")
}

/// Parts a plan into its epic and the children.
pub fn split_plan(items: Vec<PlanItem>) -> (r: Result<(PlanItem, Vec<PlanItem>), Error>)
    ensures
        if items@.len() == 0 {
            r is Err && r->Err_0@ == ErrorView::Other("No items found in plan file"@)
        } else {
            r is Ok && r->Ok_0.0.deep_view() == items.deep_view()[0] && r->Ok_0.1.deep_view()
                == items.deep_view().drop_first()
        },
{
    let mut items = items;
    if items.len() == 0 {
        return Err(Error::Other("No items found in plan file".to_owned()));
    }
    let ghost d = items.deep_view();
    let epic = items.remove(0);
    assert(items.deep_view() =~= d.drop_first());
    Ok((epic, items))
}

// ------------------------------------------------------------------------ laws

/// A new issue is open, keeps its id and title, and hangs below its parent.
pub proof fn new_issue_is_open_below_its_parent(
    id: Seq<char>,
    title: Seq<char>,
    t: IssueType,
    priority: u8,
    description: Option<Seq<char>>,
    parent: Option<Seq<char>>,
    blocks: Seq<Seq<char>>,
    ctx: AgentCtx,
    now: Timestamp,
)
    ensures
        ({
            let i = made_issue(id, title, t, priority, description, parent, blocks, ctx, now);
            &&& i.id == id
            &&& i.title == title
            &&& i.status.spec_is_open()
            &&& i.issue_type == t
            &&& i.priority == priority
            &&& i.description == description
            &&& crate::issue::parent_of(i.dependencies) == parent
            &&& i.created_by == ctx.user_id.deep_view()
        }),
{
    let base = IssueView {
        issue_type: t,
        priority,
        description,
        ..fresh_issue(id, title, now)
    };
    let placed = match parent {
        Some(p) => base.after_add_dependency(p, DependencyType::ParentChild, now),
        None => base,
    };
    assert(crate::issue::parent_of(placed.dependencies) == parent);
    lemma_blockers_keep(placed, blocks, now);
}

proof fn lemma_parent_push(deps: Seq<crate::issue::DependencyView>, d: crate::issue::DependencyView)
    requires
        d.dep_type == DependencyType::Blocks,
    ensures
        crate::issue::parent_of(deps.push(d)) == crate::issue::parent_of(deps),
    decreases deps.len(),
{
    if deps.len() == 0 {
        assert(deps.push(d).drop_first() =~= deps);
    } else {
        assert(deps.push(d).drop_first() =~= deps.drop_first().push(d));
        lemma_parent_push(deps.drop_first(), d);
    }
}

proof fn lemma_blockers_keep(i: IssueView, ids: Seq<Seq<char>>, now: Timestamp)
    ensures
        ({
            let w = with_blockers(i, ids, now);
            &&& w == (IssueView {
                dependencies: w.dependencies,
                updated_at: w.updated_at,
                ..i
            })
            &&& crate::issue::parent_of(w.dependencies) == crate::issue::parent_of(i.dependencies)
        }),
    decreases ids.len(),
{
    if ids.len() > 0 {
        lemma_blockers_keep(i, ids.drop_last(), now);
        let w = with_blockers(i, ids.drop_last(), now);
        let a = w.after_add_dependency(ids.last(), DependencyType::Blocks, now);
        if a != w {
            lemma_parent_push(w.dependencies, a.dependencies.last());
            assert(a.dependencies =~= w.dependencies.push(a.dependencies.last()));
        }
    }
}

proof fn lemma_with_blockers(i: IssueView, ids: Seq<Seq<char>>, now: Timestamp)
    ensures
        ({
            let w = with_blockers(i, ids, now);
            let n = i.dependencies.len() as int;
            &&& w.dependencies.len() >= n
            &&& w.dependencies.take(n) == i.dependencies
            &&& forall|k: int|
                n <= k < w.dependencies.len() ==> (#[trigger] w.dependencies[k]).dep_type
                    == DependencyType::Blocks && ids.contains(w.dependencies[k].depends_on_id)
                    && w.dependencies[k].issue_id == i.id && w.dependencies[k].created_at == now
            &&& forall|k: int|
                0 <= k < ids.len() ==> blockers_of(w.dependencies).contains(#[trigger] ids[k])
            &&& i.updated_at == now ==> w.updated_at == now
        }),
    decreases ids.len(),
{
    if ids.len() == 0 {
        assert(i.dependencies.take(i.dependencies.len() as int) =~= i.dependencies);
    } else {
        let front = ids.drop_last();
        let id = ids.last();
        lemma_with_blockers(i, front, now);
        lemma_blockers_keep(i, front, now);
        let v = with_blockers(i, front, now);
        let w = with_blockers(i, ids, now);
        let n = i.dependencies.len() as int;
        added_dependency_comes_last(v, id, DependencyType::Blocks, now);
        assert(w == v.after_add_dependency(id, DependencyType::Blocks, now));
        assert(ids[ids.len() - 1] == id);
        let there = exists|d: DependencyView| #[trigger]
            v.dependencies.contains(d) && d.depends_on_id == id && d.dep_type
                == DependencyType::Blocks;
        assert forall|x: Seq<char>| #[trigger] front.contains(x) implies ids.contains(x) by {
            let m = choose|m: int| 0 <= m < front.len() && front[m] == x;
            assert(ids[m] == x);
        }
        if !there {
            let l = v.dependencies.len() as int;
            assert forall|k: int| 0 <= k < l implies #[trigger] w.dependencies[k]
                == v.dependencies[k] by {
                assert(w.dependencies.take(l)[k] == w.dependencies[k]);
            }
            assert(w.dependencies.take(n) =~= v.dependencies.take(n));
            parents_and_blockers_are_dependencies(w.dependencies, l);
            assert(w.dependencies.drop_last() =~= v.dependencies);
            assert(blockers_of(w.dependencies) == blockers_of(v.dependencies).push(id));
        } else {
            let d = choose|d: DependencyView| #[trigger]
                v.dependencies.contains(d) && d.depends_on_id == id && d.dep_type
                    == DependencyType::Blocks;
            let k = choose|k: int| 0 <= k < v.dependencies.len() && v.dependencies[k] == d;
            parents_and_blockers_are_dependencies(v.dependencies, k);
        }
        assert forall|k: int| 0 <= k < ids.len() implies blockers_of(w.dependencies).contains(
            #[trigger] ids[k],
        ) by {
            if k < front.len() {
                assert(front[k] == ids[k]);
                let b = blockers_of(v.dependencies);
                let m = choose|m: int| 0 <= m < b.len() && b[m] == ids[k];
                assert(blockers_of(w.dependencies)[m] == ids[k]);
            }
        }
    }
}

/// A new issue is as it was asked for: open, with that id, title, type, priority and
/// description, made and last changed now. It depends on its parent, where it has one, and is
/// blocked by each issue that was named, and depends on nothing else. Everything else is unset
/// but for what the context knows.
pub proof fn new_issue_is_as_asked_for(
    id: Seq<char>,
    title: Seq<char>,
    t: IssueType,
    priority: u8,
    description: Option<Seq<char>>,
    parent: Option<Seq<char>>,
    blocks: Seq<Seq<char>>,
    ctx: AgentCtx,
    now: Timestamp,
    d: DependencyView,
)
    ensures
        ({
            let i = made_issue(id, title, t, priority, description, parent, blocks, ctx, now);
            &&& i.id == id && i.title == title && i.status == Status::Open && i.issue_type == t
            &&& i.priority == priority && i.description == description
            &&& i.created_at == now && i.updated_at == now
            &&& i.created_by == ctx.user_id.deep_view()
            &&& i.labels.len() == 0 && i.assignee is None && i.notes is None && i.closed_at is None
            &&& i.close_reason is None && i.deleted_at is None && i.deleted_by is None
            &&& parent matches Some(p) ==> i.dependencies.len() > 0
                && i.dependencies[0].depends_on_id == p && i.dependencies[0].dep_type
                == DependencyType::ParentChild
            &&& forall|k: int|
                0 <= k < blocks.len() ==> blockers_of(i.dependencies).contains(#[trigger] blocks[k])
            &&& i.dependencies.contains(d) ==> d.issue_id == id && d.created_at == now && (
            d.dep_type == DependencyType::ParentChild && parent == Some(d.depends_on_id)
                || d.dep_type == DependencyType::Blocks && blocks.contains(d.depends_on_id))
        }),
{
    let base = IssueView { issue_type: t, priority, description, ..fresh_issue(id, title, now) };
    let placed = match parent {
        Some(p) => base.after_add_dependency(p, DependencyType::ParentChild, now),
        None => base,
    };
    new_issues_are_blank(id, title, now);
    lemma_blockers_keep(placed, blocks, now);
    lemma_with_blockers(placed, blocks, now);
    let w = with_blockers(placed, blocks, now);
    let n = placed.dependencies.len() as int;
    if parent is Some {
        added_dependency_comes_last(base, parent->0, DependencyType::ParentChild, now);
        assert(n == 1);
        assert(w.dependencies.take(n)[0] == w.dependencies[0]);
    }
    if w.dependencies.contains(d) {
        let k = choose|k: int| 0 <= k < w.dependencies.len() && w.dependencies[k] == d;
        if k < n {
            assert(w.dependencies.take(n)[k] == w.dependencies[k]);
        }
    }
}

/// A priority that is given is kept as far as it fits; one that is not is the default.
pub proof fn given_priorities_are_kept(p: Option<u64>, default: u8)
    ensures
        p matches Some(n) ==> n <= 255 ==> item_priority(p, default) as u64 == n,
        p is None ==> item_priority(p, default) == default,
{
}

/// An item without a title, or with a type that there is not, makes no issue; any other does.
pub proof fn items_need_a_title_and_a_known_type(item: PlanItemView, index: nat)
    ensures
        item_problem(item, index) is None <==> item.title is Some && (item.issue_type is None
            || exists|t: IssueType| item.issue_type == Some(#[trigger] t.name())),
{
    issue_type_names_read_back(IssueType::Task);
    crate::issue::names_are_these();
    if item.issue_type is Some && IssueType::parsed(item.issue_type->0) is Some {
        let t = IssueType::parsed(item.issue_type->0)->0;
        assert(item.issue_type == Some(t.name()));
    }
    if exists|t: IssueType| item.issue_type == Some(#[trigger] t.name()) {
        let t = choose|t: IssueType| item.issue_type == Some(#[trigger] t.name());
        issue_type_names_read_back(t);
    }
}

/// An issue below another gets an id that extends the other's with a number, and that no issue
/// of the store has; any other gets the one that was drawn.
pub proof fn chosen_ids_are_new(
    entries: Seq<IssueView>,
    parent: Option<Seq<char>>,
    fresh: Seq<char>,
    k: int,
)
    requires
        0 <= k < entries.len(),
    ensures
        parent is None ==> chosen_id(entries, parent, fresh) == Some(fresh),
        parent matches Some(p) ==> chosen_id(entries, parent, fresh) matches Some(id) ==> {
            &&& id != entries[k].id
            &&& exists|n: nat| id == p + seq!['.'] + #[trigger] decimal(n)
        },
{
    if parent is Some && chosen_id(entries, parent, fresh) is Some {
        let p = parent->0;
        next_child_id_is_new(entries, p);
        crate::store::lemma_index_of(entries, chosen_id(entries, parent, fresh)->0);
        reveal_strlit(".");
        assert("."@ =~= seq!['.']);
        let n = max_child(entries, p) + 1;
        assert(chosen_id(entries, parent, fresh)->0 =~= p + seq!['.'] + decimal(n));
    }
}

/// A dash asks for the description on standard input, which is trimmed and left out where it is
/// blank; any other description is taken as it is.
pub proof fn dash_reads_the_description(description: Option<Seq<char>>, input: Seq<char>)
    ensures
        description != Some(seq!['-']) ==> given_description(description, input) == description,
        description == Some(seq!['-']) && trimmed(input).len() > 0 ==> given_description(
            description,
            input,
        ) == Some(trimmed(input)),
        description == Some(seq!['-']) && trimmed(input).len() == 0 ==> given_description(
            description,
            input,
        ) is None,
{
    reveal_strlit("-");
    assert("-"@ =~= seq!['-']);
}

/// The line begins, but for white space, as a comment does.
pub open spec fn opens_comment(line: Seq<char>) -> bool {
    exists|k: int|
        0 <= k && #[trigger] (k + 4) <= line.len() && (forall|i: int|
            0 <= i < k ==> is_space(#[trigger] line[i])) && line[k] == '<' && line[k + 1] == '!'
            && line[k + 2] == '-' && line[k + 3] == '-'
}

proof fn lemma_comment(line: Seq<char>)
    ensures
        is_comment(line) <==> opens_comment(line),
    decreases line.len(),
{
    reveal_strlit("<!--");
    assert("<!--"@ =~= seq!['<', '!', '-', '-']);
    if line.len() > 0 && is_space(line[0]) {
        let rest = line.drop_first();
        lemma_comment(rest);
        if opens_comment(rest) {
            let k = choose|k: int|
                0 <= k && #[trigger] (k + 4) <= rest.len() && (forall|i: int|
                    0 <= i < k ==> is_space(#[trigger] rest[i])) && rest[k] == '<' && rest[k + 1]
                    == '!' && rest[k + 2] == '-' && rest[k + 3] == '-';
            assert forall|i: int| 0 <= i < k + 1 implies is_space(#[trigger] line[i]) by {
                if i > 0 {
                    assert(line[i] == rest[i - 1]);
                }
            }
            assert((k + 1) + 4 <= line.len());
        }
        if opens_comment(line) {
            let k = choose|k: int|
                0 <= k && #[trigger] (k + 4) <= line.len() && (forall|i: int|
                    0 <= i < k ==> is_space(#[trigger] line[i])) && line[k] == '<' && line[k + 1]
                    == '!' && line[k + 2] == '-' && line[k + 3] == '-';
            assert(k > 0);
            assert forall|i: int| 0 <= i < k - 1 implies is_space(#[trigger] rest[i]) by {
                assert(rest[i] == line[i + 1]);
            }
            assert((k - 1) + 4 <= rest.len());
        }
    } else {
        if is_comment(line) {
            let f = line.take(4);
            assert(f[0] == line[0] && f[1] == line[1] && f[2] == line[2] && f[3] == line[3]);
            assert(0int + 4 <= line.len());
        }
        if opens_comment(line) {
            let k = choose|k: int|
                0 <= k && #[trigger] (k + 4) <= line.len() && (forall|i: int|
                    0 <= i < k ==> is_space(#[trigger] line[i])) && line[k] == '<' && line[k + 1]
                    == '!' && line[k + 2] == '-' && line[k + 3] == '-';
            if k > 0 {
                assert(is_space(line[0]));
            }
            assert(line.take(4) =~= "<!--"@);
        }
    }
}

/// What is taken from the editor are the lines that are no comments, all of them, joined by line
/// ends and trimmed. Gives these lines.
pub proof fn edited_text_drops_only_comments(content: Seq<char>, line: Seq<char>) -> (kept: Seq<
    Seq<char>,
>)
    ensures
        edited_text(content) == trimmed(joined(kept, seq!['\n'])),
        kept.contains(line) <==> lines_of(content).contains(line) && !opens_comment(line),
        kept.len() <= lines_of(content).len(),
{
    let f = |l: Seq<char>| !is_comment(l);
    let kept = lines_of(content).filter(f);
    reveal_strlit("\n");
    assert("\n"@ =~= seq!['\n']);
    filtering_keeps_what_passes(lines_of(content), f, line);
    lemma_comment(line);
    lines_of(content).lemma_filter_len(f);
    kept
}

/// Law: an issue that is made has what it was asked for: the id, title, type, priority,
/// description, parent and blockers that were given.
pub proof fn issues_are_made_as_given(n: NewIssue, ctx: AgentCtx, now: Timestamp, d: DependencyView)
    ensures
        ({
            let i = n.made(ctx, now);
            &&& i.id == n.id@ && i.title == n.title@
            &&& i.issue_type == n.issue_type && i.priority == n.priority
            &&& i.description == n.description.deep_view()
            &&& i.status == Status::Open && i.created_at == now && i.updated_at == now
            &&& n.parent is Some ==> i.dependencies.len() > 0 && i.dependencies[0].depends_on_id
                == n.parent->0@ && i.dependencies[0].dep_type == DependencyType::ParentChild
            &&& forall|k: int|
                0 <= k < n.blocks@.len() ==> blockers_of(i.dependencies).contains(
                    (#[trigger] n.blocks@[k])@,
                )
            &&& n.parent is None && n.blocks@.len() == 0 ==> !i.dependencies.contains(d)
        }),
{
    new_issue_is_as_asked_for(
        n.id@,
        n.title@,
        n.issue_type,
        n.priority,
        n.description.deep_view(),
        n.parent.deep_view(),
        n.blocks.deep_view(),
        ctx,
        now,
        d,
    );
    let i = n.made(ctx, now);
    let b = n.blocks.deep_view();
    assert(b.len() == n.blocks@.len());
    assert forall|k: int| 0 <= k < n.blocks@.len() implies blockers_of(i.dependencies).contains(
        (#[trigger] n.blocks@[k])@,
    ) by {
        assert(b[k] == n.blocks@[k]@);
        assert(blockers_of(i.dependencies).contains(b[k]));
    }
    if n.blocks@.len() == 0 {
        assert(!b.contains(d.depends_on_id));
    }
}

/// Law: the editor is opened on the description that there is. Where there is none, it is
/// opened on a form under the title.
pub proof fn editor_opens_on_the_description(current: Seq<char>, title: Seq<char>)
    ensures
        current.len() > 0 ==> editor_start(current, title) == current,
        current.len() == 0 ==> editor_start(current, title).take(2 + title.len() as int) == "# "@
            + title,
{
    reveal_strlit("# ");
    if current.len() == 0 {
        assert(editor_start(current, title).take(2 + title.len() as int) =~= "# "@ + title);
    }
}

} // verus!
