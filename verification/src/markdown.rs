//! Issues as Markdown.
use crate::filter::{keep, Test};
use crate::issue::{
    blockers_of, contains_text, parent_of, DependencyType, DependencyView, Issue, IssueType, IssueView, Status,
};
use crate::query::{lemma_stands_deeper, lemma_text_le_or_lt, stands_in, text_lt};
use crate::relations::{dependents, ids_of, issue_links};
use crate::sort::{is_total, is_transitive, stable_sort, stable_sorted, Order};
use crate::store::{listed, Store};
use crate::text::{
    concat, decimal, decimal_text, join, joined, lemma_text_order, text_at_most, text_le, trim,
    trimmed,
};
use crate::time::{formatted, Timestamp};
use vstd::prelude::*;

verus! {

/// One line with a label, where there is something to say.
pub open spec fn opt_line(label: Seq<char>, value: Option<Seq<char>>) -> Seq<Seq<char>> {
    match value {
        Some(v) => seq![label + v],
        None => seq![],
    }
}

/// One line with a label and a list, where the list is not empty.
pub open spec fn list_line(label: Seq<char>, values: Seq<Seq<char>>) -> Seq<Seq<char>> {
    if values.len() == 0 {
        seq![]
    } else {
        seq![label + joined(values, ", "@)]
    }
}

/// What is listed below an issue.
pub open spec fn issue_facts(entries: Seq<IssueView>, i: IssueView) -> Seq<Seq<char>> {
    let all = listed(entries, false);
    seq!["Created: "@ + formatted(i.created_at, "%Y-%m-%d"@)] + list_line("Labels: "@, i.labels)
        + opt_line("Assignee: "@, i.assignee) + opt_line("Created by: "@, i.created_by) + opt_line(
        "Closed: "@,
        i.close_reason,
    ) + opt_line("Parent: "@, parent_of(i.dependencies)) + list_line(
        "Blocked by: "@,
        blockers_of(i.dependencies),
    ) + list_line("Blocks: "@, ids_of(dependents(all, i.id, DependencyType::Blocks))) + list_line(
        "Children: "@,
        ids_of(dependents(all, i.id, DependencyType::ParentChild)),
    )
}

/// Lines as a list.
pub open spec fn bullets(lines: Seq<Seq<char>>) -> Seq<char>
    decreases lines.len(),
{
    if lines.len() == 0 {
        seq![]
    } else {
        bullets(lines.drop_last()) + "- "@ + lines.last() + "\n"@
    }
}

/// An issue as Markdown.
pub open spec fn issue_md(entries: Seq<IssueView>, i: IssueView) -> Seq<char> {
    "### "@ + i.id + " — "@ + i.title + " `[P"@ + decimal(i.priority as nat) + "]` `["@
        + i.issue_type.name() + "]`\n\n"@ + (match i.description {
        Some(d) => trimmed(d) + "\n\n"@,
        None => seq![],
    }) + bullets(issue_facts(entries, i)) + "\n"@
}

fn push_opt_line(lines: &mut Vec<String>, label: &str, value: &Option<String>)
    ensures
        final(lines).deep_view() == old(lines).deep_view() + opt_line(label@, value.deep_view()),
{
    let ghost before = lines.deep_view();
    match value {
        Some(v) => {
            let line = concat(label, v);
            lines.push(line);
            assert(lines.deep_view() =~= before + opt_line(label@, value.deep_view()));
        },
        None => {
            assert(before + Seq::<Seq<char>>::empty() =~= before);
        },
    }
}

fn push_list_line(lines: &mut Vec<String>, label: &str, values: &Vec<String>)
    ensures
        final(lines).deep_view() == old(lines).deep_view() + list_line(label@, values.deep_view()),
{
    let ghost before = lines.deep_view();
    if values.len() == 0 {
        assert(before + Seq::<Seq<char>>::empty() =~= before);
    } else {
        let line = concat(label, &join(values, ", "));
        lines.push(line);
        assert(lines.deep_view() =~= before + list_line(label@, values.deep_view()));
    }
}

/// Appends an issue as Markdown.
pub fn render_issue_md(md: &mut String, issue: &Issue, store: &Store)
    ensures
        final(md)@ == old(md)@ + issue_md(store.entries(), issue@),
{
    let ghost start = md@;
    let mut body = "### ".to_owned();
    body.append(&issue.id);
    body.append(" — ");
    body.append(&issue.title);
    body.append(" `[P");
    body.append(&decimal_text(issue.priority as u64));
    body.append("]` `[");
    body.append(issue.issue_type.text());
    body.append("]`\n\n");
    match &issue.description {
        Some(d) => {
            let mut t = trim(d);
            t.append("\n\n");
            body.append(&t);
        },
        None => {
            assert(body@ =~= body@ + Seq::<char>::empty());
        },
    }
    let links = issue_links(store, issue);
    let mut facts: Vec<String> = Vec::new();
    let created = concat("Created: ", &issue.created_at.format("%Y-%m-%d"));
    facts.push(created);
    assert(facts.deep_view() =~= seq![created@]);
    push_list_line(&mut facts, "Labels: ", &issue.labels);
    push_opt_line(&mut facts, "Assignee: ", &issue.assignee);
    push_opt_line(&mut facts, "Created by: ", &issue.created_by);
    push_opt_line(&mut facts, "Closed: ", &issue.close_reason);
    push_opt_line(&mut facts, "Parent: ", &links.parent);
    push_list_line(&mut facts, "Blocked by: ", &links.blocked_by);
    push_list_line(&mut facts, "Blocks: ", &links.blocks);
    push_list_line(&mut facts, "Children: ", &links.children);
    assert(facts.deep_view() == issue_facts(store.entries(), issue@));
    let ghost head = body@;
    let ghost d = facts.deep_view();
    let mut list = String::new();
    let mut i: usize = 0;
    assert(list@ =~= bullets(d.take(0)));
    while i < facts.len()
        invariant
            i <= facts.len(),
            d == facts.deep_view(),
            list@ == bullets(d.take(i as int)),
        decreases facts.len() - i,
    {
        assert(d.take(i + 1).drop_last() =~= d.take(i as int));
        assert(d.take(i + 1).last() == facts@[i as int]@);
        list.append("- ");
        list.append(&facts[i]);
        list.append("\n");
        i += 1;
    }
    assert(d.take(d.len() as int) =~= d);
    body.append(&list);
    body.append("\n");
    md.append(&body);
}

// ---------------------------------------------------------------------- export

/// Which issues are exported.
pub struct ExportQuery {
    pub include_closed: bool,
    pub issue_type: Option<IssueType>,
    pub labels: Vec<String>,
}

impl ExportQuery {
    pub open spec fn admits(self, i: IssueView) -> bool {
        &&& self.include_closed || i.status.spec_is_open()
        &&& self.issue_type is Some ==> i.issue_type == self.issue_type->0
        &&& forall|k: int|
            0 <= k < self.labels.deep_view().len() ==> i.labels.contains(
                #[trigger] self.labels.deep_view()[k],
            )
    }

    /// The issues that are exported, by priority and id.
    pub open spec fn result(self, entries: Seq<IssueView>) -> Seq<IssueView> {
        stable_sorted(
            listed(entries, false).filter(|i: IssueView| self.admits(i)),
            |a: IssueView, b: IssueView| export_le(a, b),
        )
    }
}

impl<'a> Test<&'a Issue> for ExportQuery {
    open spec fn holds(&self, v: IssueView) -> bool {
        self.admits(v)
    }

    fn test(&self, x: &&'a Issue) -> (r: bool) {
        if !(self.include_closed || x.status.is_open()) {
            return false;
        }
        match self.issue_type {
            Some(t) => if x.issue_type != t {
                return false;
            },
            None => {},
        }
        let mut i: usize = 0;
        while i < self.labels.len()
            invariant
                i <= self.labels.len(),
                forall|k: int|
                    0 <= k < i ==> x@.labels.contains(#[trigger] self.labels.deep_view()[k]),
            decreases self.labels.len() - i,
        {
            assert(self.labels.deep_view()[i as int] == self.labels@[i as int]@);
            if !contains_text(&x.labels, &self.labels[i]) {
                assert(!self.admits(x@));
                return false;
            }
            i += 1;
        }
        true
    }
}

pub open spec fn export_le(a: IssueView, b: IssueView) -> bool {
    a.priority < b.priority || (a.priority == b.priority && text_le(a.id, b.id))
}

/// Issues by priority and id.
pub struct ByPriorityAndId;

impl<'a> Order<&'a Issue> for ByPriorityAndId {
    open spec fn le(&self, a: IssueView, b: IssueView) -> bool {
        export_le(a, b)
    }

    proof fn lawful(&self) {
        lemma_text_order();
    }

    fn at_most(&self, a: &&'a Issue, b: &&'a Issue) -> (r: bool) {
        a.priority < b.priority || (a.priority == b.priority && text_at_most(&a.id, &b.id))
    }
}

/// The Markdown of those of the issues that are in a state, one after the other.
pub open spec fn group_body(
    entries: Seq<IssueView>,
    issues: Seq<IssueView>,
    status: Status,
) -> Seq<char>
    decreases issues.len(),
{
    if issues.len() == 0 {
        seq![]
    } else {
        let before = group_body(entries, issues.drop_last(), status);
        if issues.last().status == status {
            before + issue_md(entries, issues.last())
        } else {
            before
        }
    }
}

pub open spec fn group_size(issues: Seq<IssueView>, status: Status) -> nat
    decreases issues.len(),
{
    if issues.len() == 0 {
        0
    } else {
        group_size(issues.drop_last(), status) + if issues.last().status == status {
            1nat
        } else {
            0nat
        }
    }
}

/// The section for a state; none where no issue is in it.
pub open spec fn group_md(
    entries: Seq<IssueView>,
    issues: Seq<IssueView>,
    status: Status,
    label: Seq<char>,
) -> Seq<char> {
    if group_size(issues, status) == 0 {
        seq![]
    } else {
        "## "@ + label + " ("@ + decimal(group_size(issues, status)) + ")\n\n"@ + group_body(
            entries,
            issues,
            status,
        )
    }
}

/// All issues that are exported, as one document.
pub open spec fn export_md(
    entries: Seq<IssueView>,
    query: ExportQuery,
    now: Timestamp,
    version: Seq<char>,
) -> Seq<char> {
    let issues = query.result(entries);
    "# Issues\n\n_Generated "@ + formatted(now, "%Y-%m-%d %H:%M UTC"@) + " by trx "@ + version
        + "._\n\n"@ + group_md(entries, issues, Status::Open, "Open"@) + group_md(
        entries,
        issues,
        Status::InProgress,
        "In Progress"@,
    ) + group_md(entries, issues, Status::Blocked, "Blocked"@) + group_md(
        entries,
        issues,
        Status::Closed,
        "Closed"@,
    )
}

fn push_group(md: &mut String, issues: &Vec<&Issue>, store: &Store, status: Status, label: &str)
    ensures
        final(md)@ == old(md)@ + group_md(store.entries(), issues.deep_view(), status, label@),
{
    let ghost start = md@;
    let ghost d = issues.deep_view();
    let ghost entries = store.entries();
    let mut body = String::new();
    let mut n: u64 = 0;
    let mut i: usize = 0;
    assert(body@ =~= group_body(entries, d.take(0), status));
    while i < issues.len()
        invariant
            i <= issues.len(),
            d == issues.deep_view(),
            entries == store.entries(),
            n <= i,
            n == group_size(d.take(i as int), status),
            body@ == group_body(entries, d.take(i as int), status),
        decreases issues.len() - i,
    {
        assert(d.take(i + 1).drop_last() =~= d.take(i as int));
        assert(d.take(i + 1).last() == issues@[i as int]@);
        if issues[i].status == status {
            render_issue_md(&mut body, issues[i], store);
            n += 1;
        }
        i += 1;
    }
    assert(d.take(d.len() as int) =~= d);
    if n == 0 {
        assert(start + Seq::<char>::empty() =~= start);
        return;
    }
    let mut section = concat("## ", label);
    section.append(" (");
    section.append(&decimal_text(n));
    section.append(")\n\n");
    section.append(&body);
    md.append(&section);
}

/// Exports issues as one document.
pub fn export(store: &Store, query: &ExportQuery, now: &Timestamp, version: &str) -> (r: String)
    ensures
        r@ == export_md(store.entries(), *query, *now, version@),
{
    let kept = keep(store.list(false), query);
    assert((|v: IssueView| <ExportQuery as Test<&Issue>>::holds(query, v)) =~= (|i: IssueView|
        query.admits(i)));
    let issues = stable_sort(kept, &ByPriorityAndId);
    assert((|a: IssueView, b: IssueView| export_le(a, b)) =~= (|a: IssueView, b: IssueView|
        <ByPriorityAndId as Order<&Issue>>::le(&ByPriorityAndId, a, b)));
    let mut md = "# Issues\n\n_Generated ".to_owned();
    md.append(&now.format("%Y-%m-%d %H:%M UTC"));
    md.append(" by trx ");
    md.append(version);
    md.append("._\n\n");
    push_group(&mut md, &issues, store, Status::Open, "Open");
    push_group(&mut md, &issues, store, Status::InProgress, "In Progress");
    push_group(&mut md, &issues, store, Status::Blocked, "Blocked");
    push_group(&mut md, &issues, store, Status::Closed, "Closed");
    md
}

/// Every issue that is exported stands under exactly one state.
pub proof fn export_places_every_issue(issues: Seq<IssueView>)
    requires
        forall|k: int|
            0 <= k < issues.len() ==> (#[trigger] issues[k]).status != Status::Tombstone,
    ensures
        group_size(issues, Status::Open) + group_size(issues, Status::InProgress) + group_size(
            issues,
            Status::Blocked,
        ) + group_size(issues, Status::Closed) == issues.len(),
    decreases issues.len(),
{
    if issues.len() > 0 {
        let front = issues.drop_last();
        assert forall|k: int| 0 <= k < front.len() implies (#[trigger] front[k]).status
            != Status::Tombstone by {
            assert(front[k] == issues[k]);
        }
        export_places_every_issue(front);
        let s = issues[issues.len() - 1].status;
        assert(s != Status::Tombstone);
        assert(s is Open || s is InProgress || s is Blocked || s is Closed);
    }
}

/// Law: an export holds the issues that are not deleted, the closed ones where they are asked
/// for, of the type and with all of the labels that are asked for, and no other.
pub proof fn exports_hold_what_was_asked_for(
    query: ExportQuery,
    entries: Seq<IssueView>,
    x: IssueView,
)
    ensures
        query.result(entries).contains(x) <==> {
            &&& entries.contains(x)
            &&& x.status != Status::Tombstone
            &&& x.status == Status::Closed ==> query.include_closed
            &&& query.issue_type is Some ==> x.issue_type == query.issue_type->0
            &&& forall|k: int|
                0 <= k < query.labels@.len() ==> x.labels.contains((#[trigger] query.labels@[k])@)
        },
{
    let all = listed(entries, false);
    let f = |i: IssueView| query.admits(i);
    crate::sort::sorting_keeps_each(
        all.filter(f),
        |a: IssueView, b: IssueView| export_le(a, b),
        x,
    );
    crate::filter::filtering_keeps_what_passes(all, f, x);
    crate::store::listing_leaves_out_the_deleted(entries, false, x);
    let d = query.labels.deep_view();
    assert(d.len() == query.labels@.len());
    assert forall|k: int| 0 <= k < d.len() implies #[trigger] d[k] == query.labels@[k]@ by {}
    if forall|k: int|
        0 <= k < query.labels@.len() ==> x.labels.contains((#[trigger] query.labels@[k])@) {
        assert forall|k: int| 0 <= k < d.len() implies x.labels.contains(#[trigger] d[k]) by {
            assert(x.labels.contains(query.labels@[k]@));
        }
    }
    if query.admits(x) {
        assert forall|k: int| 0 <= k < query.labels@.len() implies x.labels.contains(
            (#[trigger] query.labels@[k])@,
        ) by {
            assert(x.labels.contains(d[k]));
        }
    }
}

/// Law: what is more urgent comes first in an export, and of two issues with one priority the
/// one with the smaller id.
pub proof fn exports_run_by_priority(query: ExportQuery, entries: Seq<IssueView>, j: int, k: int)
    requires
        0 <= j < k < query.result(entries).len(),
    ensures
        query.result(entries)[j].priority < query.result(entries)[k].priority || (
        query.result(entries)[j].priority == query.result(entries)[k].priority && !text_lt(
            query.result(entries)[k].id,
            query.result(entries)[j].id,
        )),
{
    let found = listed(entries, false).filter(|i: IssueView| query.admits(i));
    let le = |a: IssueView, b: IssueView| export_le(a, b);
    lemma_text_order();
    assert(is_total(le));
    assert(is_transitive(le));
    crate::sort::sorting_orders(found, le);
    let r = stable_sorted(found, le);
    assert(le(r[j], r[k]));
    if r[j].priority == r[k].priority {
        lemma_text_le_or_lt(r[j].id, r[k].id);
    }
}

proof fn lemma_bullets(lines: Seq<Seq<char>>, k: int)
    requires
        0 <= k < lines.len(),
    ensures
        stands_in(bullets(lines), "- "@ + lines[k] + "\n"@),
    decreases lines.len(),
{
    let front = lines.drop_last();
    let line = "- "@ + lines[k] + "\n"@;
    if k < front.len() {
        lemma_bullets(front, k);
        assert(front[k] == lines[k]);
        let tail = "- "@ + lines.last() + "\n"@;
        lemma_stands_deeper(seq![], bullets(front), tail, line);
        assert(seq![] + bullets(front) + tail =~= bullets(lines));
    } else {
        assert(bullets(lines) =~= bullets(front) + line + seq![]);
    }
}

/// The issue as Markdown tells that fact in a line of its own.
pub open spec fn tells_fact(entries: Seq<IssueView>, i: IssueView, fact: Seq<char>) -> bool {
    stands_in(issue_md(entries, i), "- "@ + fact + "\n"@)
}

proof fn lemma_fact_told(entries: Seq<IssueView>, i: IssueView, fact: Seq<char>)
    requires
        issue_facts(entries, i).contains(fact),
    ensures
        tells_fact(entries, i, fact),
{
    let facts = issue_facts(entries, i);
    let k = choose|k: int| 0 <= k < facts.len() && facts[k] == fact;
    lemma_bullets(facts, k);
    let head = "### "@ + i.id + " — "@ + i.title + " `[P"@ + decimal(i.priority as nat) + "]` `["@
        + i.issue_type.name() + "]`\n\n"@ + (match i.description {
        Some(d) => trimmed(d) + "\n\n"@,
        None => seq![],
    });
    lemma_stands_deeper(head, bullets(facts), "\n"@, "- "@ + fact + "\n"@);
}

/// Law: the Markdown of an issue begins with its id, title, priority and type, and holds its
/// description without the space round it.
pub proof fn issue_text_holds_the_issue(entries: Seq<IssueView>, i: IssueView)
    ensures
        ({
            let head = "### "@ + i.id + " — "@ + i.title + " `[P"@ + decimal(i.priority as nat)
                + "]` `["@ + i.issue_type.name() + "]`\n\n"@;
            issue_md(entries, i).take(head.len() as int) == head
        }),
        i.description is Some ==> stands_in(issue_md(entries, i), trimmed(i.description->0)),
{
    let md = issue_md(entries, i);
    let head = "### "@ + i.id + " — "@ + i.title + " `[P"@ + decimal(i.priority as nat) + "]` `["@
        + i.issue_type.name() + "]`\n\n"@;
    let rest = bullets(issue_facts(entries, i)) + "\n"@;
    match i.description {
        Some(d) => {
            assert(md =~= head + trimmed(d) + ("\n\n"@ + rest));
            assert(md.take(head.len() as int) =~= head);
        },
        None => {
            assert(md =~= head + rest);
            assert(md.take(head.len() as int) =~= head);
        },
    }
}

proof fn lemma_in_sum(a: Seq<Seq<char>>, b: Seq<Seq<char>>, x: Seq<char>)
    ensures
        (a + b).contains(x) <==> a.contains(x) || b.contains(x),
{
    crate::filter::chained_lists_hold_both(a, b, x);
}

proof fn lemma_facts(entries: Seq<IssueView>, i: IssueView, fact: Seq<char>)
    ensures
        ({
            let all = listed(entries, false);
            issue_facts(entries, i).contains(fact) <==> {
                ||| fact == "Created: "@ + formatted(i.created_at, "%Y-%m-%d"@)
                ||| list_line("Labels: "@, i.labels).contains(fact)
                ||| opt_line("Assignee: "@, i.assignee).contains(fact)
                ||| opt_line("Created by: "@, i.created_by).contains(fact)
                ||| opt_line("Closed: "@, i.close_reason).contains(fact)
                ||| opt_line("Parent: "@, parent_of(i.dependencies)).contains(fact)
                ||| list_line("Blocked by: "@, blockers_of(i.dependencies)).contains(fact)
                ||| list_line(
                    "Blocks: "@,
                    ids_of(dependents(all, i.id, DependencyType::Blocks)),
                ).contains(fact)
                ||| list_line(
                    "Children: "@,
                    ids_of(dependents(all, i.id, DependencyType::ParentChild)),
                ).contains(fact)
            }
        }),
{
    let all = listed(entries, false);
    let a0 = seq!["Created: "@ + formatted(i.created_at, "%Y-%m-%d"@)];
    let a1 = list_line("Labels: "@, i.labels);
    let a2 = opt_line("Assignee: "@, i.assignee);
    let a3 = opt_line("Created by: "@, i.created_by);
    let a4 = opt_line("Closed: "@, i.close_reason);
    let a5 = opt_line("Parent: "@, parent_of(i.dependencies));
    let a6 = list_line("Blocked by: "@, blockers_of(i.dependencies));
    let a7 = list_line("Blocks: "@, ids_of(dependents(all, i.id, DependencyType::Blocks)));
    let a8 = list_line("Children: "@, ids_of(dependents(all, i.id, DependencyType::ParentChild)));
    lemma_in_sum(a0, a1, fact);
    lemma_in_sum(a0 + a1, a2, fact);
    lemma_in_sum(a0 + a1 + a2, a3, fact);
    lemma_in_sum(a0 + a1 + a2 + a3, a4, fact);
    lemma_in_sum(a0 + a1 + a2 + a3 + a4, a5, fact);
    lemma_in_sum(a0 + a1 + a2 + a3 + a4 + a5, a6, fact);
    lemma_in_sum(a0 + a1 + a2 + a3 + a4 + a5 + a6, a7, fact);
    lemma_in_sum(a0 + a1 + a2 + a3 + a4 + a5 + a6 + a7, a8, fact);
    assert(a0.contains(fact) <==> fact == a0[0]) by {
        if fact == a0[0] {
            assert(a0[0] == fact);
        }
    }
}

/// Law: each of what is known of an issue has a line of its own in its Markdown: when it was
/// made and by whom, who it is assigned to, why it was closed, its parent, its labels, and the
/// issues that block it.
pub proof fn facts_of_an_issue_are_told(entries: Seq<IssueView>, i: IssueView)
    ensures
        tells_fact(entries, i, "Created: "@ + formatted(i.created_at, "%Y-%m-%d"@)),
        i.assignee is Some ==> tells_fact(entries, i, "Assignee: "@ + i.assignee->0),
        i.created_by is Some ==> tells_fact(entries, i, "Created by: "@ + i.created_by->0),
        i.close_reason is Some ==> tells_fact(entries, i, "Closed: "@ + i.close_reason->0),
        parent_of(i.dependencies) is Some ==> tells_fact(
            entries,
            i,
            "Parent: "@ + parent_of(i.dependencies)->0,
        ),
        i.labels.len() > 0 ==> tells_fact(entries, i, "Labels: "@ + joined(i.labels, ", "@)),
        blockers_of(i.dependencies).len() > 0 ==> tells_fact(
            entries,
            i,
            "Blocked by: "@ + joined(blockers_of(i.dependencies), ", "@),
        ),
{
    let created = "Created: "@ + formatted(i.created_at, "%Y-%m-%d"@);
    lemma_facts(entries, i, created);
    lemma_fact_told(entries, i, created);
    if i.assignee is Some {
        let fact = "Assignee: "@ + i.assignee->0;
        assert(opt_line("Assignee: "@, i.assignee)[0] == fact);
        lemma_facts(entries, i, fact);
        lemma_fact_told(entries, i, fact);
    }
    if i.created_by is Some {
        let fact = "Created by: "@ + i.created_by->0;
        assert(opt_line("Created by: "@, i.created_by)[0] == fact);
        lemma_facts(entries, i, fact);
        lemma_fact_told(entries, i, fact);
    }
    if i.close_reason is Some {
        let fact = "Closed: "@ + i.close_reason->0;
        assert(opt_line("Closed: "@, i.close_reason)[0] == fact);
        lemma_facts(entries, i, fact);
        lemma_fact_told(entries, i, fact);
    }
    if parent_of(i.dependencies) is Some {
        let fact = "Parent: "@ + parent_of(i.dependencies)->0;
        assert(opt_line("Parent: "@, parent_of(i.dependencies))[0] == fact);
        lemma_facts(entries, i, fact);
        lemma_fact_told(entries, i, fact);
    }
    if i.labels.len() > 0 {
        let fact = "Labels: "@ + joined(i.labels, ", "@);
        assert(list_line("Labels: "@, i.labels)[0] == fact);
        lemma_facts(entries, i, fact);
        lemma_fact_told(entries, i, fact);
    }
    let blockers = blockers_of(i.dependencies);
    if blockers.len() > 0 {
        let fact = "Blocked by: "@ + joined(blockers, ", "@);
        assert(list_line("Blocked by: "@, blockers)[0] == fact);
        lemma_facts(entries, i, fact);
        lemma_fact_told(entries, i, fact);
    }
}

/// Law: every issue of the store that is blocked by an issue or below it is named in its
/// Markdown.
pub proof fn dependents_of_an_issue_are_told(
    entries: Seq<IssueView>,
    i: IssueView,
    y: IssueView,
    dep_type: DependencyType,
)
    requires
        entries.contains(y),
        y.status != Status::Tombstone,
        exists|d: DependencyView| #[trigger]
            y.dependencies.contains(d) && d.depends_on_id == i.id && d.dep_type == dep_type,
    ensures
        dep_type == DependencyType::Blocks ==> exists|names: Seq<Seq<char>>|
            names.contains(y.id) && #[trigger] tells_fact(
                entries,
                i,
                "Blocks: "@ + joined(names, ", "@),
            ),
        dep_type == DependencyType::ParentChild ==> exists|names: Seq<Seq<char>>|
            names.contains(y.id) && #[trigger] tells_fact(
                entries,
                i,
                "Children: "@ + joined(names, ", "@),
            ),
{
    let all = listed(entries, false);
    crate::store::listing_leaves_out_the_deleted(entries, false, y);
    crate::relations::dependents_have_the_dependency(all, i.id, dep_type, y);
    let found = dependents(all, i.id, dep_type);
    let k = choose|k: int| 0 <= k < found.len() && found[k] == y;
    let names = ids_of(found);
    assert(names[k] == y.id);
    assert(names.contains(y.id));
    if dep_type == DependencyType::Blocks {
        let fact = "Blocks: "@ + joined(names, ", "@);
        assert(list_line("Blocks: "@, names)[0] == fact);
        lemma_facts(entries, i, fact);
        lemma_fact_told(entries, i, fact);
    }
    if dep_type == DependencyType::ParentChild {
        let fact = "Children: "@ + joined(names, ", "@);
        assert(list_line("Children: "@, names)[0] == fact);
        lemma_facts(entries, i, fact);
        lemma_fact_told(entries, i, fact);
    }
}

proof fn lemma_group_holds(
    entries: Seq<IssueView>,
    issues: Seq<IssueView>,
    status: Status,
    k: int,
)
    requires
        0 <= k < issues.len(),
        issues[k].status == status,
    ensures
        stands_in(group_body(entries, issues, status), issue_md(entries, issues[k])),
        group_size(issues, status) > 0,
    decreases issues.len(),
{
    let front = issues.drop_last();
    let body = group_body(entries, front, status);
    let md = issue_md(entries, issues[k]);
    if k < front.len() {
        lemma_group_holds(entries, front, status, k);
        assert(front[k] == issues[k]);
        let tail = if issues.last().status == status {
            issue_md(entries, issues.last())
        } else {
            seq![]
        };
        lemma_stands_deeper(seq![], body, tail, md);
        assert(seq![] + body + tail =~= group_body(entries, issues, status));
    } else {
        assert(group_body(entries, issues, status) =~= body + md + seq![]);
    }
}

/// Law: the document holds the Markdown of every issue that is exported.
pub proof fn exported_documents_hold_every_issue(
    entries: Seq<IssueView>,
    query: ExportQuery,
    now: Timestamp,
    version: Seq<char>,
    x: IssueView,
)
    requires
        query.result(entries).contains(x),
    ensures
        stands_in(export_md(entries, query, now, version), issue_md(entries, x)),
{
    let issues = query.result(entries);
    exports_hold_what_was_asked_for(query, entries, x);
    let k = choose|k: int| 0 <= k < issues.len() && issues[k] == x;
    lemma_group_holds(entries, issues, x.status, k);
    let head = "# Issues\n\n_Generated "@ + formatted(now, "%Y-%m-%d %H:%M UTC"@) + " by trx "@
        + version + "._\n\n"@;
    let g1 = group_md(entries, issues, Status::Open, "Open"@);
    let g2 = group_md(entries, issues, Status::InProgress, "In Progress"@);
    let g3 = group_md(entries, issues, Status::Blocked, "Blocked"@);
    let g4 = group_md(entries, issues, Status::Closed, "Closed"@);
    let label = match x.status {
        Status::Open => "Open"@,
        Status::InProgress => "In Progress"@,
        Status::Blocked => "Blocked"@,
        _ => "Closed"@,
    };
    let md = issue_md(entries, x);
    let g = group_md(entries, issues, x.status, label);
    let body = group_body(entries, issues, x.status);
    let title = "## "@ + label + " ("@ + decimal(group_size(issues, x.status)) + ")\n\n"@;
    lemma_stands_deeper(title, body, seq![], md);
    assert(title + body + seq![] =~= g);
    let all = export_md(entries, query, now, version);
    assert(all =~= head + g1 + g2 + g3 + g4);
    match x.status {
        Status::Open => {
            lemma_stands_deeper(head, g1, g2 + g3 + g4, md);
            assert(all =~= head + g1 + (g2 + g3 + g4));
        },
        Status::InProgress => {
            lemma_stands_deeper(head + g1, g2, g3 + g4, md);
            assert(all =~= head + g1 + g2 + (g3 + g4));
        },
        Status::Blocked => {
            lemma_stands_deeper(head + g1 + g2, g3, g4, md);
        },
        _ => {
            lemma_stands_deeper(head + g1 + g2 + g3, g4, seq![], md);
            assert(all =~= head + g1 + g2 + g3 + g4 + seq![]);
        },
    }
}

} // verus!
