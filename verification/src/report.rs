//! Issues as lines for the terminal.
use crate::agent_ctx::AgentCtx;
use crate::events::{Event, EventView};
use crate::filter::{chained_lists_hold_both, filtering_keeps_what_passes, limit_keeps_the_front};
use crate::issue::{Dependency, DependencyType, DependencyView, Issue, IssueView, Status};
use crate::query::SortKey;
use crate::relations::{
    blockers_among, dependents, dependents_have_the_dependency, find_dependents, open_blockers,
    HandoverRow, ReadyReport,
};
use crate::render::{event_line, print_event_line};
use crate::store::{listed, listing_leaves_out_the_deleted, Store};
use crate::style::{line_of, new_line, plain, push_line, push_span, toned, Span, SpanView, Tone};
use crate::text::{concat, decimal, decimal_text, join, joined, pad_right, padded_right};
use crate::time::{formatted, Timestamp};
use crate::timeline::{filter_events, EventQuery};
use vstd::prelude::*;

verus! {

// ----------------------------------------------------------------------- listing

/// The tone of a state.
pub open spec fn status_tone(s: Status) -> Tone {
    match s {
        Status::Open => Tone::White,
        Status::InProgress => Tone::Yellow,
        Status::Blocked => Tone::Red,
        Status::Closed => Tone::Green,
        Status::Tombstone => Tone::Dim,
    }
}

fn tone_of_status(s: Status) -> (r: Tone)
    ensures
        r == status_tone(s),
{
    match s {
        Status::Open => Tone::White,
        Status::InProgress => Tone::Yellow,
        Status::Blocked => Tone::Red,
        Status::Closed => Tone::Green,
        Status::Tombstone => Tone::Dim,
    }
}

/// Whether a listing by that key shows the date that it is sorted by.
pub open spec fn shows_date(sort: SortKey) -> bool {
    sort == SortKey::Created || sort == SortKey::Updated || sort == SortKey::Closed
}

/// The date that a listing shows: that of the key, or dashes.
pub open spec fn shown_date(i: IssueView, sort: SortKey) -> Seq<char> {
    let at = match sort {
        SortKey::Created => Some(i.created_at),
        SortKey::Updated => Some(i.updated_at),
        SortKey::Closed => i.closed_at,
        _ => None,
    };
    match at {
        Some(t) => formatted(t, "%Y-%m-%d"@),
        None => "----------"@,
    }
}

/// ` [P2] [`
pub open spec fn priority_mark(p: u8) -> Seq<char> {
    " [P"@ + decimal(p as nat) + "] ["@
}

fn priority_text(p: u8) -> (r: String)
    ensures
        r@ == priority_mark(p),
{
    let mut r = concat(" [P", &decimal_text(p as u64));
    r.append("] [");
    r
}

/// An issue in a listing.
pub open spec fn list_line(i: IssueView, sort: SortKey) -> Seq<SpanView> {
    (if shows_date(sort) {
        seq![toned(Tone::Dim, shown_date(i, sort)), plain(" "@)]
    } else {
        seq![]
    }) + seq![
        toned(Tone::Cyan, i.id),
        plain(priority_mark(i.priority)),
        toned(Tone::Blue, i.issue_type.name()),
        plain("] "@),
        toned(status_tone(i.status), i.status.name()),
        plain(" - "@),
        plain(i.title),
    ]
}

pub fn make_list_line(issue: &Issue, sort: SortKey) -> (r: Vec<Span>)
    ensures
        r.deep_view() == list_line(issue@, sort),
{
    let mut r = new_line();
    let at: Option<Timestamp> = match sort {
        SortKey::Created => Some(issue.created_at),
        SortKey::Updated => Some(issue.updated_at),
        SortKey::Closed => issue.closed_at,
        _ => None,
    };
    if sort == SortKey::Created || sort == SortKey::Updated || sort == SortKey::Closed {
        let date = match &at {
            Some(t) => t.format("%Y-%m-%d"),
            None => "----------".to_owned(),
        };
        push_span(&mut r, Tone::Dim, &date);
        push_span(&mut r, Tone::Plain, " ");
    }
    push_span(&mut r, Tone::Cyan, &issue.id);
    push_span(&mut r, Tone::Plain, &priority_text(issue.priority));
    push_span(&mut r, Tone::Blue, issue.issue_type.text());
    push_span(&mut r, Tone::Plain, "] ");
    push_span(&mut r, tone_of_status(issue.status), issue.status.text());
    push_span(&mut r, Tone::Plain, " - ");
    push_span(&mut r, Tone::Plain, &issue.title);
    assert(r.deep_view() =~= list_line(issue@, sort));
    r
}

/// A listing, or that nothing was found.
pub open spec fn list_lines(issues: Seq<IssueView>, sort: SortKey) -> Seq<Seq<SpanView>> {
    if issues.len() == 0 {
        seq![seq![plain("No issues found"@)]]
    } else {
        Seq::new(issues.len(), |k: int| list_line(issues[k], sort))
    }
}

pub fn make_list(issues: &Vec<&Issue>, sort: SortKey) -> (r: Vec<Vec<Span>>)
    ensures
        r.deep_view() == list_lines(issues.deep_view(), sort),
{
    let mut r: Vec<Vec<Span>> = Vec::new();
    if issues.len() == 0 {
        r.push(line_of(Tone::Plain, "No issues found"));
        assert(r.deep_view() =~= list_lines(issues.deep_view(), sort));
        return r;
    }
    let mut i: usize = 0;
    while i < issues.len()
        invariant
            i <= issues.len(),
            r@.len() == i,
            forall|k: int|
                0 <= k < i ==> (#[trigger] r@[k]).deep_view() == list_line(issues@[k]@, sort),
        decreases issues.len() - i,
    {
        r.push(make_list_line(issues[i], sort));
        i += 1;
    }
    assert(r.deep_view() =~= list_lines(issues.deep_view(), sort));
    r
}

// ------------------------------------------------------------------------- ready

/// An issue that is ready.
pub open spec fn ready_line(i: IssueView) -> Seq<SpanView> {
    seq![
        toned(Tone::Cyan, i.id),
        plain(priority_mark(i.priority)),
        toned(Tone::Blue, i.issue_type.name()),
        plain("] - "@),
        plain(i.title),
    ]
}

/// An issue that is blocked, and by what.
pub open spec fn blocked_line(i: IssueView, open: Seq<Seq<char>>) -> Seq<SpanView> {
    ready_line(i) + seq![
        plain(" "@),
        toned(Tone::Red, "blocked by"@),
        plain(" "@),
        toned(Tone::Red, joined(open_blockers(i, open), ", "@)),
    ]
}

/// The report on what can be worked on. What is blocked is shown where something is ready.
pub open spec fn ready_lines(
    ready: Seq<IssueView>,
    blocked: Seq<IssueView>,
    open: Seq<Seq<char>>,
) -> Seq<Seq<SpanView>> {
    if ready.len() == 0 {
        seq![seq![plain("No ready issues"@)]]
    } else {
        seq![seq![toned(Tone::Bold, "Ready issues (unblocked):"@)]] + Seq::new(
            ready.len(),
            |k: int| ready_line(ready[k]),
        ) + (if blocked.len() == 0 {
            seq![]
        } else {
            seq![seq![], seq![toned(Tone::Bold, "Blocked issues:"@)]] + Seq::new(
                blocked.len(),
                |k: int| blocked_line(blocked[k], open),
            )
        })
    }
}

fn make_ready_line(issue: &Issue) -> (r: Vec<Span>)
    ensures
        r.deep_view() == ready_line(issue@),
{
    let mut r = new_line();
    push_span(&mut r, Tone::Cyan, &issue.id);
    push_span(&mut r, Tone::Plain, &priority_text(issue.priority));
    push_span(&mut r, Tone::Blue, issue.issue_type.text());
    push_span(&mut r, Tone::Plain, "] - ");
    push_span(&mut r, Tone::Plain, &issue.title);
    assert(r.deep_view() =~= ready_line(issue@));
    r
}

pub fn make_ready(report: &ReadyReport) -> (r: Vec<Vec<Span>>)
    ensures
        r.deep_view() == ready_lines(
            report.ready.deep_view(),
            report.blocked.deep_view(),
            report.open.deep_view(),
        ),
{
    let ghost rd = report.ready.deep_view();
    let ghost bd = report.blocked.deep_view();
    let ghost od = report.open.deep_view();
    let mut r: Vec<Vec<Span>> = Vec::new();
    assert(r.deep_view() =~= seq![]);
    if report.ready.len() == 0 {
        push_line(&mut r, line_of(Tone::Plain, "No ready issues"));
        assert(r.deep_view() =~= ready_lines(rd, bd, od));
        return r;
    }
    push_line(&mut r, line_of(Tone::Bold, "Ready issues (unblocked):"));
    let ghost head = r.deep_view();
    let ghost lines = Seq::new(rd.len(), |k: int| ready_line(rd[k]));
    let mut i: usize = 0;
    assert(r.deep_view() =~= head + lines.take(0));
    while i < report.ready.len()
        invariant
            i <= report.ready.len(),
            rd == report.ready.deep_view(),
            lines == Seq::new(rd.len(), |k: int| ready_line(rd[k])),
            r.deep_view() == head + lines.take(i as int),
        decreases report.ready.len() - i,
    {
        assert(rd[i as int] == report.ready@[i as int]@);
        push_line(&mut r, make_ready_line(report.ready[i]));
        i += 1;
        assert(r.deep_view() =~= head + lines.take(i as int));
    }
    assert(lines.take(lines.len() as int) =~= lines);
    if report.blocked.len() > 0 {
        let ghost front = r.deep_view();
        push_line(&mut r, new_line());
        push_line(&mut r, line_of(Tone::Bold, "Blocked issues:"));
        let ghost base = r.deep_view();
        assert(base =~= front + seq![
            Seq::<SpanView>::empty(),
            seq![toned(Tone::Bold, "Blocked issues:"@)],
        ]);
        let ghost more = Seq::new(bd.len(), |k: int| blocked_line(bd[k], od));
        let mut k: usize = 0;
        assert(r.deep_view() =~= base + more.take(0));
        while k < report.blocked.len()
            invariant
                k <= report.blocked.len(),
                bd == report.blocked.deep_view(),
                od == report.open.deep_view(),
                more == Seq::new(bd.len(), |k: int| blocked_line(bd[k], od)),
                r.deep_view() == base + more.take(k as int),
            decreases report.blocked.len() - k,
        {
            let issue = report.blocked[k];
            assert(bd[k as int] == issue@);
            let mut line = make_ready_line(issue);
            push_span(&mut line, Tone::Plain, " ");
            push_span(&mut line, Tone::Red, "blocked by");
            push_span(&mut line, Tone::Plain, " ");
            push_span(&mut line, Tone::Red, &join(&blockers_among(issue, &report.open), ", "));
            assert(line.deep_view() =~= blocked_line(issue@, od));
            push_line(&mut r, line);
            k += 1;
            assert(r.deep_view() =~= base + more.take(k as int));
        }
        assert(more.take(more.len() as int) =~= more);
    }
    assert(r.deep_view() =~= ready_lines(rd, bd, od));
    r
}

// ---------------------------------------------------------------------- handover

/// A line of a handover.
pub open spec fn handover_line(i: IssueView, ready: bool, blocked_by: Seq<Seq<char>>) -> Seq<char> {
    (if ready {
        "▶"@
    } else {
        "◼"@
    }) + " "@ + i.id + " P"@ + decimal(i.priority as nat) + " ["@ + i.issue_type.name() + "] "@
        + i.title + (if blocked_by.len() == 0 {
        seq![]
    } else {
        " ← "@ + joined(blocked_by, ","@)
    })
}

pub fn make_handover_line(row: &HandoverRow) -> (r: String)
    ensures
        r@ == handover_line(row.issue@, row.ready, row.blocked_by.deep_view()),
{
    let mut r = if row.ready {
        "▶".to_owned()
    } else {
        "◼".to_owned()
    };
    r.append(" ");
    r.append(&row.issue.id);
    r.append(" P");
    r.append(&decimal_text(row.issue.priority as u64));
    r.append(" [");
    r.append(row.issue.issue_type.text());
    r.append("] ");
    r.append(&row.issue.title);
    assert(row.blocked_by@.len() == row.blocked_by.deep_view().len());
    if row.blocked_by.len() > 0 {
        r.append(&concat(" ← ", &join(&row.blocked_by, ",")));
    } else {
        assert(r@ =~= r@ + Seq::<char>::empty());
    }
    r
}

// ------------------------------------------------------------------------ search

/// A hit of a search, with the repository that it is in.
pub open spec fn search_line(repo: Seq<char>, i: IssueView) -> Seq<SpanView> {
    seq![
        plain("["@),
        toned(Tone::Cyan, repo),
        plain("] "@),
        toned(Tone::Cyan, i.id),
        plain(priority_mark(i.priority)),
        toned(Tone::Blue, i.issue_type.name()),
        plain("] "@),
        plain(i.status.name()),
        plain(" - "@),
        plain(i.title),
    ]
}

pub fn make_search_line(repo: &str, issue: &Issue) -> (r: Vec<Span>)
    ensures
        r.deep_view() == search_line(repo@, issue@),
{
    let mut r = new_line();
    push_span(&mut r, Tone::Plain, "[");
    push_span(&mut r, Tone::Cyan, repo);
    push_span(&mut r, Tone::Plain, "] ");
    push_span(&mut r, Tone::Cyan, &issue.id);
    push_span(&mut r, Tone::Plain, &priority_text(issue.priority));
    push_span(&mut r, Tone::Blue, issue.issue_type.text());
    push_span(&mut r, Tone::Plain, "] ");
    push_span(&mut r, Tone::Plain, issue.status.text());
    push_span(&mut r, Tone::Plain, " - ");
    push_span(&mut r, Tone::Plain, &issue.title);
    assert(r.deep_view() =~= search_line(repo@, issue@));
    r
}

// -------------------------------------------------------------------------- show

pub open spec fn labelled(label: Seq<char>, text: Seq<char>) -> Seq<SpanView> {
    seq![plain(label + text)]
}

fn make_labelled(label: &str, text: &str) -> (r: Vec<Span>)
    ensures
        r.deep_view() == labelled(label@, text@),
{
    line_of(Tone::Plain, &concat(label, text))
}

/// The sign of an issue: open or not.
pub open spec fn state_sign(i: IssueView) -> Seq<char> {
    if i.status.spec_is_open() {
        "○"@
    } else {
        "●"@
    }
}

/// A child below its parent.
pub open spec fn child_line(i: IssueView) -> Seq<SpanView> {
    seq![
        plain("  "@),
        plain(state_sign(i)),
        plain(" "@),
        toned(Tone::Cyan, i.id),
        plain(priority_mark(i.priority)),
        toned(Tone::Blue, i.issue_type.name()),
        plain("] "@),
        plain(i.title),
    ]
}

/// An issue below the one that blocks it.
pub open spec fn held_line(i: IssueView) -> Seq<SpanView> {
    seq![
        plain("  "@),
        plain(state_sign(i)),
        plain(" "@),
        toned(Tone::Cyan, i.id),
        plain(" [P"@ + decimal(i.priority as nat) + "] "@),
        plain(i.title),
    ]
}

pub open spec fn dependency_line(d: DependencyView) -> Seq<SpanView> {
    seq![plain("  "@ + d.issue_id + " "@ + d.dep_type.name() + " "@ + d.depends_on_id)]
}

/// An empty line, a heading and lines, where there are lines.
pub open spec fn section(heading: Seq<char>, lines: Seq<Seq<SpanView>>) -> Seq<Seq<SpanView>> {
    if lines.len() == 0 {
        seq![]
    } else {
        seq![seq![], seq![toned(Tone::Bold, heading)]] + lines
    }
}

/// The last five events of an issue.
pub open spec fn recent_events(events: Seq<EventView>, id: Seq<char>) -> Seq<EventView> {
    crate::filter::limited(
        crate::sort::stable_sorted(
            events.filter(|e: EventView| e.issue_id == id),
            |a: EventView, b: EventView| crate::timeline::newer_first(a, b),
        ),
        Some(5),
    )
}

/// An issue in full: its fields, its links, and what happened to it of late.
pub open spec fn show_lines(
    entries: Seq<IssueView>,
    i: IssueView,
    events: Seq<EventView>,
) -> Seq<Seq<SpanView>> {
    let all = listed(entries, false);
    let children = dependents(all, i.id, DependencyType::ParentChild);
    let held = dependents(all, i.id, DependencyType::Blocks);
    let recent = recent_events(events, i.id);
    seq![
        seq![toned(Tone::CyanBold, i.id), plain(" "@), toned(Tone::Bold, i.title)],
        seq![],
        labelled("Status:   "@, i.status.name()),
        labelled("Priority: P"@, decimal(i.priority as nat)),
        labelled("Type:     "@, i.issue_type.name()),
        labelled("Created:  "@, formatted(i.created_at, "%Y-%m-%d %H:%M"@)),
        labelled("Updated:  "@, formatted(i.updated_at, "%Y-%m-%d %H:%M"@)),
    ] + section(
        "Description:"@,
        match i.description {
            Some(d) => seq![seq![plain(d)]],
            None => seq![],
        },
    ) + section(
        "Dependencies:"@,
        Seq::new(i.dependencies.len(), |k: int| dependency_line(i.dependencies[k])),
    ) + section("Children:"@, Seq::new(children.len(), |k: int| child_line(children[k]))) + section(
        "Blocks:"@,
        Seq::new(held.len(), |k: int| held_line(held[k])),
    ) + section("Recent activity:"@, Seq::new(recent.len(), |k: int| event_line(recent[k])))
}

fn make_child_line(issue: &Issue) -> (r: Vec<Span>)
    ensures
        r.deep_view() == child_line(issue@),
{
    let mut r = new_line();
    push_span(&mut r, Tone::Plain, "  ");
    push_span(
        &mut r,
        Tone::Plain,
        if issue.status.is_open() {
            "○"
        } else {
            "●"
        },
    );
    push_span(&mut r, Tone::Plain, " ");
    push_span(&mut r, Tone::Cyan, &issue.id);
    push_span(&mut r, Tone::Plain, &priority_text(issue.priority));
    push_span(&mut r, Tone::Blue, issue.issue_type.text());
    push_span(&mut r, Tone::Plain, "] ");
    push_span(&mut r, Tone::Plain, &issue.title);
    assert(r.deep_view() =~= child_line(issue@));
    r
}

fn make_held_line(issue: &Issue) -> (r: Vec<Span>)
    ensures
        r.deep_view() == held_line(issue@),
{
    let mut mark = concat(" [P", &decimal_text(issue.priority as u64));
    mark.append("] ");
    let mut r = new_line();
    push_span(&mut r, Tone::Plain, "  ");
    push_span(
        &mut r,
        Tone::Plain,
        if issue.status.is_open() {
            "○"
        } else {
            "●"
        },
    );
    push_span(&mut r, Tone::Plain, " ");
    push_span(&mut r, Tone::Cyan, &issue.id);
    push_span(&mut r, Tone::Plain, &mark);
    push_span(&mut r, Tone::Plain, &issue.title);
    assert(r.deep_view() =~= held_line(issue@));
    r
}

fn make_dependency_line(d: &Dependency) -> (r: Vec<Span>)
    ensures
        r.deep_view() == dependency_line(d@),
{
    let mut t = concat("  ", &d.issue_id);
    t.append(" ");
    t.append(d.dep_type.text());
    t.append(" ");
    t.append(&d.depends_on_id);
    line_of(Tone::Plain, &t)
}

fn append_section(lines: &mut Vec<Vec<Span>>, heading: &str, body: Vec<Vec<Span>>)
    ensures
        final(lines).deep_view() == old(lines).deep_view() + section(heading@, body.deep_view()),
{
    let ghost before = lines.deep_view();
    let ghost b = body.deep_view();
    if body.len() == 0 {
        assert(before + Seq::<Seq<SpanView>>::empty() =~= before);
        return;
    }
    push_line(lines, new_line());
    push_line(lines, line_of(Tone::Bold, heading));
    let ghost head = lines.deep_view();
    let mut rest = body;
    lines.append(&mut rest);
    assert(lines.deep_view() =~= head + b);
    assert(head + b =~= before + section(heading@, b));
}

/// The last five events of an issue.
pub fn pick_recent(events: Vec<Event>, id: &str) -> (r: Vec<Event>)
    ensures
        r.deep_view() == recent_events(events.deep_view(), id@),
{
    let q = EventQuery {
        issue: Some(id.to_owned()),
        session: None,
        user: None,
        action: None,
        since: None,
        until: None,
        limit: Some(5),
    };
    let r = filter_events(events, &q);
    assert((|e: EventView| q.admits(e)) =~= (|e: EventView| e.issue_id == id@));
    r
}

/// An issue in full. `events` is the log, or nothing where it cannot be read.
pub fn show(store: &Store, issue: &Issue, events: Vec<Event>) -> (r: Vec<Vec<Span>>)
    ensures
        r.deep_view() == show_lines(store.entries(), issue@, events.deep_view()),
{
    let ghost i = issue@;
    let ghost all = listed(store.entries(), false);
    let mut r: Vec<Vec<Span>> = Vec::new();
    assert(r.deep_view() =~= seq![]);
    let mut head = new_line();
    push_span(&mut head, Tone::CyanBold, &issue.id);
    push_span(&mut head, Tone::Plain, " ");
    push_span(&mut head, Tone::Bold, &issue.title);
    assert(head.deep_view() =~= seq![
        toned(Tone::CyanBold, i.id),
        plain(" "@),
        toned(Tone::Bold, i.title),
    ]);
    push_line(&mut r, head);
    push_line(&mut r, new_line());
    push_line(&mut r, make_labelled("Status:   ", issue.status.text()));
    push_line(&mut r, make_labelled("Priority: P", &decimal_text(issue.priority as u64)));
    push_line(&mut r, make_labelled("Type:     ", issue.issue_type.text()));
    push_line(&mut r, make_labelled("Created:  ", &issue.created_at.format("%Y-%m-%d %H:%M")));
    push_line(&mut r, make_labelled("Updated:  ", &issue.updated_at.format("%Y-%m-%d %H:%M")));
    assert(r.deep_view() =~= seq![
        seq![toned(Tone::CyanBold, i.id), plain(" "@), toned(Tone::Bold, i.title)],
        seq![],
        labelled("Status:   "@, i.status.name()),
        labelled("Priority: P"@, decimal(i.priority as nat)),
        labelled("Type:     "@, i.issue_type.name()),
        labelled("Created:  "@, formatted(i.created_at, "%Y-%m-%d %H:%M"@)),
        labelled("Updated:  "@, formatted(i.updated_at, "%Y-%m-%d %H:%M"@)),
    ]);
    let mut desc: Vec<Vec<Span>> = Vec::new();
    if let Some(d) = &issue.description {
        desc.push(line_of(Tone::Plain, d));
    }
    assert(desc.deep_view() =~= (match i.description {
        Some(d) => seq![seq![plain(d)]],
        None => seq![],
    }));
    append_section(&mut r, "Description:", desc);
    let mut deps: Vec<Vec<Span>> = Vec::new();
    let mut k: usize = 0;
    while k < issue.dependencies.len()
        invariant
            k <= issue.dependencies.len(),
            deps@.len() == k,
            forall|m: int|
                0 <= m < k ==> (#[trigger] deps@[m]).deep_view() == dependency_line(
                    issue.dependencies@[m]@,
                ),
        decreases issue.dependencies.len() - k,
    {
        deps.push(make_dependency_line(&issue.dependencies[k]));
        k += 1;
    }
    assert(deps.deep_view() =~= Seq::new(
        i.dependencies.len(),
        |k: int| dependency_line(i.dependencies[k]),
    ));
    append_section(&mut r, "Dependencies:", deps);
    let children = find_dependents(store.list(false), &issue.id, DependencyType::ParentChild);
    let ghost cv = children.deep_view();
    let mut kids: Vec<Vec<Span>> = Vec::new();
    let mut k: usize = 0;
    while k < children.len()
        invariant
            k <= children.len(),
            kids@.len() == k,
            forall|m: int|
                0 <= m < k ==> (#[trigger] kids@[m]).deep_view() == child_line(children@[m]@),
        decreases children.len() - k,
    {
        kids.push(make_child_line(children[k]));
        k += 1;
    }
    assert(kids.deep_view() =~= Seq::new(cv.len(), |k: int| child_line(cv[k])));
    append_section(&mut r, "Children:", kids);
    let held = find_dependents(store.list(false), &issue.id, DependencyType::Blocks);
    let ghost hv = held.deep_view();
    let mut rows: Vec<Vec<Span>> = Vec::new();
    let mut k: usize = 0;
    while k < held.len()
        invariant
            k <= held.len(),
            rows@.len() == k,
            forall|m: int|
                0 <= m < k ==> (#[trigger] rows@[m]).deep_view() == held_line(held@[m]@),
        decreases held.len() - k,
    {
        rows.push(make_held_line(held[k]));
        k += 1;
    }
    assert(rows.deep_view() =~= Seq::new(hv.len(), |k: int| held_line(hv[k])));
    append_section(&mut r, "Blocks:", rows);
    let recent = pick_recent(events, &issue.id);
    let ghost rv = recent.deep_view();
    let mut last: Vec<Vec<Span>> = Vec::new();
    let mut k: usize = 0;
    while k < recent.len()
        invariant
            k <= recent.len(),
            last@.len() == k,
            forall|m: int|
                0 <= m < k ==> (#[trigger] last@[m]).deep_view() == event_line(recent@[m]@),
        decreases recent.len() - k,
    {
        last.push(print_event_line(&recent[k]));
        k += 1;
    }
    assert(last.deep_view() =~= Seq::new(rv.len(), |k: int| event_line(rv[k])));
    append_section(&mut r, "Recent activity:", last);
    r
}

// -------------------------------------------------------------------------- info

/// The number of issues in all, open, and closed.
pub struct IssueCounts {
    pub all: usize,
    pub open: usize,
    pub closed: usize,
}

pub open spec fn open_count(issues: Seq<IssueView>) -> nat
    decreases issues.len(),
{
    if issues.len() == 0 {
        0
    } else {
        open_count(issues.drop_last()) + if issues.last().status.spec_is_open() {
            1nat
        } else {
            0nat
        }
    }
}

/// Counts the issues of a store, deleted ones among them.
pub fn count_issues(store: &Store) -> (r: IssueCounts)
    ensures
        r.all == listed(store.entries(), true).len(),
        r.open == open_count(listed(store.entries(), true)),
        r.closed == r.all - r.open,
{
    let issues = store.list(true);
    let ghost d = issues.deep_view();
    let mut open: usize = 0;
    let mut closed: usize = 0;
    let mut i: usize = 0;
    while i < issues.len()
        invariant
            i <= issues.len(),
            d == issues.deep_view(),
            open == open_count(d.take(i as int)),
            open + closed == i,
        decreases issues.len() - i,
    {
        assert(d.take(i + 1).drop_last() =~= d.take(i as int));
        assert(d.take(i + 1).last() == issues@[i as int]@);
        if issues[i].status.is_open() {
            open += 1;
        }
        if issues[i].status.is_closed() {
            closed += 1;
        }
        i += 1;
    }
    assert(d.take(d.len() as int) =~= d);
    IssueCounts { all: issues.len(), open, closed }
}

/// One variable of a context, where it is set.
pub open spec fn ctx_row(label: Seq<char>, value: Option<Seq<char>>) -> Seq<Seq<char>> {
    match value {
        Some(v) => seq!["  "@ + padded_right(label, 20) + " "@ + v],
        None => seq![],
    }
}

/// The variables of a context that are set, each on a line.
pub open spec fn ctx_rows(c: AgentCtx) -> Seq<Seq<char>> {
    ctx_row("version"@, c.version.deep_view()) + ctx_row("platform"@, c.platform.deep_view())
        + ctx_row("platform_version"@, c.platform_version.deep_view()) + ctx_row(
        "harness"@,
        c.harness.deep_view(),
    ) + ctx_row("run_mode"@, c.run_mode.deep_view()) + ctx_row("user_id"@, c.user_id.deep_view())
        + ctx_row("workspace_id"@, c.workspace_id.deep_view()) + ctx_row(
        "workspace_path"@,
        c.workspace_path.deep_view(),
    ) + ctx_row("platform_session_id"@, c.platform_session_id.deep_view()) + ctx_row(
        "harness_session_id"@,
        c.harness_session_id.deep_view(),
    ) + ctx_row("session_name"@, c.session_name.deep_view()) + ctx_row(
        "readable_id"@,
        c.readable_id.deep_view(),
    ) + ctx_row("model"@, c.model.deep_view()) + ctx_row("request_id"@, c.request_id.deep_view())
        + ctx_row("correlation_id"@, c.correlation_id.deep_view()) + ctx_row(
        "sandbox_profile"@,
        c.sandbox_profile.deep_view(),
    )
}

fn push_ctx_row(out: &mut Vec<String>, label: &str, value: &Option<String>)
    ensures
        final(out).deep_view() == old(out).deep_view() + ctx_row(label@, value.deep_view()),
{
    let ghost before = out.deep_view();
    match value {
        Some(v) => {
            let mut line = concat("  ", &pad_right(label, 20));
            line.append(" ");
            line.append(v);
            out.push(line);
            assert(out.deep_view() =~= before + ctx_row(label@, value.deep_view()));
        },
        None => {
            assert(before + Seq::<Seq<char>>::empty() =~= before);
        },
    }
}

/// The variables of a context that are set, each on a line.
pub fn context_rows(c: &AgentCtx) -> (r: Vec<String>)
    ensures
        r.deep_view() == ctx_rows(*c),
{
    let mut out: Vec<String> = Vec::new();
    assert(out.deep_view() =~= seq![]);
    push_ctx_row(&mut out, "version", &c.version);
    assert(out.deep_view() =~= ctx_row("version"@, c.version.deep_view()));
    push_ctx_row(&mut out, "platform", &c.platform);
    push_ctx_row(&mut out, "platform_version", &c.platform_version);
    push_ctx_row(&mut out, "harness", &c.harness);
    push_ctx_row(&mut out, "run_mode", &c.run_mode);
    push_ctx_row(&mut out, "user_id", &c.user_id);
    push_ctx_row(&mut out, "workspace_id", &c.workspace_id);
    push_ctx_row(&mut out, "workspace_path", &c.workspace_path);
    push_ctx_row(&mut out, "platform_session_id", &c.platform_session_id);
    push_ctx_row(&mut out, "harness_session_id", &c.harness_session_id);
    push_ctx_row(&mut out, "session_name", &c.session_name);
    push_ctx_row(&mut out, "readable_id", &c.readable_id);
    push_ctx_row(&mut out, "model", &c.model);
    push_ctx_row(&mut out, "request_id", &c.request_id);
    push_ctx_row(&mut out, "correlation_id", &c.correlation_id);
    push_ctx_row(&mut out, "sandbox_profile", &c.sandbox_profile);
    out
}

// ------------------------------------------------------------------------- laws

/// A listing has a line for each issue, in order, and says so where there is none. The line reads
/// id, priority, type, state and title; where the listing is sorted by a date, that comes first.
pub proof fn listings_show_every_issue(issues: Seq<IssueView>, sort: SortKey, k: int)
    requires
        0 <= k < issues.len(),
    ensures
        list_lines(issues, sort).len() == issues.len(),
        ({
            let l = list_lines(issues, sort)[k];
            let i = issues[k];
            let dated = sort == SortKey::Created || sort == SortKey::Updated || sort
                == SortKey::Closed;
            let at = if dated {
                2int
            } else {
                0int
            };
            &&& l.len() == at + 7
            &&& l[at].text == i.id
            &&& l[at + 1].text == " [P"@ + decimal(i.priority as nat) + "] ["@
            &&& l[at + 2].text == i.issue_type.name()
            &&& l[at + 4].text == i.status.name()
            &&& l[at + 6].text == i.title
            &&& sort == SortKey::Created ==> l[0].text == formatted(i.created_at, "%Y-%m-%d"@)
            &&& sort == SortKey::Updated ==> l[0].text == formatted(i.updated_at, "%Y-%m-%d"@)
            &&& sort == SortKey::Closed && i.closed_at is Some ==> l[0].text == formatted(
                i.closed_at->0,
                "%Y-%m-%d"@,
            )
        }),
{
}

/// The report on ready work has a line for every issue that is ready, with its id, priority, type
/// and title, and, where anything is ready, one for every issue that is held up, with the ids
/// that block it.
pub proof fn ready_reports_show_every_issue(
    ready: Seq<IssueView>,
    blocked: Seq<IssueView>,
    open: Seq<Seq<char>>,
    k: int,
)
    requires
        ready.len() > 0,
    ensures
        ({
            let r = ready_lines(ready, blocked, open);
            &&& r.len() == 1 + ready.len() + (if blocked.len() == 0 {
                0
            } else {
                2 + blocked.len()
            })
            &&& 0 <= k < ready.len() ==> r[1 + k].len() == 5 && r[1 + k][0].text == ready[k].id
                && r[1 + k][1].text == " [P"@ + decimal(ready[k].priority as nat) + "] ["@ && r[1
                + k][2].text == ready[k].issue_type.name() && r[1 + k][4].text == ready[k].title
            &&& 0 <= k < blocked.len() ==> {
                let l = r[3 + ready.len() + k];
                l.len() == 9 && l[0].text == blocked[k].id && l[4].text == blocked[k].title
                    && l[6].text == "blocked by"@ && l[8].text == joined(
                    open_blockers(blocked[k], open),
                    ", "@,
                )
            }
        }),
{
}

/// A line of a search over repositories names the repository and reads id, priority, type, state
/// and title of what was found.
pub proof fn search_lines_name_their_repository(repo: Seq<char>, i: IssueView)
    ensures
        search_line(repo, i).len() == 10,
        search_line(repo, i)[1].text == repo,
        search_line(repo, i)[3].text == i.id,
        search_line(repo, i)[4].text == " [P"@ + decimal(i.priority as nat) + "] ["@,
        search_line(repo, i)[5].text == i.issue_type.name(),
        search_line(repo, i)[7].text == i.status.name(),
        search_line(repo, i)[9].text == i.title,
{
}

/// A line of a handover has the id, the title and, where there are any, the blockers of its
/// issue in it.
pub proof fn handover_lines_tell_the_issue(
    i: IssueView,
    ready: bool,
    blocked_by: Seq<Seq<char>>,
)
    ensures
        handover_line(i, ready, blocked_by) == (if ready {
            "▶ "@
        } else {
            "◼ "@
        }) + i.id + " P"@ + decimal(i.priority as nat) + " ["@ + i.issue_type.name() + "] "@
            + i.title + (if blocked_by.len() == 0 {
            seq![]
        } else {
            " ← "@ + joined(blocked_by, ","@)
        }),
{
    reveal_strlit("▶ ");
    reveal_strlit("◼ ");
    reveal_strlit("▶");
    reveal_strlit("◼");
    reveal_strlit(" ");
    assert("▶ "@ =~= "▶"@ + " "@);
    assert("◼ "@ =~= "◼"@ + " "@);
    let tail = i.id + " P"@ + decimal(i.priority as nat) + " ["@ + i.issue_type.name() + "] "@
        + i.title + (if blocked_by.len() == 0 {
        seq![]
    } else {
        " ← "@ + joined(blocked_by, ","@)
    });
    assert(handover_line(i, ready, blocked_by) =~= (if ready {
        "▶"@
    } else {
        "◼"@
    }) + " "@ + tail);
    assert((if ready {
        "▶ "@
    } else {
        "◼ "@
    }) + i.id + " P"@ + decimal(i.priority as nat) + " ["@ + i.issue_type.name() + "] "@ + i.title
        + (if blocked_by.len() == 0 {
        seq![]
    } else {
        " ← "@ + joined(blocked_by, ","@)
    }) =~= (if ready {
        "▶ "@
    } else {
        "◼ "@
    }) + tail);
}

/// What is shown of an issue are its id and title, state, priority, type and dates, its
/// description, each of its dependencies, each issue of the store below it and each that it
/// blocks, the deleted ones left out.
pub proof fn everything_of_an_issue_is_shown(
    entries: Seq<IssueView>,
    i: IssueView,
    events: Seq<EventView>,
    k: int,
    y: IssueView,
)
    ensures
        ({
            let r = show_lines(entries, i, events);
            &&& r.len() >= 7
            &&& r[0].len() == 3 && r[0][0].text == i.id && r[0][2].text == i.title
            &&& r[2].len() == 1 && r[2][0].text == "Status:   "@ + i.status.name()
            &&& r[3].len() == 1 && r[3][0].text == "Priority: P"@ + decimal(i.priority as nat)
            &&& r[4].len() == 1 && r[4][0].text == "Type:     "@ + i.issue_type.name()
            &&& r[5].len() == 1 && r[5][0].text == "Created:  "@ + formatted(
                i.created_at,
                "%Y-%m-%d %H:%M"@,
            )
            &&& r[6].len() == 1 && r[6][0].text == "Updated:  "@ + formatted(
                i.updated_at,
                "%Y-%m-%d %H:%M"@,
            )
            &&& i.description matches Some(d) ==> r.contains(seq![plain(d)])
            &&& 0 <= k < i.dependencies.len() ==> r.contains(
                seq![
                    plain(
                        "  "@ + i.dependencies[k].issue_id + " "@ + i.dependencies[k].dep_type.name()
                            + " "@ + i.dependencies[k].depends_on_id,
                    ),
                ],
            )
            &&& entries.contains(y) && y.status != Status::Tombstone && (exists|
                d: DependencyView,
            |
                #[trigger]
                y.dependencies.contains(d) && d.depends_on_id == i.id && d.dep_type
                    == DependencyType::ParentChild) ==> exists|l: Seq<SpanView>|
                #[trigger]
                r.contains(l) && l.len() == 8 && l[3].text == y.id && l[7].text == y.title
            &&& entries.contains(y) && y.status != Status::Tombstone && (exists|
                d: DependencyView,
            |
                #[trigger]
                y.dependencies.contains(d) && d.depends_on_id == i.id && d.dep_type
                    == DependencyType::Blocks) ==> exists|l: Seq<SpanView>|
                #[trigger]
                r.contains(l) && l.len() == 6 && l[3].text == y.id && l[5].text == y.title
        }),
{
    let all = listed(entries, false);
    let children = dependents(all, i.id, DependencyType::ParentChild);
    let held = dependents(all, i.id, DependencyType::Blocks);
    let recent = recent_events(events, i.id);
    let head = seq![
        seq![toned(Tone::CyanBold, i.id), plain(" "@), toned(Tone::Bold, i.title)],
        seq![],
        labelled("Status:   "@, i.status.name()),
        labelled("Priority: P"@, decimal(i.priority as nat)),
        labelled("Type:     "@, i.issue_type.name()),
        labelled("Created:  "@, formatted(i.created_at, "%Y-%m-%d %H:%M"@)),
        labelled("Updated:  "@, formatted(i.updated_at, "%Y-%m-%d %H:%M"@)),
    ];
    let about = match i.description {
        Some(d) => seq![seq![plain(d)]],
        None => seq![],
    };
    let deps = Seq::new(i.dependencies.len(), |k: int| dependency_line(i.dependencies[k]));
    let below = Seq::new(children.len(), |k: int| child_line(children[k]));
    let blocks = Seq::new(held.len(), |k: int| held_line(held[k]));
    let lately = Seq::new(recent.len(), |k: int| event_line(recent[k]));
    let s1 = head + section("Description:"@, about);
    let s2 = s1 + section("Dependencies:"@, deps);
    let s3 = s2 + section("Children:"@, below);
    let s4 = s3 + section("Blocks:"@, blocks);
    let r = show_lines(entries, i, events);
    assert(r == s4 + section("Recent activity:"@, lately));
    assert(forall|n: int| 0 <= n < 7 ==> #[trigger] r[n] == head[n]);
    if i.description is Some {
        let x = seq![plain(i.description->0)];
        assert(about[0] == x);
        lemma_section_holds("Description:"@, about, x);
        chained_lists_hold_both(head, section("Description:"@, about), x);
        chained_lists_hold_both(s1, section("Dependencies:"@, deps), x);
        chained_lists_hold_both(s2, section("Children:"@, below), x);
        chained_lists_hold_both(s3, section("Blocks:"@, blocks), x);
        chained_lists_hold_both(s4, section("Recent activity:"@, lately), x);
    }
    if 0 <= k < i.dependencies.len() {
        let x = dependency_line(i.dependencies[k]);
        assert(deps[k] == x);
        lemma_section_holds("Dependencies:"@, deps, x);
        chained_lists_hold_both(s1, section("Dependencies:"@, deps), x);
        chained_lists_hold_both(s2, section("Children:"@, below), x);
        chained_lists_hold_both(s3, section("Blocks:"@, blocks), x);
        chained_lists_hold_both(s4, section("Recent activity:"@, lately), x);
    }
    listing_leaves_out_the_deleted(entries, false, y);
    dependents_have_the_dependency(all, i.id, DependencyType::ParentChild, y);
    dependents_have_the_dependency(all, i.id, DependencyType::Blocks, y);
    if children.contains(y) {
        let n = choose|n: int| 0 <= n < children.len() && children[n] == y;
        let x = child_line(y);
        assert(below[n] == x);
        lemma_section_holds("Children:"@, below, x);
        chained_lists_hold_both(s2, section("Children:"@, below), x);
        chained_lists_hold_both(s3, section("Blocks:"@, blocks), x);
        chained_lists_hold_both(s4, section("Recent activity:"@, lately), x);
        assert(r.contains(x));
    }
    if held.contains(y) {
        let n = choose|n: int| 0 <= n < held.len() && held[n] == y;
        let x = held_line(y);
        assert(blocks[n] == x);
        lemma_section_holds("Blocks:"@, blocks, x);
        chained_lists_hold_both(s3, section("Blocks:"@, blocks), x);
        chained_lists_hold_both(s4, section("Recent activity:"@, lately), x);
        assert(r.contains(x));
    }
}

proof fn lemma_section_holds(
    heading: Seq<char>,
    lines: Seq<Seq<SpanView>>,
    x: Seq<SpanView>,
)
    requires
        lines.contains(x),
    ensures
        section(heading, lines).contains(x),
{
    chained_lists_hold_both(seq![seq![], seq![toned(Tone::Bold, heading)]], lines, x);
}

/// The recent events of an issue are events of it, the newest of them, at most five, and the
/// newest first.
pub proof fn recent_events_are_the_newest(events: Seq<EventView>, id: Seq<char>, e: EventView)
    ensures
        ({
            let r = recent_events(events, id);
            &&& r.len() <= 5
            &&& r.contains(e) ==> events.contains(e) && e.issue_id == id
            &&& events.contains(e) && e.issue_id == id && !r.contains(e) ==> r.len() == 5
                && forall|k: int| 0 <= k < r.len() ==> !(#[trigger] r[k]).timestamp.lt(e.timestamp)
            &&& forall|i: int, j: int|
                0 <= i < j < r.len() ==> !(#[trigger] r[i]).timestamp.lt(
                    (#[trigger] r[j]).timestamp,
                )
        }),
{
    let f = |e: EventView| e.issue_id == id;
    let le = |a: EventView, b: EventView| crate::timeline::newer_first(a, b);
    let own = events.filter(f);
    let sorted = crate::sort::stable_sorted(own, le);
    let r = recent_events(events, id);
    filtering_keeps_what_passes(events, f, e);
    crate::sort::sorting_keeps_each(own, le, e);
    limit_keeps_the_front(sorted, Some(5));
    assert(crate::sort::is_total(le));
    assert(crate::sort::is_transitive(le));
    crate::sort::sorting_orders(own, le);
    if r.contains(e) {
        let k = choose|k: int| 0 <= k < r.len() && r[k] == e;
        assert(sorted[k] == e);
    }
    if own.contains(e) && !r.contains(e) {
        let k = choose|k: int| 0 <= k < sorted.len() && sorted[k] == e;
        if k < r.len() {
            assert(r[k] == e);
        }
        assert forall|n: int| 0 <= n < r.len() implies !(#[trigger] r[n]).timestamp.lt(
            e.timestamp,
        ) by {
            assert(le(sorted[n], sorted[k]));
        }
    }
    assert forall|i: int, j: int| 0 <= i < j < r.len() implies !(#[trigger] r[i]).timestamp.lt(
        (#[trigger] r[j]).timestamp,
    ) by {
        assert(le(sorted[i], sorted[j]));
    }
}

/// Every issue is counted once: as open where it is neither closed nor deleted, else as closed.
pub proof fn open_issues_are_counted(issues: Seq<IssueView>)
    ensures
        open_count(issues) == issues.filter(
            |i: IssueView| i.status != Status::Closed && i.status != Status::Tombstone,
        ).len(),
        open_count(issues) <= issues.len(),
    decreases issues.len(),
{
    reveal(Seq::filter);
    if issues.len() > 0 {
        open_issues_are_counted(issues.drop_last());
    }
}

/// Every variable of a context that is set stands on a line of its own, behind its name.
#[verifier::spinoff_prover]
#[verifier::rlimit(40)]
pub proof fn every_variable_is_shown(c: AgentCtx)
    ensures
        c.version matches Some(v) ==> ctx_rows(c).contains("  "@ + padded_right("version"@, 20) + " "@ + v@),
        c.platform matches Some(v) ==> ctx_rows(c).contains("  "@ + padded_right("platform"@, 20) + " "@ + v@),
        c.platform_version matches Some(v) ==> ctx_rows(c).contains("  "@ + padded_right("platform_version"@, 20) + " "@ + v@),
        c.harness matches Some(v) ==> ctx_rows(c).contains("  "@ + padded_right("harness"@, 20) + " "@ + v@),
        c.run_mode matches Some(v) ==> ctx_rows(c).contains("  "@ + padded_right("run_mode"@, 20) + " "@ + v@),
        c.user_id matches Some(v) ==> ctx_rows(c).contains("  "@ + padded_right("user_id"@, 20) + " "@ + v@),
        c.workspace_id matches Some(v) ==> ctx_rows(c).contains("  "@ + padded_right("workspace_id"@, 20) + " "@ + v@),
        c.workspace_path matches Some(v) ==> ctx_rows(c).contains("  "@ + padded_right("workspace_path"@, 20) + " "@ + v@),
        c.platform_session_id matches Some(v) ==> ctx_rows(c).contains("  "@ + padded_right("platform_session_id"@, 20) + " "@ + v@),
        c.harness_session_id matches Some(v) ==> ctx_rows(c).contains("  "@ + padded_right("harness_session_id"@, 20) + " "@ + v@),
        c.session_name matches Some(v) ==> ctx_rows(c).contains("  "@ + padded_right("session_name"@, 20) + " "@ + v@),
        c.readable_id matches Some(v) ==> ctx_rows(c).contains("  "@ + padded_right("readable_id"@, 20) + " "@ + v@),
        c.model matches Some(v) ==> ctx_rows(c).contains("  "@ + padded_right("model"@, 20) + " "@ + v@),
        c.request_id matches Some(v) ==> ctx_rows(c).contains("  "@ + padded_right("request_id"@, 20) + " "@ + v@),
        c.correlation_id matches Some(v) ==> ctx_rows(c).contains("  "@ + padded_right("correlation_id"@, 20) + " "@ + v@),
        c.sandbox_profile matches Some(v) ==> ctx_rows(c).contains("  "@ + padded_right("sandbox_profile"@, 20) + " "@ + v@),
{
    let p0 = ctx_row("version"@, c.version.deep_view());
    let p1 = ctx_row("platform"@, c.platform.deep_view());
    let p2 = ctx_row("platform_version"@, c.platform_version.deep_view());
    let p3 = ctx_row("harness"@, c.harness.deep_view());
    let p4 = ctx_row("run_mode"@, c.run_mode.deep_view());
    let p5 = ctx_row("user_id"@, c.user_id.deep_view());
    let p6 = ctx_row("workspace_id"@, c.workspace_id.deep_view());
    let p7 = ctx_row("workspace_path"@, c.workspace_path.deep_view());
    let p8 = ctx_row("platform_session_id"@, c.platform_session_id.deep_view());
    let p9 = ctx_row("harness_session_id"@, c.harness_session_id.deep_view());
    let p10 = ctx_row("session_name"@, c.session_name.deep_view());
    let p11 = ctx_row("readable_id"@, c.readable_id.deep_view());
    let p12 = ctx_row("model"@, c.model.deep_view());
    let p13 = ctx_row("request_id"@, c.request_id.deep_view());
    let p14 = ctx_row("correlation_id"@, c.correlation_id.deep_view());
    let p15 = ctx_row("sandbox_profile"@, c.sandbox_profile.deep_view());
    let s0 = p0;
    let s1 = s0 + p1;
    let s2 = s1 + p2;
    let s3 = s2 + p3;
    let s4 = s3 + p4;
    let s5 = s4 + p5;
    let s6 = s5 + p6;
    let s7 = s6 + p7;
    let s8 = s7 + p8;
    let s9 = s8 + p9;
    let s10 = s9 + p10;
    let s11 = s10 + p11;
    let s12 = s11 + p12;
    let s13 = s12 + p13;
    let s14 = s13 + p14;
    let s15 = s14 + p15;
    assert(ctx_rows(c) == s15);
    if c.version is Some {
        let x = "  "@ + padded_right("version"@, 20) + " "@ + c.version->0@;
        assert(p0[0] == x);
        chained_lists_hold_both(s0, p1, x);
        chained_lists_hold_both(s1, p2, x);
        chained_lists_hold_both(s2, p3, x);
        chained_lists_hold_both(s3, p4, x);
        chained_lists_hold_both(s4, p5, x);
        chained_lists_hold_both(s5, p6, x);
        chained_lists_hold_both(s6, p7, x);
        chained_lists_hold_both(s7, p8, x);
        chained_lists_hold_both(s8, p9, x);
        chained_lists_hold_both(s9, p10, x);
        chained_lists_hold_both(s10, p11, x);
        chained_lists_hold_both(s11, p12, x);
        chained_lists_hold_both(s12, p13, x);
        chained_lists_hold_both(s13, p14, x);
        chained_lists_hold_both(s14, p15, x);
    }
    if c.platform is Some {
        let x = "  "@ + padded_right("platform"@, 20) + " "@ + c.platform->0@;
        assert(p1[0] == x);
        chained_lists_hold_both(s0, p1, x);
        chained_lists_hold_both(s1, p2, x);
        chained_lists_hold_both(s2, p3, x);
        chained_lists_hold_both(s3, p4, x);
        chained_lists_hold_both(s4, p5, x);
        chained_lists_hold_both(s5, p6, x);
        chained_lists_hold_both(s6, p7, x);
        chained_lists_hold_both(s7, p8, x);
        chained_lists_hold_both(s8, p9, x);
        chained_lists_hold_both(s9, p10, x);
        chained_lists_hold_both(s10, p11, x);
        chained_lists_hold_both(s11, p12, x);
        chained_lists_hold_both(s12, p13, x);
        chained_lists_hold_both(s13, p14, x);
        chained_lists_hold_both(s14, p15, x);
    }
    if c.platform_version is Some {
        let x = "  "@ + padded_right("platform_version"@, 20) + " "@ + c.platform_version->0@;
        assert(p2[0] == x);
        chained_lists_hold_both(s1, p2, x);
        chained_lists_hold_both(s2, p3, x);
        chained_lists_hold_both(s3, p4, x);
        chained_lists_hold_both(s4, p5, x);
        chained_lists_hold_both(s5, p6, x);
        chained_lists_hold_both(s6, p7, x);
        chained_lists_hold_both(s7, p8, x);
        chained_lists_hold_both(s8, p9, x);
        chained_lists_hold_both(s9, p10, x);
        chained_lists_hold_both(s10, p11, x);
        chained_lists_hold_both(s11, p12, x);
        chained_lists_hold_both(s12, p13, x);
        chained_lists_hold_both(s13, p14, x);
        chained_lists_hold_both(s14, p15, x);
    }
    if c.harness is Some {
        let x = "  "@ + padded_right("harness"@, 20) + " "@ + c.harness->0@;
        assert(p3[0] == x);
        chained_lists_hold_both(s2, p3, x);
        chained_lists_hold_both(s3, p4, x);
        chained_lists_hold_both(s4, p5, x);
        chained_lists_hold_both(s5, p6, x);
        chained_lists_hold_both(s6, p7, x);
        chained_lists_hold_both(s7, p8, x);
        chained_lists_hold_both(s8, p9, x);
        chained_lists_hold_both(s9, p10, x);
        chained_lists_hold_both(s10, p11, x);
        chained_lists_hold_both(s11, p12, x);
        chained_lists_hold_both(s12, p13, x);
        chained_lists_hold_both(s13, p14, x);
        chained_lists_hold_both(s14, p15, x);
    }
    if c.run_mode is Some {
        let x = "  "@ + padded_right("run_mode"@, 20) + " "@ + c.run_mode->0@;
        assert(p4[0] == x);
        chained_lists_hold_both(s3, p4, x);
        chained_lists_hold_both(s4, p5, x);
        chained_lists_hold_both(s5, p6, x);
        chained_lists_hold_both(s6, p7, x);
        chained_lists_hold_both(s7, p8, x);
        chained_lists_hold_both(s8, p9, x);
        chained_lists_hold_both(s9, p10, x);
        chained_lists_hold_both(s10, p11, x);
        chained_lists_hold_both(s11, p12, x);
        chained_lists_hold_both(s12, p13, x);
        chained_lists_hold_both(s13, p14, x);
        chained_lists_hold_both(s14, p15, x);
    }
    if c.user_id is Some {
        let x = "  "@ + padded_right("user_id"@, 20) + " "@ + c.user_id->0@;
        assert(p5[0] == x);
        chained_lists_hold_both(s4, p5, x);
        chained_lists_hold_both(s5, p6, x);
        chained_lists_hold_both(s6, p7, x);
        chained_lists_hold_both(s7, p8, x);
        chained_lists_hold_both(s8, p9, x);
        chained_lists_hold_both(s9, p10, x);
        chained_lists_hold_both(s10, p11, x);
        chained_lists_hold_both(s11, p12, x);
        chained_lists_hold_both(s12, p13, x);
        chained_lists_hold_both(s13, p14, x);
        chained_lists_hold_both(s14, p15, x);
    }
    if c.workspace_id is Some {
        let x = "  "@ + padded_right("workspace_id"@, 20) + " "@ + c.workspace_id->0@;
        assert(p6[0] == x);
        chained_lists_hold_both(s5, p6, x);
        chained_lists_hold_both(s6, p7, x);
        chained_lists_hold_both(s7, p8, x);
        chained_lists_hold_both(s8, p9, x);
        chained_lists_hold_both(s9, p10, x);
        chained_lists_hold_both(s10, p11, x);
        chained_lists_hold_both(s11, p12, x);
        chained_lists_hold_both(s12, p13, x);
        chained_lists_hold_both(s13, p14, x);
        chained_lists_hold_both(s14, p15, x);
    }
    if c.workspace_path is Some {
        let x = "  "@ + padded_right("workspace_path"@, 20) + " "@ + c.workspace_path->0@;
        assert(p7[0] == x);
        chained_lists_hold_both(s6, p7, x);
        chained_lists_hold_both(s7, p8, x);
        chained_lists_hold_both(s8, p9, x);
        chained_lists_hold_both(s9, p10, x);
        chained_lists_hold_both(s10, p11, x);
        chained_lists_hold_both(s11, p12, x);
        chained_lists_hold_both(s12, p13, x);
        chained_lists_hold_both(s13, p14, x);
        chained_lists_hold_both(s14, p15, x);
    }
    if c.platform_session_id is Some {
        let x = "  "@ + padded_right("platform_session_id"@, 20) + " "@ + c.platform_session_id->0@;
        assert(p8[0] == x);
        chained_lists_hold_both(s7, p8, x);
        chained_lists_hold_both(s8, p9, x);
        chained_lists_hold_both(s9, p10, x);
        chained_lists_hold_both(s10, p11, x);
        chained_lists_hold_both(s11, p12, x);
        chained_lists_hold_both(s12, p13, x);
        chained_lists_hold_both(s13, p14, x);
        chained_lists_hold_both(s14, p15, x);
    }
    if c.harness_session_id is Some {
        let x = "  "@ + padded_right("harness_session_id"@, 20) + " "@ + c.harness_session_id->0@;
        assert(p9[0] == x);
        chained_lists_hold_both(s8, p9, x);
        chained_lists_hold_both(s9, p10, x);
        chained_lists_hold_both(s10, p11, x);
        chained_lists_hold_both(s11, p12, x);
        chained_lists_hold_both(s12, p13, x);
        chained_lists_hold_both(s13, p14, x);
        chained_lists_hold_both(s14, p15, x);
    }
    if c.session_name is Some {
        let x = "  "@ + padded_right("session_name"@, 20) + " "@ + c.session_name->0@;
        assert(p10[0] == x);
        chained_lists_hold_both(s9, p10, x);
        chained_lists_hold_both(s10, p11, x);
        chained_lists_hold_both(s11, p12, x);
        chained_lists_hold_both(s12, p13, x);
        chained_lists_hold_both(s13, p14, x);
        chained_lists_hold_both(s14, p15, x);
    }
    if c.readable_id is Some {
        let x = "  "@ + padded_right("readable_id"@, 20) + " "@ + c.readable_id->0@;
        assert(p11[0] == x);
        chained_lists_hold_both(s10, p11, x);
        chained_lists_hold_both(s11, p12, x);
        chained_lists_hold_both(s12, p13, x);
        chained_lists_hold_both(s13, p14, x);
        chained_lists_hold_both(s14, p15, x);
    }
    if c.model is Some {
        let x = "  "@ + padded_right("model"@, 20) + " "@ + c.model->0@;
        assert(p12[0] == x);
        chained_lists_hold_both(s11, p12, x);
        chained_lists_hold_both(s12, p13, x);
        chained_lists_hold_both(s13, p14, x);
        chained_lists_hold_both(s14, p15, x);
    }
    if c.request_id is Some {
        let x = "  "@ + padded_right("request_id"@, 20) + " "@ + c.request_id->0@;
        assert(p13[0] == x);
        chained_lists_hold_both(s12, p13, x);
        chained_lists_hold_both(s13, p14, x);
        chained_lists_hold_both(s14, p15, x);
    }
    if c.correlation_id is Some {
        let x = "  "@ + padded_right("correlation_id"@, 20) + " "@ + c.correlation_id->0@;
        assert(p14[0] == x);
        chained_lists_hold_both(s13, p14, x);
        chained_lists_hold_both(s14, p15, x);
    }
    if c.sandbox_profile is Some {
        let x = "  "@ + padded_right("sandbox_profile"@, 20) + " "@ + c.sandbox_profile->0@;
        assert(p15[0] == x);
        chained_lists_hold_both(s14, p15, x);
    }
}

} // verus!
