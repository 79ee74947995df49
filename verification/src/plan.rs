//! Plans: an epic and its children, written as Markdown or JSON.
use crate::error::{Error, ErrorView};
use crate::issue::IssueType;
use crate::json::{
    parse_json, parse_json_list, parsed_json, parsed_json_list, Json, JsonView,
};
use crate::text::{
    begins_with, contains, holds_text, is_space, join, joined, lines_of, remove_all, split_lines,
    starts_with, trim, trim_start_text, trimmed, trimmed_start, trimming_keeps_trimmed_text,
    without_all, without_leading,
};
use vstd::prelude::*;

verus! {

/// An item of a plan. What is missing has a default where the item is used.
#[derive(Clone, Debug)]
pub struct PlanItem {
    pub title: Option<String>,
    pub issue_type: Option<String>,
    pub priority: Option<u64>,
    pub description: Option<String>,
    pub parent: Option<String>,
    /// The ids that stand under `blocks`.
    pub blocks: Vec<String>,
}

pub struct PlanItemView {
    pub title: Option<Seq<char>>,
    pub issue_type: Option<Seq<char>>,
    pub priority: Option<u64>,
    pub description: Option<Seq<char>>,
    pub parent: Option<Seq<char>>,
    pub blocks: Seq<Seq<char>>,
}

impl DeepView for PlanItem {
    type V = PlanItemView;

    open spec fn deep_view(&self) -> PlanItemView {
        PlanItemView {
            title: self.title.deep_view(),
            issue_type: self.issue_type.deep_view(),
            priority: self.priority,
            description: self.description.deep_view(),
            parent: self.parent.deep_view(),
            blocks: self.blocks.deep_view(),
        }
    }
}

// ----------------------------------------------------------------------- JSON

/// The texts among some values, in order.
pub open spec fn texts_among(items: Seq<JsonView>) -> Seq<Seq<char>>
    decreases items.len(),
{
    if items.len() == 0 {
        seq![]
    } else {
        match items.last().text() {
            Some(s) => texts_among(items.drop_last()).push(s),
            None => texts_among(items.drop_last()),
        }
    }
}

/// The item that a JSON value describes.
pub open spec fn json_item(j: JsonView) -> PlanItemView {
    PlanItemView {
        title: j.member_text("title"@),
        issue_type: j.member_text("issue_type"@),
        priority: j.member_uint("priority"@),
        description: j.member_text("description"@),
        parent: j.member_text("parent"@),
        blocks: match j.member_items("blocks"@) {
            Some(items) => texts_among(items),
            None => seq![],
        },
    }
}

fn collect_texts(items: &Vec<Json>) -> (r: Vec<String>)
    ensures
        r.deep_view() == texts_among(items.deep_view()),
{
    let ghost d = items.deep_view();
    let mut r: Vec<String> = Vec::new();
    let mut i: usize = 0;
    assert(r.deep_view() =~= texts_among(d.take(0)));
    while i < items.len()
        invariant
            i <= items.len(),
            d == items.deep_view(),
            r.deep_view() == texts_among(d.take(i as int)),
        decreases items.len() - i,
    {
        let ghost before = r.deep_view();
        assert(d.take(i + 1).drop_last() =~= d.take(i as int));
        assert(d.take(i + 1).last() == items@[i as int]@);
        match items[i].as_str() {
            Some(s) => {
                r.push(s.clone());
                assert(r.deep_view() =~= before.push(s@));
            },
            None => {},
        }
        i += 1;
    }
    assert(d.take(d.len() as int) =~= d);
    r
}

/// Reads an item from a JSON value.
pub fn item_from_json(j: &Json) -> (r: PlanItem)
    ensures
        r.deep_view() == json_item(j@),
{
    let blocks = match j.get_array("blocks") {
        Some(items) => collect_texts(items),
        None => {
            let none: Vec<String> = Vec::new();
            assert(none.deep_view() =~= seq![]);
            none
        },
    };
    PlanItem {
        title: j.get_str("title"),
        issue_type: j.get_str("issue_type"),
        priority: j.get_u64("priority"),
        description: j.get_str("description"),
        parent: j.get_str("parent"),
        blocks,
    }
}

pub open spec fn json_items(js: Seq<JsonView>) -> Seq<PlanItemView> {
    Seq::new(js.len(), |i: int| json_item(js[i]))
}

/// Reads the items of a list.
pub fn items_from_json(js: &Vec<Json>) -> (r: Vec<PlanItem>)
    ensures
        r.deep_view() == json_items(js.deep_view()),
{
    let mut r: Vec<PlanItem> = Vec::new();
    let mut i: usize = 0;
    while i < js.len()
        invariant
            i <= js.len(),
            r.len() == i,
            forall|k: int| 0 <= k < i ==> (#[trigger] r@[k]).deep_view() == json_item(js@[k]@),
        decreases js.len() - i,
    {
        r.push(item_from_json(&js[i]));
        i += 1;
    }
    assert(r.deep_view() =~= json_items(js.deep_view()));
    r
}

/// The values of a plan in JSON: those of a list, or an epic and its children.
pub open spec fn plan_values(value: JsonView) -> Option<Seq<JsonView>> {
    match value {
        JsonView::Arr(items) => Some(items),
        JsonView::Obj(_) => Some(
            seq![value] + (match value.member_items("children"@) {
                Some(children) => children,
                None => seq![],
            }),
        ),
        _ => None,
    }
}

fn push_all<'a>(out: &mut Vec<&'a Json>, items: &'a Vec<Json>)
    ensures
        final(out).deep_view() == old(out).deep_view() + items.deep_view(),
{
    let ghost before = out.deep_view();
    let mut i: usize = 0;
    assert(out.deep_view() =~= before + items.deep_view().take(0));
    while i < items.len()
        invariant
            i <= items.len(),
            out.deep_view() == before + items.deep_view().take(i as int),
        decreases items.len() - i,
    {
        let ghost so_far = out.deep_view();
        out.push(&items[i]);
        assert(out.deep_view() =~= so_far.push(items@[i as int]@));
        i += 1;
        assert(out.deep_view() =~= before + items.deep_view().take(i as int));
    }
    assert(items.deep_view().take(items@.len() as int) =~= items.deep_view());
}

/// What is wrong with a plan that is neither a list nor an object.
pub open spec fn no_plan() -> ErrorView {
    ErrorView::Other("Expected JSON array or object with 'children'"@)
}

/// Takes a plan in JSON apart.
pub fn split_plan_json<'a>(value: &'a Json) -> (r: Result<Vec<&'a Json>, Error>)
    ensures
        match plan_values(value@) {
            Some(items) => r is Ok && r->Ok_0.deep_view() == items,
            None => r is Err && r->Err_0@ == no_plan(),
        },
{
    let mut r: Vec<&'a Json> = Vec::new();
    match value {
        Json::Arr(items) => {
            push_all(&mut r, items);
            assert(r.deep_view() =~= value@->Arr_0);
            Ok(r)
        },
        Json::Obj(_) => {
            r.push(value);
            assert(r.deep_view() =~= seq![value@]);
            match value.get_array("children") {
                Some(children) => push_all(&mut r, children),
                None => {
                    assert(seq![value@] + Seq::<JsonView>::empty() =~= seq![value@]);
                },
            }
            Ok(r)
        },
        _ => Err(Error::Other("Expected JSON array or object with 'children'".to_owned())),
    }
}

/// Reads a plan from a JSON value.
pub fn parse_plan_json(value: &Json) -> (r: Result<Vec<PlanItem>, Error>)
    ensures
        match plan_values(value@) {
            Some(items) => r is Ok && r->Ok_0.deep_view() == json_items(items),
            None => r is Err && r->Err_0@ == no_plan(),
        },
{
    match split_plan_json(value) {
        Ok(values) => {
            let ghost all = values.deep_view();
            let mut r: Vec<PlanItem> = Vec::new();
            let mut i: usize = 0;
            while i < values.len()
                invariant
                    i <= values.len(),
                    all == values.deep_view(),
                    r@.len() == i,
                    forall|k: int|
                        0 <= k < i ==> (#[trigger] r@[k]).deep_view() == json_item(all[k]),
                decreases values.len() - i,
            {
                assert(all[i as int] == values@[i as int]@);
                r.push(item_from_json(values[i]));
                i += 1;
            }
            assert(r.deep_view() =~= json_items(all));
            Ok(r)
        },
        Err(e) => Err(e),
    }
}

/// Reads a plan from a text in JSON.
pub fn parse_plan_text(content: &str) -> (r: Result<Vec<PlanItem>, Error>)
    ensures
        match parsed_json(content@) {
            Err(m) => r is Err && r->Err_0@ == ErrorView::Other(m),
            Ok(value) => match plan_values(value) {
                Some(items) => r is Ok && r->Ok_0.deep_view() == json_items(items),
                None => r is Err && r->Err_0@ == no_plan(),
            },
        },
{
    match parse_json(content) {
        Ok(value) => parse_plan_json(&value),
        Err(e) => Err(e),
    }
}

/// Reads the items of a batch from a text in JSON, which is a list.
pub fn parse_batch_text(content: &str) -> (r: Result<Vec<PlanItem>, Error>)
    ensures
        match parsed_json_list(content@) {
            Err(m) => r is Err && r->Err_0@ == ErrorView::Other(m),
            Ok(values) => r is Ok && r->Ok_0.deep_view() == json_items(values),
        },
{
    match parse_json_list(content) {
        Ok(values) => Ok(items_from_json(&values)),
        Err(e) => Err(e),
    }
}

// ------------------------------------------------------------------- Markdown

/// A heading of the first level.
pub open spec fn is_h1(line: Seq<char>) -> bool {
    begins_with(line, "# "@)
}

/// A heading of the second level.
pub open spec fn is_h2(line: Seq<char>) -> bool {
    begins_with(line, "## "@)
}

/// The text of the first heading of the first level.
pub open spec fn first_h1(lines: Seq<Seq<char>>) -> Option<Seq<char>>
    decreases lines.len(),
{
    if lines.len() == 0 {
        None
    } else if is_h1(lines[0]) {
        Some(trimmed(without_leading(lines[0], "# "@)))
    } else {
        first_h1(lines.drop_first())
    }
}

/// The lines that describe the epic: those behind a heading of the first level and before
/// the first of the second.
pub open spec fn preamble(lines: Seq<Seq<char>>, started: bool) -> Seq<Seq<char>>
    decreases lines.len(),
{
    if lines.len() == 0 || is_h2(lines[0]) {
        seq![]
    } else if is_h1(lines[0]) {
        preamble(lines.drop_first(), true)
    } else if started {
        seq![lines[0]] + preamble(lines.drop_first(), true)
    } else {
        preamble(lines.drop_first(), false)
    }
}

/// A heading of the second level and the lines below it.
pub struct SectionView {
    pub heading: Seq<char>,
    pub body: Seq<Seq<char>>,
}

/// The sections of a text, each from a heading of the second level to the next.
pub open spec fn sections(lines: Seq<Seq<char>>) -> Seq<SectionView>
    decreases lines.len(),
{
    if lines.len() == 0 {
        seq![]
    } else {
        let before = sections(lines.drop_last());
        if is_h2(lines.last()) {
            before.push(SectionView { heading: lines.last(), body: seq![] })
        } else if before.len() == 0 {
            before
        } else {
            before.drop_last().push(
                SectionView {
                    heading: before.last().heading,
                    body: before.last().body.push(lines.last()),
                },
            )
        }
    }
}

/// The title in a heading and the tags that were taken out of it.
pub struct HeadingView {
    pub title: Seq<char>,
    pub issue_type: Seq<char>,
    pub priority: u64,
}

/// Takes a type tag out of the title, if it is there.
pub open spec fn with_type_tag(h: HeadingView, tag: Seq<char>, pattern: Seq<char>) -> HeadingView {
    if holds_text(h.title, pattern) {
        HeadingView { title: trimmed(without_all(h.title, pattern)), issue_type: tag, ..h }
    } else {
        h
    }
}

/// Takes a priority tag out of the title, if it is there.
pub open spec fn with_priority_tag(h: HeadingView, p: u64, pattern: Seq<char>) -> HeadingView {
    if holds_text(h.title, pattern) {
        HeadingView { title: trimmed(without_all(h.title, pattern)), priority: p, ..h }
    } else {
        h
    }
}

/// What a heading of the second level says: the title without its tags, the type that the
/// last of its type tags names, and the priority that the last of its priority tags names.
pub open spec fn parsed_heading(line: Seq<char>) -> HeadingView {
    let h = HeadingView {
        title: trimmed(without_leading(line, "## "@)),
        issue_type: "task"@,
        priority: 2,
    };
    let h = with_type_tag(h, "bug"@, "[bug]"@);
    let h = with_type_tag(h, "feature"@, "[feature]"@);
    let h = with_type_tag(h, "task"@, "[task]"@);
    let h = with_type_tag(h, "epic"@, "[epic]"@);
    let h = with_type_tag(h, "chore"@, "[chore]"@);
    let h = with_priority_tag(h, 0, "[P0]"@);
    let h = with_priority_tag(h, 1, "[P1]"@);
    let h = with_priority_tag(h, 2, "[P2]"@);
    let h = with_priority_tag(h, 3, "[P3]"@);
    with_priority_tag(h, 4, "[P4]"@)
}

/// Lines as one text, or nothing where that is blank.
pub open spec fn paragraph(lines: Seq<Seq<char>>) -> Option<Seq<char>> {
    let text = trimmed(joined(lines, "\n"@));
    if text.len() == 0 {
        None
    } else {
        Some(text)
    }
}

/// The item that a section describes.
pub open spec fn section_item(s: SectionView) -> PlanItemView {
    let h = parsed_heading(s.heading);
    PlanItemView {
        title: Some(h.title),
        issue_type: Some(h.issue_type),
        priority: Some(h.priority),
        description: paragraph(s.body),
        parent: None,
        blocks: seq![],
    }
}

/// The items of a plan in Markdown: the epic and one for each section. There is none where
/// the epic has no title.
pub open spec fn markdown_plan(content: Seq<char>, epic_title: Option<Seq<char>>) -> Option<
    Seq<PlanItemView>,
> {
    let lines = lines_of(content);
    let title = match epic_title {
        Some(t) => Some(t),
        None => first_h1(lines),
    };
    match title {
        None => None,
        Some(t) => Some(
            seq![
                PlanItemView {
                    title: Some(t),
                    issue_type: Some("epic"@),
                    priority: Some(2u64),
                    description: paragraph(preamble(lines, false)),
                    parent: None,
                    blocks: seq![],
                },
            ] + Seq::new(sections(lines).len(), |i: int| section_item(sections(lines)[i])),
        ),
    }
}

fn find_h1(lines: &Vec<String>) -> (r: Option<String>)
    ensures
        r.deep_view() == first_h1(lines.deep_view()),
{
    let ghost d = lines.deep_view();
    let mut i: usize = 0;
    assert(d.skip(0) =~= d);
    proof {
        reveal_strlit("# ");
    }
    while i < lines.len()
        invariant
            i <= lines.len(),
            d == lines.deep_view(),
            "# "@.len() == 2,
            first_h1(d) == first_h1(d.skip(i as int)),
        decreases lines.len() - i,
    {
        assert(d[i as int] == lines@[i as int]@);
        assert(d.skip(i as int).drop_first() =~= d.skip(i + 1));
        if starts_with(&lines[i], "# ") {
            return Some(trim(&trim_start_text(&lines[i], "# ")));
        }
        i += 1;
    }
    None
}

fn collect_preamble(lines: &Vec<String>) -> (r: Vec<String>)
    ensures
        r.deep_view() == preamble(lines.deep_view(), false),
{
    let ghost d = lines.deep_view();
    let mut r: Vec<String> = Vec::new();
    let mut started: bool = false;
    let mut i: usize = 0;
    assert(d.skip(0) =~= d);
    assert(r.deep_view() + preamble(d.skip(0), false) =~= preamble(d, false));
    while i < lines.len()
        invariant
            i <= lines.len(),
            d == lines.deep_view(),
            r.deep_view() + preamble(d.skip(i as int), started) == preamble(d, false),
        decreases lines.len() - i,
    {
        let ghost before = r.deep_view();
        assert(d[i as int] == lines@[i as int]@);
        assert(d.skip(i as int).drop_first() =~= d.skip(i + 1));
        if starts_with(&lines[i], "## ") {
            assert(r.deep_view() =~= preamble(d, false));
            return r;
        }
        if starts_with(&lines[i], "# ") {
            started = true;
        } else if started {
            r.push(lines[i].clone());
            assert(r.deep_view() =~= before.push(d[i as int]));
            assert(r.deep_view() + preamble(d.skip(i + 1), true) =~= before + (seq![d[i as int]]
                + preamble(d.skip(i + 1), true)));
        }
        i += 1;
    }
    assert(r.deep_view() =~= preamble(d, false));
    r
}

/// A section of a text.
struct Section {
    heading: String,
    body: Vec<String>,
}

impl DeepView for Section {
    type V = SectionView;

    closed spec fn deep_view(&self) -> SectionView {
        SectionView { heading: self.heading@, body: self.body.deep_view() }
    }
}

fn collect_sections(lines: &Vec<String>) -> (r: Vec<Section>)
    ensures
        r.deep_view() == sections(lines.deep_view()),
{
    let ghost d = lines.deep_view();
    let mut r: Vec<Section> = Vec::new();
    let mut i: usize = 0;
    assert(r.deep_view() =~= sections(d.take(0)));
    while i < lines.len()
        invariant
            i <= lines.len(),
            d == lines.deep_view(),
            r.deep_view() == sections(d.take(i as int)),
        decreases lines.len() - i,
    {
        let ghost before = r.deep_view();
        assert(d.take(i + 1).drop_last() =~= d.take(i as int));
        assert(d.take(i + 1).last() == lines@[i as int]@);
        if starts_with(&lines[i], "## ") {
            let body: Vec<String> = Vec::new();
            assert(body.deep_view() =~= seq![]);
            r.push(Section { heading: lines[i].clone(), body });
            assert(r.deep_view() =~= before.push(
                SectionView { heading: d[i as int], body: seq![] },
            ));
        } else {
            match r.pop() {
                Some(last) => {
                    let mut last = last;
                    assert(before.last() == last.deep_view());
                    let ghost body0 = last.body.deep_view();
                    last.body.push(lines[i].clone());
                    assert(last.body.deep_view() =~= body0.push(d[i as int]));
                    assert(r.deep_view() =~= before.drop_last());
                    let ghost lv = last.deep_view();
                    r.push(last);
                    assert(r.deep_view() =~= before.drop_last().push(lv));
                },
                None => {},
            }
        }
        i += 1;
    }
    assert(d.take(d.len() as int) =~= d);
    r
}

struct Heading {
    title: String,
    issue_type: String,
    priority: u64,
}

impl DeepView for Heading {
    type V = HeadingView;

    closed spec fn deep_view(&self) -> HeadingView {
        HeadingView { title: self.title@, issue_type: self.issue_type@, priority: self.priority }
    }
}

fn take_type_tag(h: Heading, tag: &str, pattern: &str) -> (r: Heading)
    requires
        pattern@.len() > 0,
    ensures
        r.deep_view() == with_type_tag(h.deep_view(), tag@, pattern@),
{
    if contains(&h.title, pattern) {
        Heading {
            title: trim(&remove_all(&h.title, pattern)),
            issue_type: tag.to_owned(),
            priority: h.priority,
        }
    } else {
        h
    }
}

fn take_priority_tag(h: Heading, p: u64, pattern: &str) -> (r: Heading)
    requires
        pattern@.len() > 0,
    ensures
        r.deep_view() == with_priority_tag(h.deep_view(), p, pattern@),
{
    if contains(&h.title, pattern) {
        Heading {
            title: trim(&remove_all(&h.title, pattern)),
            issue_type: h.issue_type,
            priority: p,
        }
    } else {
        h
    }
}

fn parse_heading(line: &str) -> (r: Heading)
    ensures
        r.deep_view() == parsed_heading(line@),
{
    proof {
        reveal_strlit("## ");
        reveal_strlit("[bug]");
        reveal_strlit("[feature]");
        reveal_strlit("[task]");
        reveal_strlit("[epic]");
        reveal_strlit("[chore]");
        reveal_strlit("[P0]");
        reveal_strlit("[P1]");
        reveal_strlit("[P2]");
        reveal_strlit("[P3]");
        reveal_strlit("[P4]");
    }
    let h = Heading {
        title: trim(&trim_start_text(line, "## ")),
        issue_type: "task".to_owned(),
        priority: 2,
    };
    let h = take_type_tag(h, "bug", "[bug]");
    let h = take_type_tag(h, "feature", "[feature]");
    let h = take_type_tag(h, "task", "[task]");
    let h = take_type_tag(h, "epic", "[epic]");
    let h = take_type_tag(h, "chore", "[chore]");
    let h = take_priority_tag(h, 0, "[P0]");
    let h = take_priority_tag(h, 1, "[P1]");
    let h = take_priority_tag(h, 2, "[P2]");
    let h = take_priority_tag(h, 3, "[P3]");
    take_priority_tag(h, 4, "[P4]")
}

fn to_paragraph(lines: &Vec<String>) -> (r: Option<String>)
    ensures
        r.deep_view() == paragraph(lines.deep_view()),
{
    let text = trim(&join(lines, "\n"));
    if text.as_str().is_empty() {
        None
    } else {
        Some(text)
    }
}

/// Reads a plan from Markdown. A title that is given takes the place of the first heading.
pub fn parse_plan_markdown(content: &str, epic_title: Option<&str>) -> (r: Result<
    Vec<PlanItem>,
    Error,
>)
    ensures
        match markdown_plan(content@, epic_title.deep_view()) {
            Some(items) => r is Ok && r->Ok_0.deep_view() == items,
            None => r is Err && r->Err_0@ == ErrorView::Other(
                "Epic title required (use --epic or add a # heading)"@,
            ),
        },
{
    let lines = split_lines(content);
    let title = match epic_title {
        Some(t) => t.to_owned(),
        None => match find_h1(&lines) {
            Some(t) => t,
            None => return Err(
                Error::Other("Epic title required (use --epic or add a # heading)".to_owned()),
            ),
        },
    };
    let mut r: Vec<PlanItem> = Vec::new();
    let none: Vec<String> = Vec::new();
    assert(none.deep_view() =~= seq![]);
    let epic = PlanItem {
        title: Some(title),
        issue_type: Some("epic".to_owned()),
        priority: Some(2),
        description: to_paragraph(&collect_preamble(&lines)),
        parent: None,
        blocks: none,
    };
    let ghost ev = epic.deep_view();
    r.push(epic);
    let parts = collect_sections(&lines);
    let ghost secs = sections(lines_of(content@));
    let mut i: usize = 0;
    while i < parts.len()
        invariant
            i <= parts.len(),
            parts.deep_view() == secs,
            r.len() == i + 1,
            r@[0].deep_view() == ev,
            forall|k: int| 0 <= k < i ==> (#[trigger] r@[k + 1]).deep_view() == section_item(secs[k]),
        decreases parts.len() - i,
    {
        assert(secs[i as int] == parts@[i as int].deep_view());
        let h = parse_heading(&parts[i].heading);
        let no_blocks: Vec<String> = Vec::new();
        assert(no_blocks.deep_view() =~= seq![]);
        r.push(
            PlanItem {
                title: Some(h.title),
                issue_type: Some(h.issue_type),
                priority: Some(h.priority),
                description: to_paragraph(&parts[i].body),
                parent: None,
                blocks: no_blocks,
            },
        );
        assert(r@[i + 1].deep_view() == section_item(secs[i as int]));
        i += 1;
    }
    assert(r.deep_view() =~= seq![ev] + Seq::new(secs.len(), |k: int| section_item(secs[k]))) by {
        assert forall|k: int| 0 <= k < r.deep_view().len() implies #[trigger] r.deep_view()[k] == (
        seq![ev] + Seq::new(secs.len(), |k: int| section_item(secs[k])))[k] by {
            if k > 0 {
                assert(r@[(k - 1) + 1].deep_view() == section_item(secs[k - 1]));
            }
        }
    }
    Ok(r)
}

// ------------------------------------------------------------------------- laws

/// The value's entry under a name is what the item has: title, type, priority, description and
/// parent, and of what stands under `blocks` the texts.
pub proof fn items_keep_the_fields_of_their_value(j: JsonView, id: Seq<char>)
    ensures
        json_item(j).title == j.member_text("title"@),
        json_item(j).issue_type == j.member_text("issue_type"@),
        json_item(j).priority == j.member_uint("priority"@),
        json_item(j).description == j.member_text("description"@),
        json_item(j).parent == j.member_text("parent"@),
        json_item(j).blocks.contains(id) <==> j.member_items("blocks"@) is Some
            && j.member_items("blocks"@)->0.contains(JsonView::Str(id)),
{
    if j.member_items("blocks"@) is Some {
        lemma_texts_among(j.member_items("blocks"@)->0, id);
    }
}

proof fn lemma_texts_among(items: Seq<JsonView>, id: Seq<char>)
    ensures
        texts_among(items).contains(id) <==> items.contains(JsonView::Str(id)),
    decreases items.len(),
{
    if items.len() > 0 {
        let front = items.drop_last();
        let t = texts_among(front);
        let r = texts_among(items);
        lemma_texts_among(front, id);
        assert(items[items.len() - 1] == items.last());
        if front.contains(JsonView::Str(id)) {
            let k = choose|k: int| 0 <= k < front.len() && front[k] == JsonView::Str(id);
            assert(items[k] == JsonView::Str(id));
            let m = choose|m: int| 0 <= m < t.len() && t[m] == id;
            assert(r[m] == id);
        }
        if items.contains(JsonView::Str(id)) {
            let k = choose|k: int| 0 <= k < items.len() && items[k] == JsonView::Str(id);
            if k < front.len() {
                assert(front[k] == JsonView::Str(id));
            } else {
                assert(r[t.len() as int] == id);
            }
        }
        if r.contains(id) {
            let m = choose|m: int| 0 <= m < r.len() && r[m] == id;
            if m < t.len() {
                assert(t[m] == id);
            }
        }
    }
}

/// A plan in JSON is a list, whose values are its items in order, or an object, which is the
/// first item, followed by the values under `children`. Nothing else is a plan.
pub proof fn plans_in_json_are_lists_or_trees(value: JsonView)
    ensures
        value matches JsonView::Arr(items) ==> plan_values(value) == Some(items),
        value is Obj ==> plan_values(value) is Some && plan_values(value)->0.len() > 0
            && plan_values(value)->0[0] == value,
        value is Obj && value.member_items("children"@) is Some ==> plan_values(
            value,
        )->0.drop_first() == value.member_items("children"@)->0,
        value is Obj && value.member_items("children"@) is None ==> plan_values(value)->0.len() == 1,
        !(value is Arr) && !(value is Obj) ==> plan_values(value) is None,
        plan_values(value) is Some ==> json_items(plan_values(value)->0).len() == plan_values(
            value,
        )->0.len(),
{
    if value is Obj && value.member_items("children"@) is Some {
        assert(plan_values(value)->0.drop_first() =~= value.member_items("children"@)->0);
    }
}

/// The line is a heading of the second level: it begins with two number signs and a space.
pub open spec fn heads_section(line: Seq<char>) -> bool {
    line.len() >= 3 && line[0] == '#' && line[1] == '#' && line[2] == ' '
}

/// The line is a heading of the first level: it begins with a number sign and a space.
pub open spec fn heads_plan(line: Seq<char>) -> bool {
    line.len() >= 2 && line[0] == '#' && line[1] == ' '
}

/// How many of the first `n` lines are headings of the second level.
pub open spec fn headings_in(lines: Seq<Seq<char>>, n: int) -> nat
    decreases n,
{
    if n <= 0 {
        0
    } else if heads_section(lines[n - 1]) {
        headings_in(lines, n - 1) + 1
    } else {
        headings_in(lines, n - 1)
    }
}

/// The line at `h` is a heading of the second level, and `e` is where the next one stands, or
/// the end.
pub open spec fn spans_section(lines: Seq<Seq<char>>, h: int, e: int) -> bool {
    &&& 0 <= h < e <= lines.len()
    &&& heads_section(lines[h])
    &&& forall|i: int| h < i < e ==> !heads_section(#[trigger] lines[i])
    &&& e < lines.len() ==> heads_section(lines[e])
}

proof fn lemma_heads(line: Seq<char>)
    ensures
        is_h2(line) <==> heads_section(line),
        is_h1(line) <==> heads_plan(line),
{
    reveal_strlit("## ");
    reveal_strlit("# ");
    let p = "## "@;
    let q = "# "@;
    assert(p =~= seq!['#', '#', ' ']);
    assert(q =~= seq!['#', ' ']);
    if is_h2(line) {
        assert(line.take(3)[0] == line[0] && line.take(3)[1] == line[1] && line.take(3)[2]
            == line[2]);
    }
    if heads_section(line) {
        assert(line.take(3) =~= p);
    }
    if is_h1(line) {
        assert(line.take(2)[0] == line[0] && line.take(2)[1] == line[1]);
    }
    if heads_plan(line) {
        assert(line.take(2) =~= q);
    }
}

proof fn lemma_headings_front(lines: Seq<Seq<char>>, m: int, n: int)
    requires
        0 <= n <= m <= lines.len(),
    ensures
        headings_in(lines.take(m), n) == headings_in(lines, n),
    decreases n,
{
    if n > 0 {
        lemma_headings_front(lines, m, n - 1);
        assert(lines.take(m)[n - 1] == lines[n - 1]);
    }
}

proof fn lemma_headings_grow(lines: Seq<Seq<char>>, m: int, n: int)
    requires
        0 <= m <= n <= lines.len(),
    ensures
        headings_in(lines, m) <= headings_in(lines, n),
        (forall|i: int| m <= i < n ==> !heads_section(#[trigger] lines[i])) ==> headings_in(lines, m)
            == headings_in(lines, n),
    decreases n,
{
    if m < n {
        lemma_headings_grow(lines, m, n - 1);
        assert(heads_section(lines[n - 1]) || !heads_section(lines[n - 1]));
    }
}

proof fn lemma_section_count(lines: Seq<Seq<char>>)
    ensures
        sections(lines).len() == headings_in(lines, lines.len() as int),
    decreases lines.len(),
{
    if lines.len() > 0 {
        let front = lines.drop_last();
        lemma_section_count(front);
        lemma_heads(lines.last());
        assert(front =~= lines.take(lines.len() - 1));
        lemma_headings_front(lines, lines.len() - 1, lines.len() - 1);
        assert(lines[lines.len() - 1] == lines.last());
    }
}

proof fn lemma_section_at(lines: Seq<Seq<char>>, h: int, e: int)
    requires
        spans_section(lines, h, e),
    ensures
        headings_in(lines, h) < sections(lines).len(),
        sections(lines)[headings_in(lines, h) as int] == (SectionView {
            heading: lines[h],
            body: lines.subrange(h + 1, e),
        }),
    decreases lines.len(),
{
    let n = lines.len() as int;
    let front = lines.drop_last();
    let k = headings_in(lines, h);
    assert(front =~= lines.take(n - 1));
    lemma_section_count(lines);
    lemma_section_count(front);
    lemma_heads(lines.last());
    assert(lines[n - 1] == lines.last());
    lemma_headings_front(lines, n - 1, n - 1);
    lemma_headings_grow(lines, h + 1, n);
    assert(headings_in(lines, h + 1) == k + 1);
    if h == n - 1 {
        assert(lines.subrange(h + 1, e) =~= seq![]);
    } else {
        lemma_headings_front(lines, n - 1, h);
        lemma_headings_grow(lines, h + 1, n - 1);
        let e2 = if e == n {
            n - 1
        } else {
            e
        };
        assert(front[h] == lines[h]);
        assert forall|i: int| h < i < e2 implies !heads_section(#[trigger] front[i]) by {
            assert(front[i] == lines[i]);
        }
        if e2 < front.len() {
            assert(front[e2] == lines[e2]);
        }
        lemma_section_at(front, h, e2);
        assert(front.subrange(h + 1, e2) =~= lines.subrange(h + 1, e2));
        if !heads_section(lines.last()) {
            if e == n {
                lemma_headings_grow(lines, h + 1, n - 1);
                assert(k == sections(front).len() - 1);
                assert(lines.subrange(h + 1, n) =~= lines.subrange(h + 1, n - 1).push(lines.last()));
            } else {
                lemma_headings_grow(lines, h + 1, e);
                assert(headings_in(lines, e + 1) == headings_in(lines, e) + 1);
                lemma_headings_grow(lines, e + 1, n - 1);
                assert(k < sections(front).len() - 1);
            }
        } else if e == n {
            assert(!heads_section(lines[n - 1]));
        }
    }
}

/// A plan in Markdown has one item for the epic and then one for each heading of the second
/// level, in order. The item of a heading is described by the lines strictly between it and the
/// next one, or the end, joined by line ends and trimmed; it has no description only where
/// these are blank. It waits for nothing and names no parent.
pub proof fn headings_become_items(
    content: Seq<char>,
    epic_title: Option<Seq<char>>,
    h: int,
    e: int,
)
    requires
        markdown_plan(content, epic_title) is Some,
        spans_section(lines_of(content), h, e),
    ensures
        ({
            let lines = lines_of(content);
            let items = markdown_plan(content, epic_title)->0;
            let k = headings_in(lines, h) + 1;
            let text = trimmed(joined(lines.subrange(h + 1, e), seq!['\n']));
            &&& items.len() == headings_in(lines, lines.len() as int) + 1
            &&& k < items.len()
            &&& text.len() > 0 ==> items[k as int].description == Some(text)
            &&& text.len() == 0 ==> items[k as int].description is None
            &&& items[k as int].parent is None
            &&& items[k as int].blocks.len() == 0
            &&& items[k as int].title == Some(parsed_heading(lines[h]).title)
            &&& items[k as int].issue_type == Some(parsed_heading(lines[h]).issue_type)
            &&& items[k as int].priority == Some(parsed_heading(lines[h]).priority)
        }),
{
    let lines = lines_of(content);
    reveal_strlit("\n");
    assert("\n"@ =~= seq!['\n']);
    lemma_section_at(lines, h, e);
    lemma_section_count(lines);
}

/// Every line under a heading stands in the lines that describe its item, before these are
/// trimmed.
pub proof fn lines_under_a_heading_are_kept(lines: Seq<Seq<char>>, h: int, e: int, i: int)
    requires
        spans_section(lines, h, e),
        h < i < e,
    ensures
        holds_text(joined(lines.subrange(h + 1, e), seq!['\n']), lines[i]),
{
    crate::text::joined_parts_are_held(lines.subrange(h + 1, e), seq!['\n'], i - h - 1);
}

proof fn lemma_first_h1(lines: Seq<Seq<char>>, h: int)
    requires
        0 <= h < lines.len(),
        heads_plan(lines[h]),
        forall|i: int| 0 <= i < h ==> !heads_plan(#[trigger] lines[i]),
    ensures
        first_h1(lines) == Some(trimmed(without_leading(lines[h], "# "@))),
    decreases lines.len(),
{
    lemma_heads(lines[0]);
    if h > 0 {
        assert(!heads_plan(lines[0]));
        let rest = lines.drop_first();
        assert(rest[h - 1] == lines[h]);
        assert forall|i: int| 0 <= i < h - 1 implies !heads_plan(#[trigger] rest[i]) by {
            assert(rest[i] == lines[i + 1]);
        }
        lemma_first_h1(rest, h - 1);
    }
}

proof fn lemma_no_h1(lines: Seq<Seq<char>>)
    requires
        forall|i: int| 0 <= i < lines.len() ==> !heads_plan(#[trigger] lines[i]),
    ensures
        first_h1(lines) is None,
    decreases lines.len(),
{
    if lines.len() > 0 {
        lemma_heads(lines[0]);
        assert(!heads_plan(lines[0]));
        let rest = lines.drop_first();
        assert forall|i: int| 0 <= i < rest.len() implies !heads_plan(#[trigger] rest[i]) by {
            assert(rest[i] == lines[i + 1]);
        }
        lemma_no_h1(rest);
    }
}

/// The epic is called as the user says, or as the first heading of the first level; where there
/// is neither, there is no plan. It is an epic of medium priority.
pub proof fn epics_are_named(content: Seq<char>, epic_title: Option<Seq<char>>, h: int)
    ensures
        ({
            let lines = lines_of(content);
            let plan = markdown_plan(content, epic_title);
            &&& epic_title matches Some(t) ==> plan is Some && plan->0[0].title == Some(t)
            &&& epic_title is None && 0 <= h < lines.len() && heads_plan(lines[h]) && (forall|i: int|
                0 <= i < h ==> !heads_plan(#[trigger] lines[i])) ==> plan is Some
                && plan->0[0].title == Some(trimmed(without_leading(lines[h], "# "@)))
            &&& epic_title is None && (forall|i: int|
                0 <= i < lines.len() ==> !heads_plan(#[trigger] lines[i])) ==> plan is None
            &&& plan is Some ==> plan->0.len() > 0 && plan->0[0].issue_type == Some("epic"@)
                && plan->0[0].priority == Some(2u64) && plan->0[0].parent is None
                && plan->0[0].blocks.len() == 0
        }),
{
    let lines = lines_of(content);
    if 0 <= h < lines.len() && heads_plan(lines[h]) && (forall|i: int|
        0 <= i < h ==> !heads_plan(#[trigger] lines[i])) {
        lemma_first_h1(lines, h);
    }
    if forall|i: int| 0 <= i < lines.len() ==> !heads_plan(#[trigger] lines[i]) {
        lemma_no_h1(lines);
    }
}

/// The lines that are no heading of the first level.
pub open spec fn under_headings(lines: Seq<Seq<char>>) -> Seq<Seq<char>> {
    lines.filter(|l: Seq<char>| !heads_plan(l))
}

proof fn lemma_filter_first(s: Seq<Seq<char>>, f: spec_fn(Seq<char>) -> bool)
    requires
        s.len() > 0,
    ensures
        s.filter(f) == if f(s[0]) {
            seq![s[0]] + s.drop_first().filter(f)
        } else {
            s.drop_first().filter(f)
        },
    decreases s.len(),
{
    reveal(Seq::filter);
    let rest = s.drop_first();
    if s.len() == 1 {
        assert(s.drop_last() =~= seq![]);
        assert(rest =~= seq![]);
        assert(s.filter(f) =~= if f(s[0]) {
            seq![s[0]] + rest.filter(f)
        } else {
            rest.filter(f)
        });
    } else {
        lemma_filter_first(s.drop_last(), f);
        assert(s.drop_last().drop_first() =~= rest.drop_last());
        assert(rest.last() == s.last());
        assert(s.filter(f) =~= if f(s[0]) {
            seq![s[0]] + rest.filter(f)
        } else {
            rest.filter(f)
        });
    }
}

proof fn lemma_preamble(lines: Seq<Seq<char>>, started: bool, h: int, e: int)
    requires
        started || 0 <= h < e,
        0 <= e <= lines.len(),
        e < lines.len() ==> heads_section(lines[e]),
        forall|i: int| 0 <= i < e ==> !heads_section(#[trigger] lines[i]),
        !started ==> heads_plan(lines[h]) && forall|i: int|
            0 <= i < h ==> !heads_plan(#[trigger] lines[i]),
    ensures
        preamble(lines, started) == under_headings(
            if started {
                lines.take(e)
            } else {
                lines.subrange(h + 1, e)
            },
        ),
    decreases lines.len(),
{
    let f = |l: Seq<char>| !heads_plan(l);
    if e == 0 {
        assert(lines.take(0) =~= seq![]);
        assert(under_headings(lines.take(0)) =~= seq![]) by {
            reveal(Seq::filter);
        }
        if lines.len() > 0 {
            lemma_heads(lines[0]);
        }
    } else {
        lemma_heads(lines[0]);
        assert(!heads_section(lines[0]));
        let rest = lines.drop_first();
        if e < lines.len() {
            assert(rest[e - 1] == lines[e]);
        }
        assert forall|i: int| 0 <= i < e - 1 implies !heads_section(#[trigger] rest[i]) by {
            assert(rest[i] == lines[i + 1]);
        }
        if started {
            lemma_preamble(rest, true, 0, e - 1);
            let t = lines.take(e);
            assert(t.drop_first() =~= rest.take(e - 1));
            lemma_filter_first(t, f);
        } else if h == 0 {
            lemma_preamble(rest, true, 0, e - 1);
            assert(lines.subrange(1, e) =~= rest.take(e - 1));
        } else {
            assert(!heads_plan(lines[0]));
            assert(rest[h - 1] == lines[h]);
            assert forall|i: int| 0 <= i < h - 1 implies !heads_plan(#[trigger] rest[i]) by {
                assert(rest[i] == lines[i + 1]);
            }
            lemma_preamble(rest, false, h - 1, e - 1);
            assert(lines.subrange(h + 1, e) =~= rest.subrange(h, e - 1));
        }
    }
}

/// The epic is described by the lines between its heading, the first of the first level, and the
/// first heading of the second level, or the end, joined by line ends and trimmed; further
/// headings of the first level are left out.
pub proof fn epics_are_described(
    content: Seq<char>,
    epic_title: Option<Seq<char>>,
    h: int,
    e: int,
)
    requires
        markdown_plan(content, epic_title) is Some,
        0 <= h < e <= lines_of(content).len(),
        heads_plan(lines_of(content)[h]),
        forall|i: int| 0 <= i < h ==> !heads_plan(#[trigger] lines_of(content)[i]),
        forall|i: int| 0 <= i < e ==> !heads_section(#[trigger] lines_of(content)[i]),
        e < lines_of(content).len() ==> heads_section(lines_of(content)[e]),
    ensures
        ({
            let lines = lines_of(content);
            let text = trimmed(joined(under_headings(lines.subrange(h + 1, e)), seq!['\n']));
            let epic = markdown_plan(content, epic_title)->0[0];
            &&& text.len() > 0 ==> epic.description == Some(text)
            &&& text.len() == 0 ==> epic.description is None
        }),
{
    reveal_strlit("\n");
    assert("\n"@ =~= seq!['\n']);
    lemma_preamble(lines_of(content), false, h, e);
}

proof fn lemma_no_bracket(s: Seq<char>, p: Seq<char>)
    requires
        !s.contains('['),
        p.len() > 0,
        p[0] == '[',
    ensures
        !holds_text(s, p),
        without_all(s, p) == s,
    decreases s.len(),
{
    if holds_text(s, p) {
        let i = choose|i: int|
            0 <= i <= s.len() - p.len() && #[trigger] s.subrange(i, i + p.len()) == p;
        assert(s.subrange(i, i + p.len())[0] == s[i]);
        assert(s.contains(s[i]));
    }
    if s.len() > 0 {
        if begins_with(s, p) {
            assert(s.take(p.len() as int)[0] == s[0]);
            assert(s.contains(s[0]));
        }
        let rest = s.drop_first();
        if rest.contains('[') {
            let k = choose|k: int| 0 <= k < rest.len() && rest[k] == '[';
            assert(s[k + 1] == '[');
        }
        lemma_no_bracket(rest, p);
        assert(seq![s[0]] + rest =~= s);
    }
}

proof fn lemma_tag_is_taken(p: Seq<char>, t: Seq<char>)
    requires
        p.len() > 1,
        p[0] == '[',
        p.last() == ']',
        !t.contains('['),
        t.len() > 0,
        !is_space(t[0]),
        !is_space(t.last()),
    ensures
        ({
            let s = p + seq![' '] + t;
            &&& holds_text(s, p)
            &&& trimmed(without_all(s, p)) == t
            &&& trimmed(s) == s
        }),
{
    let s = p + seq![' '] + t;
    assert(s.subrange(0int, 0int + p.len()) =~= p);
    assert(begins_with(s, p)) by {
        assert(s.take(p.len() as int) =~= p);
    }
    let rest = seq![' '] + t;
    assert(s.skip(p.len() as int) =~= rest);
    assert(!rest.contains('[')) by {
        if rest.contains('[') {
            let k = choose|k: int| 0 <= k < rest.len() && rest[k] == '[';
            assert(t[k - 1] == '[');
        }
    }
    lemma_no_bracket(rest, p);
    assert(rest.drop_first() =~= t);
    assert(trimmed_start(rest) == trimmed_start(t));
    trimming_keeps_trimmed_text(t);
    assert(s.last() == t.last());
    trimming_keeps_trimmed_text(s);
}

/// A tag of a heading, and what it says.
pub open spec fn type_tag(t: IssueType) -> Seq<char> {
    match t {
        IssueType::Bug => "[bug]"@,
        IssueType::Feature => "[feature]"@,
        IssueType::Task => "[task]"@,
        IssueType::Epic => "[epic]"@,
        IssueType::Chore => "[chore]"@,
    }
}

proof fn lemma_heading_text(line: Seq<char>, rest: Seq<char>)
    requires
        line == seq!['#', '#', ' '] + rest,
        rest.len() > 0,
        rest[0] != '#',
    ensures
        without_leading(line, "## "@) == rest,
{
    reveal_strlit("## ");
    assert("## "@ =~= seq!['#', '#', ' ']);
    assert(line.take(3) =~= "## "@);
    assert(line.skip(3) =~= rest);
    assert(!begins_with(rest, "## "@)) by {
        if begins_with(rest, "## "@) {
            assert(rest.take(3)[0] == rest[0]);
        }
    }
    assert(without_leading(rest, "## "@) == rest);
}

proof fn lemma_tags()
    ensures
        "[bug]"@.len() > 1 && "[bug]"@[0] == '[' && "[bug]"@.last() == ']',
        "[feature]"@.len() > 1 && "[feature]"@[0] == '[' && "[feature]"@.last() == ']',
        "[task]"@.len() > 1 && "[task]"@[0] == '[' && "[task]"@.last() == ']',
        "[epic]"@.len() > 1 && "[epic]"@[0] == '[' && "[epic]"@.last() == ']',
        "[chore]"@.len() > 1 && "[chore]"@[0] == '[' && "[chore]"@.last() == ']',
        "[P0]"@.len() > 1 && "[P0]"@[0] == '[' && "[P0]"@.last() == ']',
        "[P1]"@.len() > 1 && "[P1]"@[0] == '[' && "[P1]"@.last() == ']',
        "[P2]"@.len() > 1 && "[P2]"@[0] == '[' && "[P2]"@.last() == ']',
        "[P3]"@.len() > 1 && "[P3]"@[0] == '[' && "[P3]"@.last() == ']',
        "[P4]"@.len() > 1 && "[P4]"@[0] == '[' && "[P4]"@.last() == ']',
        "[bug]"@[1] == 'b' && "[feature]"@[1] == 'f' && "[task]"@[1] == 't' && "[epic]"@[1] == 'e'
            && "[chore]"@[1] == 'c',
        "[P0]"@[1] == 'P' && "[P1]"@[1] == 'P' && "[P2]"@[1] == 'P' && "[P3]"@[1] == 'P'
            && "[P4]"@[1] == 'P',
        "[P0]"@[2] == '0' && "[P1]"@[2] == '1' && "[P2]"@[2] == '2' && "[P3]"@[2] == '3'
            && "[P4]"@[2] == '4',
        "[P0]"@.len() == 4 && "[P1]"@.len() == 4 && "[P2]"@.len() == 4 && "[P3]"@.len() == 4
            && "[P4]"@.len() == 4,
        forall|k: int| 1 <= k < "[bug]"@.len() ==> #[trigger] "[bug]"@[k] != '[',
        forall|k: int| 1 <= k < "[feature]"@.len() ==> #[trigger] "[feature]"@[k] != '[',
        forall|k: int| 1 <= k < "[task]"@.len() ==> #[trigger] "[task]"@[k] != '[',
        forall|k: int| 1 <= k < "[epic]"@.len() ==> #[trigger] "[epic]"@[k] != '[',
        forall|k: int| 1 <= k < "[chore]"@.len() ==> #[trigger] "[chore]"@[k] != '[',
        forall|k: int| 1 <= k < "[P0]"@.len() ==> #[trigger] "[P0]"@[k] != '[',
        forall|k: int| 1 <= k < "[P1]"@.len() ==> #[trigger] "[P1]"@[k] != '[',
        forall|k: int| 1 <= k < "[P2]"@.len() ==> #[trigger] "[P2]"@[k] != '[',
        forall|k: int| 1 <= k < "[P3]"@.len() ==> #[trigger] "[P3]"@[k] != '[',
        forall|k: int| 1 <= k < "[P4]"@.len() ==> #[trigger] "[P4]"@[k] != '[',
{
    reveal_strlit("[bug]");
    reveal_strlit("[feature]");
    reveal_strlit("[task]");
    reveal_strlit("[epic]");
    reveal_strlit("[chore]");
    reveal_strlit("[P0]");
    reveal_strlit("[P1]");
    reveal_strlit("[P2]");
    reveal_strlit("[P3]");
    reveal_strlit("[P4]");
}

/// A text that holds one tag and has no other bracket holds no other tag.
proof fn lemma_other_tag(p: Seq<char>, t: Seq<char>, q: Seq<char>, at: int)
    requires
        p.len() > 1,
        forall|k: int| 1 <= k < p.len() ==> #[trigger] p[k] != '[',
        !t.contains('['),
        q.len() > 1,
        q[0] == '[',
        1 <= at < q.len(),
        at < p.len(),
        q[at] != p[at],
    ensures
        !holds_text(p + seq![' '] + t, q),
{
    let s = p + seq![' '] + t;
    if holds_text(s, q) {
        let i = choose|i: int|
            0 <= i <= s.len() - q.len() && #[trigger] s.subrange(i, i + q.len()) == q;
        let w = s.subrange(i, i + q.len());
        assert(w[0] == s[i]);
        assert(w[at] == s[i + at]);
        if i == 0 {
            assert(s[at] == p[at]);
        } else if i < p.len() {
            assert(s[i] == p[i]);
        } else if i > p.len() {
            assert(s[i] == t[i - p.len() - 1]);
            assert(t.contains(s[i]));
        }
    }
}

/// A title without brackets is the title of its item, which is a task of medium priority.
pub proof fn untagged_headings_are_tasks(t: Seq<char>)
    requires
        t.len() > 0,
        !is_space(t[0]),
        !is_space(t.last()),
        t[0] != '#',
        !t.contains('['),
    ensures
        parsed_heading(seq!['#', '#', ' '] + t).title == t,
        parsed_heading(seq!['#', '#', ' '] + t).issue_type == "task"@,
        parsed_heading(seq!['#', '#', ' '] + t).priority == 2,
{
    lemma_tags();
    lemma_heading_text(seq!['#', '#', ' '] + t, t);
    trimming_keeps_trimmed_text(t);
    lemma_no_bracket(t, "[bug]"@);
    lemma_no_bracket(t, "[feature]"@);
    lemma_no_bracket(t, "[task]"@);
    lemma_no_bracket(t, "[epic]"@);
    lemma_no_bracket(t, "[chore]"@);
    lemma_no_bracket(t, "[P0]"@);
    lemma_no_bracket(t, "[P1]"@);
    lemma_no_bracket(t, "[P2]"@);
    lemma_no_bracket(t, "[P3]"@);
    lemma_no_bracket(t, "[P4]"@);
}

/// A type in brackets before the title is the type of the item, and no part of its title.
#[verifier::spinoff_prover]
#[verifier::rlimit(60)]
pub proof fn type_tags_name_the_type(kind: IssueType, t: Seq<char>)
    requires
        t.len() > 0,
        !is_space(t[0]),
        !is_space(t.last()),
        !t.contains('['),
    ensures
        ({
            let h = parsed_heading(seq!['#', '#', ' '] + (type_tag(kind) + seq![' '] + t));
            h.title == t && h.issue_type == kind.name() && h.priority == 2
        }),
{
    lemma_tags();
    let p = type_tag(kind);
    let s = p + seq![' '] + t;
    assert(s[0] == '[');
    lemma_heading_text(seq!['#', '#', ' '] + s, s);
    lemma_tag_is_taken(p, t);
    if kind != IssueType::Bug {
        lemma_other_tag(p, t, "[bug]"@, 1);
    }
    if kind != IssueType::Feature {
        lemma_other_tag(p, t, "[feature]"@, 1);
    }
    if kind != IssueType::Task {
        lemma_other_tag(p, t, "[task]"@, 1);
    }
    if kind != IssueType::Epic {
        lemma_other_tag(p, t, "[epic]"@, 1);
    }
    if kind != IssueType::Chore {
        lemma_other_tag(p, t, "[chore]"@, 1);
    }
    lemma_no_bracket(t, "[feature]"@);
    lemma_no_bracket(t, "[task]"@);
    lemma_no_bracket(t, "[epic]"@);
    lemma_no_bracket(t, "[chore]"@);
    lemma_no_bracket(t, "[P0]"@);
    lemma_no_bracket(t, "[P1]"@);
    lemma_no_bracket(t, "[P2]"@);
    lemma_no_bracket(t, "[P3]"@);
    lemma_no_bracket(t, "[P4]"@);
}

pub open spec fn priority_tag(p: u64) -> Seq<char> {
    if p == 0 {
        "[P0]"@
    } else if p == 1 {
        "[P1]"@
    } else if p == 2 {
        "[P2]"@
    } else if p == 3 {
        "[P3]"@
    } else {
        "[P4]"@
    }
}

/// A priority in brackets before the title is the priority of the item, and no part of its
/// title.
#[verifier::spinoff_prover]
#[verifier::rlimit(60)]
pub proof fn priority_tags_name_the_priority(n: u64, t: Seq<char>)
    requires
        n <= 4,
        t.len() > 0,
        !is_space(t[0]),
        !is_space(t.last()),
        !t.contains('['),
    ensures
        ({
            let h = parsed_heading(seq!['#', '#', ' '] + (priority_tag(n) + seq![' '] + t));
            h.title == t && h.issue_type == "task"@ && h.priority == n
        }),
{
    lemma_tags();
    let p = priority_tag(n);
    let s = p + seq![' '] + t;
    assert(s[0] == '[');
    lemma_heading_text(seq!['#', '#', ' '] + s, s);
    lemma_tag_is_taken(p, t);
    lemma_other_tag(p, t, "[bug]"@, 1);
    lemma_other_tag(p, t, "[feature]"@, 1);
    lemma_other_tag(p, t, "[task]"@, 1);
    lemma_other_tag(p, t, "[epic]"@, 1);
    lemma_other_tag(p, t, "[chore]"@, 1);
    if n != 0 {
        lemma_other_tag(p, t, "[P0]"@, 2);
    }
    if n != 1 {
        lemma_other_tag(p, t, "[P1]"@, 2);
    }
    if n != 2 {
        lemma_other_tag(p, t, "[P2]"@, 2);
    }
    if n != 3 {
        lemma_other_tag(p, t, "[P3]"@, 2);
    }
    if n != 4 {
        lemma_other_tag(p, t, "[P4]"@, 2);
    }
    lemma_no_bracket(t, "[P1]"@);
    lemma_no_bracket(t, "[P2]"@);
    lemma_no_bracket(t, "[P3]"@);
    lemma_no_bracket(t, "[P4]"@);
}

} // verus!
