//! The swimlane: one lane for each issue, time from left to right.
use crate::error::{Error, ErrorView};
use crate::events::{Event, EventAction, EventView};
use crate::filter::{cut, limited};
use crate::sort::{stable_sort, stable_sorted, Order};
use crate::style::{new_line, plain, push_span, toned, Span, SpanView, Tone};
use crate::text::{
    chars_of, decimal, pad_right, padded_right, parse_unsigned, parsed_unsigned, repeat, repeated,
    same_text, shortened, split_words, truncate, words_of,
};
use crate::time::Timestamp;
use vstd::prelude::*;
use vstd::utf8::encode_utf8;

verus! {

// -------------------------------------------------------------------- actions

/// Which of two actions in one cell is shown.
pub open spec fn action_weight(a: EventAction) -> int {
    match a {
        EventAction::Deleted => 6,
        EventAction::Closed => 5,
        EventAction::Reopened => 4,
        EventAction::Created => 3,
        EventAction::DepAdded => 2,
        EventAction::DepRemoved => 2,
        EventAction::SessionLinked => 1,
        EventAction::Restored => 1,
        EventAction::VerificationAdded => 1,
        EventAction::Updated => 0,
    }
}

pub fn action_priority(a: EventAction) -> (r: u8)
    ensures
        r == action_weight(a),
{
    match a {
        EventAction::Deleted => 6,
        EventAction::Closed => 5,
        EventAction::Reopened => 4,
        EventAction::Created => 3,
        EventAction::DepAdded => 2,
        EventAction::DepRemoved => 2,
        EventAction::SessionLinked => 1,
        EventAction::Restored => 1,
        EventAction::VerificationAdded => 1,
        EventAction::Updated => 0,
    }
}

/// The sign for an action.
pub open spec fn glyph(a: EventAction) -> Seq<char> {
    match a {
        EventAction::Created => "+"@,
        EventAction::Updated => "*"@,
        EventAction::Reopened => "↑"@,
        EventAction::Closed => "■"@,
        EventAction::Deleted => "✕"@,
        EventAction::Restored => "·"@,
        EventAction::DepAdded => "◆"@,
        EventAction::DepRemoved => "◆"@,
        EventAction::SessionLinked => "·"@,
        EventAction::VerificationAdded => "·"@,
    }
}

pub fn action_glyph(a: EventAction) -> (r: &'static str)
    ensures
        r@ == glyph(a),
{
    match a {
        EventAction::Created => "+",
        EventAction::Updated => "*",
        EventAction::Reopened => "↑",
        EventAction::Closed => "■",
        EventAction::Deleted => "✕",
        EventAction::Restored => "·",
        EventAction::DepAdded => "◆",
        EventAction::DepRemoved => "◆",
        EventAction::SessionLinked => "·",
        EventAction::VerificationAdded => "·",
    }
}

/// The tone of the sign for an action.
pub open spec fn glyph_tone(a: EventAction) -> Tone {
    match a {
        EventAction::Created => Tone::Green,
        EventAction::Updated => Tone::White,
        EventAction::Reopened => Tone::Yellow,
        EventAction::Closed => Tone::BrightBlue,
        EventAction::Deleted => Tone::BrightRed,
        EventAction::Restored => Tone::Green,
        EventAction::DepAdded => Tone::Magenta,
        EventAction::DepRemoved => Tone::Magenta,
        EventAction::SessionLinked => Tone::Cyan,
        EventAction::VerificationAdded => Tone::Cyan,
    }
}

pub fn colored_glyph(a: EventAction) -> (r: Tone)
    ensures
        r == glyph_tone(a),
{
    match a {
        EventAction::Created => Tone::Green,
        EventAction::Updated => Tone::White,
        EventAction::Reopened => Tone::Yellow,
        EventAction::Closed => Tone::BrightBlue,
        EventAction::Deleted => Tone::BrightRed,
        EventAction::Restored => Tone::Green,
        EventAction::DepAdded => Tone::Magenta,
        EventAction::DepRemoved => Tone::Magenta,
        EventAction::SessionLinked => Tone::Cyan,
        EventAction::VerificationAdded => Tone::Cyan,
    }
}

// ----------------------------------------------------------------------- lanes

/// An issue and when it was last touched.
#[derive(Clone, Debug)]
pub struct Lane {
    pub id: String,
    pub last: Timestamp,
}

pub struct LaneView {
    pub id: Seq<char>,
    pub last: Timestamp,
}

impl DeepView for Lane {
    type V = LaneView;

    open spec fn deep_view(&self) -> LaneView {
        LaneView { id: self.id@, last: self.last }
    }
}

pub open spec fn lane_index(lanes: Seq<LaneView>, id: Seq<char>) -> int
    decreases lanes.len(),
{
    if lanes.len() == 0 {
        0
    } else if lanes[0].id == id {
        0
    } else {
        1 + lane_index(lanes.drop_first(), id)
    }
}

/// The issues that events touch, each with its latest event.
pub open spec fn last_seen(events: Seq<EventView>) -> Seq<LaneView>
    decreases events.len(),
{
    if events.len() == 0 {
        seq![]
    } else {
        let before = last_seen(events.drop_last());
        let e = events.last();
        let k = lane_index(before, e.issue_id);
        if k < before.len() {
            if before[k].last.lt(e.timestamp) {
                before.update(k, LaneView { id: before[k].id, last: e.timestamp })
            } else {
                before
            }
        } else {
            before.push(LaneView { id: e.issue_id, last: e.timestamp })
        }
    }
}

pub open spec fn lane_le(a: LaneView, b: LaneView) -> bool {
    b.last.le(a.last)
}

/// Lanes from the one that was touched last.
pub struct ByActivity;

impl Order<Lane> for ByActivity {
    open spec fn le(&self, a: LaneView, b: LaneView) -> bool {
        lane_le(a, b)
    }

    proof fn lawful(&self) {
    }

    fn at_most(&self, a: &Lane, b: &Lane) -> (r: bool) {
        b.last.at_most(&a.last)
    }
}

/// The lanes that are shown: the issues that were touched last, at most `limit`.
pub open spec fn lanes(events: Seq<EventView>, limit: usize) -> Seq<LaneView> {
    limited(
        stable_sorted(last_seen(events), |a: LaneView, b: LaneView| lane_le(a, b)),
        Some(limit),
    )
}

fn find_lane(list: &Vec<Lane>, id: &str) -> (r: usize)
    ensures
        r == lane_index(list.deep_view(), id@),
        r <= list.len(),
{
    let ghost d = list.deep_view();
    let mut i: usize = 0;
    assert(d.skip(0) =~= d);
    while i < list.len()
        invariant
            i <= list.len(),
            d == list.deep_view(),
            lane_index(d, id@) == i + lane_index(d.skip(i as int), id@),
        decreases list.len() - i,
    {
        assert(d[i as int] == list@[i as int].deep_view());
        assert(d.skip(i as int).drop_first() =~= d.skip(i + 1));
        if same_text(&list[i].id, id) {
            return i;
        }
        i += 1;
    }
    i
}

/// Picks the lanes that are shown.
pub fn pick_lanes(events: &Vec<Event>, limit: usize) -> (r: Vec<Lane>)
    ensures
        r.deep_view() == lanes(events.deep_view(), limit),
{
    let ghost d = events.deep_view();
    let mut list: Vec<Lane> = Vec::new();
    let mut i: usize = 0;
    assert(list.deep_view() =~= last_seen(d.take(0)));
    while i < events.len()
        invariant
            i <= events.len(),
            d == events.deep_view(),
            list.deep_view() == last_seen(d.take(i as int)),
        decreases events.len() - i,
    {
        let ghost before = list.deep_view();
        assert(d.take(i + 1).drop_last() =~= d.take(i as int));
        assert(d.take(i + 1).last() == events@[i as int]@);
        let e = &events[i];
        let k = find_lane(&list, &e.issue_id);
        if k < list.len() {
            assert(before[k as int] == list@[k as int].deep_view());
            if !e.timestamp.at_most(&list[k].last) {
                let lane = Lane { id: list[k].id.clone(), last: e.timestamp };
                let ghost lv = lane.deep_view();
                list.set(k, lane);
                assert(list.deep_view() =~= before.update(k as int, lv));
            }
        } else {
            let lane = Lane { id: e.issue_id.clone(), last: e.timestamp };
            let ghost lv = lane.deep_view();
            list.push(lane);
            assert(list.deep_view() =~= before.push(lv));
        }
        i += 1;
    }
    assert(d.take(d.len() as int) =~= d);
    let sorted = stable_sort(list, &ByActivity);
    assert((|a: LaneView, b: LaneView| lane_le(a, b)) =~= (|a: LaneView, b: LaneView|
        <ByActivity as Order<Lane>>::le(&ByActivity, a, b)));
    cut(sorted, Some(limit))
}

// ---------------------------------------------------------------------- measures

/// The longest id has so many characters.
pub open spec fn longest(lanes: Seq<LaneView>) -> nat
    decreases lanes.len(),
{
    if lanes.len() == 0 {
        0
    } else {
        let m = longest(lanes.drop_last());
        if lanes.last().id.len() > m {
            lanes.last().id.len()
        } else {
            m
        }
    }
}

/// `n`, but no less than `low` and no more than `high`.
pub open spec fn clamped(n: int, low: int, high: int) -> int {
    if n < low {
        low
    } else if n > high {
        high
    } else {
        n
    }
}

/// The width of the labels: 8 to 20 characters.
pub fn label_width(lanes: &Vec<Lane>) -> (r: usize)
    ensures
        r == clamped(longest(lanes.deep_view()) as int, 8, 20),
{
    let ghost d = lanes.deep_view();
    let mut m: usize = 0;
    let mut i: usize = 0;
    while i < lanes.len()
        invariant
            i <= lanes.len(),
            d == lanes.deep_view(),
            m == longest(d.take(i as int)),
        decreases lanes.len() - i,
    {
        assert(d.take(i + 1).drop_last() =~= d.take(i as int));
        assert(d.take(i + 1).last() == lanes@[i as int].deep_view());
        let n: usize = chars_of(&lanes[i].id).len();
        if n > m {
            m = n;
        }
        i += 1;
    }
    assert(d.take(d.len() as int) =~= d);
    if m < 8 {
        8
    } else if m > 20 {
        20
    } else {
        m
    }
}

/// The number of columns: as asked, else what the terminal has room for; 10 to 200.
pub open spec fn column_count(cols: Option<usize>, terminal: int, label_w: int) -> int {
    clamped(
        match cols {
            Some(n) => n as int,
            None => {
                let room = if terminal > label_w + 4 {
                    terminal - (label_w + 4)
                } else {
                    0
                };
                if room < 20 {
                    20
                } else {
                    room
                }
            },
        },
        10,
        200,
    )
}

pub fn columns(cols: Option<usize>, terminal: usize, label_w: usize) -> (r: usize)
    requires
        label_w <= 20,
    ensures
        r == column_count(cols, terminal as int, label_w as int),
        10 <= r <= 200,
{
    let n: usize = match cols {
        Some(n) => n,
        None => {
            let room: usize = if terminal > label_w + 4 {
                terminal - (label_w + 4)
            } else {
                0
            };
            if room < 20 {
                20
            } else {
                room
            }
        },
    };
    if n < 10 {
        10
    } else if n > 200 {
        200
    } else {
        n
    }
}

/// The width of the terminal in what `stty size` prints: rows, then columns.
pub open spec fn stty_width(output: Seq<char>, default: nat) -> nat {
    let words = words_of(output);
    if words.len() < 2 {
        default
    } else {
        match parsed_unsigned(words[1], u16::MAX as nat) {
            Some(n) => n,
            None => default,
        }
    }
}

pub fn term_width(output: &str, default: usize) -> (r: usize)
    ensures
        r == stty_width(output@, default as nat),
{
    let words = split_words(output);
    if words.len() < 2 {
        return default;
    }
    assert(words.deep_view()[1] == words@[1]@);
    match parse_unsigned(&words[1], u16::MAX as u64) {
        Some(n) => n as usize,
        None => default,
    }
}

/// Checks the window of time.
pub fn check_window(since: &Timestamp, until: &Timestamp) -> (r: Result<(), Error>)
    ensures
        since.lt(*until) ==> r is Ok,
        !since.lt(*until) ==> r is Err && r->Err_0@ == ErrorView::Other(
            "--until must be after --since"@,
        ),
{
    if until.at_most(since) {
        Err(Error::Other("--until must be after --since".to_owned()))
    } else {
        Ok(())
    }
}

// -------------------------------------------------------------------------- grid

/// A cell after one more action fell into it: the weightier one stays, of equal ones the
/// first.
pub open spec fn merged_cell(cell: Option<EventAction>, a: EventAction) -> Option<EventAction> {
    match cell {
        None => Some(a),
        Some(b) => if action_weight(a) > action_weight(b) {
            Some(a)
        } else {
            Some(b)
        },
    }
}

/// The column of an event, kept within the grid.
pub open spec fn grid_column(col: int, n_cols: int) -> int {
    clamped(col, 0, n_cols - 1)
}

/// What a cell shows: `cols` holds the column of each event.
pub open spec fn grid_cell(
    events: Seq<EventView>,
    cols: Seq<i64>,
    id: Seq<char>,
    c: int,
    n_cols: int,
) -> Option<EventAction>
    decreases events.len(),
{
    if events.len() == 0 {
        None
    } else {
        let before = grid_cell(events.drop_last(), cols, id, c, n_cols);
        let k = events.len() - 1;
        if events.last().issue_id == id && grid_column(cols[k] as int, n_cols) == c {
            merged_cell(before, events.last().action)
        } else {
            before
        }
    }
}

fn fill_lane(events: &Vec<Event>, cols: &Vec<i64>, id: &str, n_cols: usize) -> (r: Vec<
    Option<EventAction>,
>)
    requires
        events.len() == cols.len(),
        1 <= n_cols <= 200,
    ensures
        r@.len() == n_cols,
        forall|c: int|
            0 <= c < n_cols ==> #[trigger] r@[c] == grid_cell(
                events.deep_view(),
                cols@,
                id@,
                c,
                n_cols as int,
            ),
{
    let ghost d = events.deep_view();
    let mut cells: Vec<Option<EventAction>> = Vec::new();
    let mut i: usize = 0;
    while i < n_cols
        invariant
            i <= n_cols,
            cells@.len() == i,
            forall|c: int| 0 <= c < i ==> #[trigger] cells@[c] is None,
        decreases n_cols - i,
    {
        cells.push(None);
        i += 1;
    }
    let mut k: usize = 0;
    while k < events.len()
        invariant
            k <= events.len(),
            d == events.deep_view(),
            events.len() == cols.len(),
            1 <= n_cols <= 200,
            cells@.len() == n_cols,
            forall|c: int|
                0 <= c < n_cols ==> #[trigger] cells@[c] == grid_cell(
                    d.take(k as int),
                    cols@,
                    id@,
                    c,
                    n_cols as int,
                ),
        decreases events.len() - k,
    {
        let ghost cells0 = cells@;
        assert(d.take(k + 1).drop_last() =~= d.take(k as int));
        assert(d.take(k + 1).last() == events@[k as int]@);
        let e = &events[k];
        if same_text(&e.issue_id, id) {
            let raw: i64 = cols[k];
            let col: usize = if raw < 0 {
                0
            } else if raw as u64 >= n_cols as u64 {
                n_cols - 1
            } else {
                raw as usize
            };
            assert(col == grid_column(raw as int, n_cols as int));
            let next = match cells[col] {
                None => Some(e.action),
                Some(b) => if action_priority(e.action) > action_priority(b) {
                    Some(e.action)
                } else {
                    Some(b)
                },
            };
            cells.set(col, next);
        }
        assert forall|c: int| 0 <= c < n_cols implies #[trigger] cells@[c] == grid_cell(
            d.take(k + 1),
            cols@,
            id@,
            c,
            n_cols as int,
        ) by {
            assert(cells0[c] == grid_cell(d.take(k as int), cols@, id@, c, n_cols as int));
        }
        k += 1;
    }
    assert(d.take(d.len() as int) =~= d);
    cells
}

/// The grid: for each lane one cell for each column. `cols` holds the column of each event,
/// which may lie outside the grid.
pub fn swimlane_grid(events: &Vec<Event>, cols: &Vec<i64>, lanes: &Vec<Lane>, n_cols: usize) -> (r:
    Vec<Vec<Option<EventAction>>>)
    requires
        events.len() == cols.len(),
        1 <= n_cols <= 200,
    ensures
        r@.len() == lanes@.len(),
        forall|row: int|
            0 <= row < lanes@.len() ==> (#[trigger] r@[row])@.len() == n_cols,
        forall|row: int, c: int|
            0 <= row < lanes@.len() && 0 <= c < n_cols ==> (#[trigger] r@[row]@[c]) == grid_cell(
                events.deep_view(),
                cols@,
                lanes.deep_view()[row].id,
                c,
                n_cols as int,
            ),
{
    let mut r: Vec<Vec<Option<EventAction>>> = Vec::new();
    let mut i: usize = 0;
    while i < lanes.len()
        invariant
            i <= lanes.len(),
            events.len() == cols.len(),
            1 <= n_cols <= 200,
            r@.len() == i,
            forall|row: int| 0 <= row < i ==> (#[trigger] r@[row])@.len() == n_cols,
            forall|row: int, c: int|
                0 <= row < i && 0 <= c < n_cols ==> (#[trigger] r@[row]@[c]) == grid_cell(
                    events.deep_view(),
                    cols@,
                    lanes.deep_view()[row].id,
                    c,
                    n_cols as int,
                ),
        decreases lanes.len() - i,
    {
        assert(lanes.deep_view()[i as int] == lanes@[i as int].deep_view());
        let row = fill_lane(events, cols, &lanes[i].id, n_cols);
        r.push(row);
        i += 1;
    }
    r
}

/// A cell is never lighter than an action that fell into it.
pub proof fn cell_shows_the_weightiest(
    events: Seq<EventView>,
    cols: Seq<i64>,
    id: Seq<char>,
    c: int,
    n_cols: int,
    k: int,
)
    requires
        0 <= k < events.len(),
        events[k].issue_id == id,
        grid_column(cols[k] as int, n_cols) == c,
    ensures
        grid_cell(events, cols, id, c, n_cols) is Some,
        action_weight(events[k].action) <= action_weight(
            grid_cell(events, cols, id, c, n_cols)->0,
        ),
    decreases events.len(),
{
    if k < events.len() - 1 {
        assert(events.drop_last()[k] == events[k]);
        cell_shows_the_weightiest(events.drop_last(), cols, id, c, n_cols, k);
    }
}

// -------------------------------------------------------------------------- lines

/// The signs of a lane up to column `c`.
pub open spec fn lane_signs(cells: Seq<Option<EventAction>>) -> Seq<SpanView> {
    Seq::new(
        cells.len(),
        |c: int|
            match cells[c] {
                Some(a) => toned(glyph_tone(a), glyph(a)),
                None => toned(Tone::Dim, "·"@),
            },
    )
}

/// A lane as a line: the label, blanks up to its width, and the signs.
pub open spec fn lane_line(id: Seq<char>, label_w: int, cells: Seq<Option<EventAction>>) -> Seq<
    SpanView,
> {
    let label = shortened(id, label_w);
    seq![
        toned(Tone::Cyan, label),
        plain(
            repeated(
                " "@,
                (if label.len() < label_w {
                    label_w - label.len()
                } else {
                    0
                }) as nat,
            ),
        ),
        plain("  "@),
    ] + lane_signs(cells)
}

pub fn make_lane_line(id: &str, label_w: usize, cells: &Vec<Option<EventAction>>) -> (r: Vec<Span>)
    ensures
        r.deep_view() == lane_line(id@, label_w as int, cells@),
{
    let label = truncate(id, label_w);
    let n: usize = chars_of(&label).len();
    let pad: usize = if n < label_w {
        label_w - n
    } else {
        0
    };
    let mut r = new_line();
    push_span(&mut r, Tone::Cyan, &label);
    push_span(&mut r, Tone::Plain, &repeat(" ", pad));
    push_span(&mut r, Tone::Plain, "  ");
    let ghost head = r.deep_view();
    assert(head =~= seq![
        toned(Tone::Cyan, label@),
        plain(repeated(" "@, pad as nat)),
        plain("  "@),
    ]);
    let ghost signs = lane_signs(cells@);
    let mut c: usize = 0;
    assert(r.deep_view() =~= head + signs.take(0));
    while c < cells.len()
        invariant
            c <= cells.len(),
            signs == lane_signs(cells@),
            r.deep_view() == head + signs.take(c as int),
        decreases cells.len() - c,
    {
        match cells[c] {
            Some(a) => push_span(&mut r, colored_glyph(a), action_glyph(a)),
            None => push_span(&mut r, Tone::Dim, "·"),
        }
        c += 1;
        assert(r.deep_view() =~= head + signs.take(c as int));
    }
    assert(signs.take(signs.len() as int) =~= signs);
    r
}

// --------------------------------------------------------------------------- axis

/// A mark on the time axis: its column, and the date below it.
#[derive(Clone, Debug)]
pub struct Tick {
    pub col: usize,
    pub label: String,
}

pub struct TickView {
    pub col: int,
    pub label: Seq<char>,
}

impl DeepView for Tick {
    type V = TickView;

    open spec fn deep_view(&self) -> TickView {
        TickView { col: self.col as int, label: self.label@ }
    }
}

/// Where a label starts: at its mark, further left where it would run over the edge, and
/// never over what is there already.
pub open spec fn label_start(mark: int, label_bytes: int, line_max: int, written: int) -> int {
    let at = if mark + label_bytes > line_max {
        if line_max > label_bytes {
            line_max - label_bytes
        } else {
            0
        }
    } else {
        mark
    };
    if at < written {
        written
    } else {
        at
    }
}

/// `s` and as much of `label` as there is room for in a line of `line_max` characters.
pub open spec fn with_label(s: Seq<char>, label: Seq<char>, line_max: int) -> Seq<char> {
    if s.len() >= line_max {
        s
    } else if s.len() + label.len() <= line_max {
        s + label
    } else {
        s + label.take(line_max - s.len())
    }
}

/// The line of dates and the line of marks.
pub open spec fn axis_lines(ticks: Seq<TickView>, label_w: int, n_cols: int) -> (
    Seq<char>,
    Seq<char>,
)
    decreases ticks.len(),
{
    let indent = repeated(" "@, (label_w + 2) as nat);
    if ticks.len() == 0 {
        (indent, indent)
    } else {
        let (axis, marks) = axis_lines(ticks.drop_last(), label_w, n_cols);
        let t = ticks.last();
        let line_max = label_w + 2 + n_cols;
        let mark = label_w + 2 + t.col;
        let start = label_start(
            mark,
            encode_utf8(t.label).len() as int,
            line_max,
            axis.len() as int,
        );
        let padded = padded_right(marks, mark);
        (
            with_label(padded_right(axis, start), t.label, line_max),
            if padded.len() < line_max {
                padded.push('│')
            } else {
                padded
            },
        )
    }
}

fn append_label(s: String, label: &str, line_max: usize) -> (r: String)
    ensures
        r@ == with_label(s@, label@, line_max as int),
{
    let v = chars_of(label);
    let mut out = s;
    let n: usize = chars_of(&out).len();
    let ghost start = out@;
    let mut i: usize = 0;
    while i < v.len() && n < line_max && i < line_max - n
        invariant
            i <= v.len(),
            v@ == label@,
            n == start.len(),
            out@ == start + label@.take(i as int),
            n < line_max ==> i <= line_max - n,
            n >= line_max ==> i == 0,
        decreases v.len() - i,
    {
        out.push(v[i]);
        i += 1;
        assert(out@ =~= start + label@.take(i as int));
    }
    proof {
        if start.len() >= line_max {
            assert(out@ =~= start);
        } else if start.len() + label@.len() <= line_max {
            assert(label@.take(i as int) =~= label@);
        } else {
            assert(i == line_max - n);
        }
    }
    out
}

/// Writes the time axis.
pub fn make_axis(ticks: &Vec<Tick>, label_w: usize, n_cols: usize) -> (r: (String, String))
    requires
        label_w <= 20,
        1 <= n_cols <= 200,
        forall|k: int| 0 <= k < ticks@.len() ==> (#[trigger] ticks@[k]).col < n_cols,
    ensures
        (r.0@, r.1@) == axis_lines(ticks.deep_view(), label_w as int, n_cols as int),
{
    let ghost d = ticks.deep_view();
    let mut axis = repeat(" ", label_w + 2);
    let mut marks = repeat(" ", label_w + 2);
    let line_max: usize = label_w + 2 + n_cols;
    let mut k: usize = 0;
    assert(d.take(0) =~= seq![]);
    while k < ticks.len()
        invariant
            k <= ticks.len(),
            d == ticks.deep_view(),
            label_w <= 20,
            1 <= n_cols <= 200,
            line_max == label_w + 2 + n_cols,
            forall|i: int| 0 <= i < ticks@.len() ==> (#[trigger] ticks@[i]).col < n_cols,
            (axis@, marks@) == axis_lines(d.take(k as int), label_w as int, n_cols as int),
        decreases ticks.len() - k,
    {
        assert(d.take(k + 1).drop_last() =~= d.take(k as int));
        assert(d.take(k + 1).last() == ticks@[k as int].deep_view());
        let t = &ticks[k];
        assert(ticks@[k as int].col < n_cols);
        let mark: usize = label_w + 2 + t.col;
        let bytes = t.label.as_str().as_bytes();
        let label_bytes: usize = bytes.len();
        let written: usize = chars_of(&axis).len();
        let at: usize = if label_bytes > line_max || mark > line_max - label_bytes {
            if line_max > label_bytes {
                line_max - label_bytes
            } else {
                0
            }
        } else {
            mark
        };
        let start: usize = if at < written {
            written
        } else {
            at
        };
        axis = append_label(pad_right(&axis, start), &t.label, line_max);
        let padded = pad_right(&marks, mark);
        let width: usize = chars_of(&padded).len();
        marks = padded;
        if width < line_max {
            marks.push('│');
        }
        k += 1;
    }
    assert(d.take(d.len() as int) =~= d);
    (axis, marks)
}

// ------------------------------------------------------------------------- laws

/// The issue has a lane.
pub open spec fn has_lane(list: Seq<LaneView>, id: Seq<char>) -> bool {
    exists|i: int| 0 <= i < list.len() && (#[trigger] list[i]).id == id
}

/// The lane ends with one of the events on its issue.
pub open spec fn ends_with_event(lane: LaneView, events: Seq<EventView>) -> bool {
    exists|k: int|
        0 <= k < events.len() && (#[trigger] events[k]).issue_id == lane.id && events[k].timestamp
            == lane.last
}

/// The lane ends no earlier than each of the events on its issue.
pub open spec fn ends_latest(lane: LaneView, events: Seq<EventView>) -> bool {
    forall|k: int|
        0 <= k < events.len() && (#[trigger] events[k]).issue_id == lane.id
            ==> events[k].timestamp.le(lane.last)
}

/// The lanes are those of the events: no issue has two, each lane is of an issue that an event
/// touches and ends with the latest of its events, and none of the issues is missing.
pub open spec fn are_lanes_of(list: Seq<LaneView>, events: Seq<EventView>) -> bool {
    &&& forall|i: int, j: int|
        0 <= i < j < list.len() ==> (#[trigger] list[i]).id != (#[trigger] list[j]).id
    &&& forall|i: int| 0 <= i < list.len() ==> #[trigger] ends_with_event(list[i], events)
    &&& forall|i: int| 0 <= i < list.len() ==> #[trigger] ends_latest(list[i], events)
    &&& forall|k: int| 0 <= k < events.len() ==> #[trigger] has_lane(list, events[k].issue_id)
}

proof fn lemma_lane_found(list: Seq<LaneView>, id: Seq<char>)
    ensures
        ({
            let k = lane_index(list, id);
            &&& 0 <= k <= list.len()
            &&& k < list.len() ==> list[k].id == id
            &&& k == list.len() ==> forall|j: int|
                0 <= j < list.len() ==> (#[trigger] list[j]).id != id
        }),
    decreases list.len(),
{
    if list.len() > 0 && list[0].id != id {
        let rest = list.drop_first();
        lemma_lane_found(rest, id);
        assert forall|j: int| 1 <= j < list.len() implies #[trigger] list[j] == rest[j - 1] by {}
    }
}

proof fn lemma_last_seen(events: Seq<EventView>)
    ensures
        are_lanes_of(last_seen(events), events),
    decreases events.len(),
{
    if events.len() > 0 {
        let front = events.drop_last();
        let before = last_seen(front);
        let list = last_seen(events);
        let e = events.last();
        let n = lane_index(before, e.issue_id);
        lemma_last_seen(front);
        lemma_lane_found(before, e.issue_id);
        assert(events[events.len() - 1] == e);
        assert forall|k: int| 0 <= k < front.len() implies #[trigger] front[k] == events[k] by {}
        assert forall|i: int, j: int| 0 <= i < j < list.len() implies (#[trigger] list[i]).id != (
        #[trigger] list[j]).id by {
            assert(before[i].id == list[i].id);
            if j < before.len() {
                assert(before[i].id != before[j].id);
            } else {
                assert(before[i].id != e.issue_id);
            }
        }
        assert forall|i: int| 0 <= i < list.len() implies #[trigger] ends_with_event(
            list[i],
            events,
        ) by {
            if i < before.len() && list[i] == before[i] {
                assert(ends_with_event(before[i], front));
                let k = choose|k: int|
                    0 <= k < front.len() && (#[trigger] front[k]).issue_id == before[i].id
                        && front[k].timestamp == before[i].last;
                assert(events[k].issue_id == list[i].id && events[k].timestamp == list[i].last);
            } else {
                assert(events[events.len() - 1].issue_id == list[i].id);
            }
        }
        assert forall|i: int| 0 <= i < list.len() implies #[trigger] ends_latest(
            list[i],
            events,
        ) by {
            assert forall|k: int|
                0 <= k < events.len() && (#[trigger] events[k]).issue_id
                    == list[i].id implies events[k].timestamp.le(list[i].last) by {
                if i < before.len() {
                    assert(ends_latest(before[i], front));
                    assert(before[i].id == list[i].id);
                    if k < front.len() {
                        assert(front[k].timestamp.le(before[i].last));
                    } else if i != n {
                        if n == before.len() {
                            assert(before[i].id != e.issue_id);
                        } else if i < n {
                            assert(before[i].id != before[n].id);
                        } else {
                            assert(before[n].id != before[i].id);
                        }
                    }
                } else if k < front.len() {
                    assert(has_lane(before, front[k].issue_id));
                    let m = choose|m: int|
                        0 <= m < before.len() && (#[trigger] before[m]).id == front[k].issue_id;
                    assert(before[m].id != e.issue_id);
                }
            }
        }
        assert forall|k: int| 0 <= k < events.len() implies #[trigger] has_lane(
            list,
            events[k].issue_id,
        ) by {
            if k < front.len() {
                assert(has_lane(before, front[k].issue_id));
                let i = choose|i: int|
                    0 <= i < before.len() && (#[trigger] before[i]).id == front[k].issue_id;
                assert(list[i].id == before[i].id);
            } else {
                assert(list[n].id == e.issue_id);
            }
        }
    }
}

/// Law: a lane that is shown is that of an issue that an event touches and tells when the
/// latest of these events was. What was touched later comes first, there are at most as many
/// as the limit, and an issue is left out only where the limit is reached by issues that were
/// touched no earlier.
pub proof fn lanes_are_the_latest_issues(events: Seq<EventView>, limit: usize, i: int, j: int, k: int)
    requires
        0 <= k < events.len(),
    ensures
        lanes(events, limit).len() <= limit,
        0 <= i < lanes(events, limit).len() ==> ends_with_event(lanes(events, limit)[i], events)
            && ends_latest(lanes(events, limit)[i], events),
        0 <= i < j < lanes(events, limit).len() ==> lanes(events, limit)[j].last.le(
            lanes(events, limit)[i].last,
        ),
        has_lane(lanes(events, limit), events[k].issue_id) || (lanes(events, limit).len() == limit && (0 <= i
            < lanes(events, limit).len() ==> events[k].timestamp.le(lanes(events, limit)[i].last))),
{
    let seen = last_seen(events);
    let le = |a: LaneView, b: LaneView| lane_le(a, b);
    let sorted = stable_sorted(seen, le);
    let r = lanes(events, limit);
    lemma_last_seen(events);
    assert(crate::sort::is_total(le));
    assert(crate::sort::is_transitive(le));
    crate::sort::sorting_orders(seen, le);
    crate::filter::limit_keeps_the_front(sorted, Some(limit));
    if 0 <= i < r.len() {
        assert(r[i] == sorted[i]);
        assert(sorted.contains(sorted[i]));
        crate::sort::sorting_keeps_each(seen, le, sorted[i]);
        let m = choose|m: int| 0 <= m < seen.len() && seen[m] == sorted[i];
        assert(ends_with_event(seen[m], events) && ends_latest(seen[m], events));
    }
    if 0 <= i < j < r.len() {
        assert(r[j] == sorted[j]);
        assert(le(sorted[i], sorted[j]));
    }
    assert(has_lane(seen, events[k].issue_id));
    let own = choose|own: int|
        0 <= own < seen.len() && (#[trigger] seen[own]).id == events[k].issue_id;
    assert(ends_latest(seen[own], events));
    assert(events[k].timestamp.le(seen[own].last));
    assert(seen.contains(seen[own]));
    crate::sort::sorting_keeps_each(seen, le, seen[own]);
    let at = choose|at: int| 0 <= at < sorted.len() && sorted[at] == seen[own];
    if at < r.len() {
        assert(r[at].id == events[k].issue_id);
    } else {
        assert(r.len() == limit);
        if 0 <= i < r.len() {
            assert(le(sorted[i], sorted[at]));
        }
    }
}

/// Law: what a cell shows is the action of an event of its issue that falls into its column; an
/// empty cell has none.
pub proof fn cells_show_their_own_events(
    events: Seq<EventView>,
    cols: Seq<i64>,
    id: Seq<char>,
    c: int,
    n_cols: int,
)
    requires
        n_cols > 0,
    ensures
        grid_cell(events, cols, id, c, n_cols) is Some ==> exists|k: int|
            0 <= k < events.len() && (#[trigger] events[k]).issue_id == id && events[k].action
                == grid_cell(events, cols, id, c, n_cols)->0 && (cols[k] == c || (c == 0 && cols[k]
                < 0) || (c == n_cols - 1 && cols[k] >= n_cols)),
        (forall|k: int|
            0 <= k < events.len() && 0 <= cols[k] < n_cols && cols[k] == c ==> (
            #[trigger] events[k]).issue_id != id) && 0 < c < n_cols - 1 ==> grid_cell(
            events,
            cols,
            id,
            c,
            n_cols,
        ) is None,
    decreases events.len(),
{
    if events.len() > 0 {
        let front = events.drop_last();
        let last = events.len() - 1;
        cells_show_their_own_events(front, cols, id, c, n_cols);
        assert(events[last] == events.last());
        assert forall|k: int| 0 <= k < front.len() implies #[trigger] front[k] == events[k] by {}
        let before = grid_cell(front, cols, id, c, n_cols);
        let now = grid_cell(events, cols, id, c, n_cols);
        if now is Some {
            if before is Some && now == before {
                let k = choose|k: int|
                    0 <= k < front.len() && (#[trigger] front[k]).issue_id == id && front[k].action
                        == before->0 && (cols[k] == c || (c == 0 && cols[k] < 0) || (c == n_cols
                        - 1 && cols[k] >= n_cols));
                assert(events[k].issue_id == id);
            } else {
                assert(events[last].issue_id == id);
            }
        }
        if (forall|k: int|
            0 <= k < events.len() && 0 <= cols[k] < n_cols && cols[k] == c ==> (
            #[trigger] events[k]).issue_id != id) && 0 < c < n_cols - 1 {
            assert forall|k: int|
                0 <= k < front.len() && 0 <= cols[k] < n_cols && cols[k] == c implies (
            #[trigger] front[k]).issue_id != id by {
                assert(events[k].issue_id != id);
            }
            assert(0 <= cols[last] < n_cols && cols[last] == c ==> events[last].issue_id != id);
        }
    }
}

/// Law: a deletion outweighs everything else in its cell, then a closing, a reopening and a
/// creation; an update gives way to all of them.
pub proof fn weights_run_from_deletion_to_update(a: EventAction)
    ensures
        a != EventAction::Deleted ==> action_weight(a) < action_weight(EventAction::Deleted),
        a != EventAction::Deleted && a != EventAction::Closed ==> action_weight(a) < action_weight(
            EventAction::Closed,
        ),
        a != EventAction::Updated ==> action_weight(EventAction::Updated) < action_weight(a),
        action_weight(EventAction::Created) < action_weight(EventAction::Reopened),
        action_weight(EventAction::DepAdded) == action_weight(EventAction::DepRemoved),
        action_weight(EventAction::DepAdded) < action_weight(EventAction::Created),
{
}

/// Law: the number of columns is what was asked for, within ten and two hundred. Where nothing
/// was asked for, a lane fills a terminal that has room for it.
pub proof fn columns_are_as_asked(n: usize, terminal: int, label_w: int)
    requires
        0 <= label_w,
    ensures
        10 <= n <= 200 ==> column_count(Some(n), terminal, label_w) == n,
        n < 10 ==> column_count(Some(n), terminal, label_w) == 10,
        n > 200 ==> column_count(Some(n), terminal, label_w) == 200,
        20 <= terminal - label_w - 4 <= 200 ==> label_w + 4 + column_count(None, terminal, label_w)
            == terminal,
{
}

/// Law: the labels are as wide as the longest id, within eight and twenty.
pub proof fn labels_fit_the_longest_id(list: Seq<LaneView>, k: int)
    requires
        0 <= k < list.len(),
    ensures
        list[k].id.len() <= longest(list),
        exists|m: int| 0 <= m < list.len() && (#[trigger] list[m]).id.len() == longest(list),
        list[k].id.len() <= 20 ==> list[k].id.len() <= clamped(longest(list) as int, 8, 20),
    decreases list.len(),
{
    let front = list.drop_last();
    if front.len() > 0 {
        labels_fit_the_longest_id(
            front,
            if k < front.len() {
                k
            } else {
                0
            },
        );
        assert forall|m: int| 0 <= m < front.len() implies #[trigger] front[m] == list[m] by {}
        if longest(list) == longest(front) {
            let m = choose|m: int|
                0 <= m < front.len() && (#[trigger] front[m]).id.len() == longest(front);
            assert(list[m].id.len() == longest(list));
        } else {
            assert(list[list.len() - 1].id.len() == longest(list));
        }
    } else {
        assert(longest(front) == 0);
        assert(list[0].id.len() == longest(list));
    }
}

/// Law: a lane has one sign for each of its cells, and the sign is that of the cell.
pub proof fn lanes_show_their_cells(
    id: Seq<char>,
    label_w: int,
    cells: Seq<Option<EventAction>>,
    c: int,
)
    requires
        0 <= c < cells.len(),
        id.len() <= label_w,
    ensures
        lane_line(id, label_w, cells).len() == 3 + cells.len(),
        lane_line(id, label_w, cells)[0].text == id,
        cells[c] is None ==> lane_line(id, label_w, cells)[3 + c].text == "·"@,
        cells[c] == Some(EventAction::Created) ==> lane_line(id, label_w, cells)[3 + c].text
            == "+"@,
        cells[c] == Some(EventAction::Updated) ==> lane_line(id, label_w, cells)[3 + c].text
            == "*"@,
        cells[c] == Some(EventAction::Closed) ==> lane_line(id, label_w, cells)[3 + c].text
            == "■"@,
        cells[c] == Some(EventAction::Deleted) ==> lane_line(id, label_w, cells)[3 + c].text
            == "✕"@,
        cells[c] == Some(EventAction::Reopened) ==> lane_line(id, label_w, cells)[3 + c].text
            == "↑"@,
{
}

/// Law: of the two numbers that the terminal gives, rows and columns, the second is its width.
pub proof fn width_is_the_second_number(rows: Seq<char>, n: nat, default: nat)
    requires
        rows.len() > 0,
        forall|i: int| 0 <= i < rows.len() ==> !crate::text::is_space(#[trigger] rows[i]),
        n <= u16::MAX,
    ensures
        stty_width(rows + seq![' '] + decimal(n), default) == n,
{
    crate::text::lemma_decimal_value(n);
    let d = decimal(n);
    assert(d.len() > 0);
    assert forall|i: int| 0 <= i < d.len() implies !crate::text::is_space(#[trigger] d[i]) by {
        assert(crate::text::is_digit(d[i]));
    }
    crate::text::words_are_parted_by_space(rows, d);
    crate::text::decimal_reads_back(n, u16::MAX as nat);
}

} // verus!
