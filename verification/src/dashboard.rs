//! The dashboard of the interactive view.
use crate::calendar::{
    calendar_rows, first_monday, is_shown_day, monday_of, row_line, Place,
};
use crate::events::{Event, EventAction, EventView};
use crate::panes::{
    action_color, follow_mark, mark_follow, session_name, session_name_display, timeline_tone,
};
use crate::render::{
    action_tone, colored_action, dash_or, field_change_text, first_some, format_change, or_dash,
};
use crate::stats::{event_keys, rank, ranked, user_key, Tally, TallyView};
use crate::style::{
    line_of, line_of_two, new_line, no_lines, plain, push_line, push_lines, push_span, toned, Span,
    SpanView, Tone,
};
use crate::text::{
    byte_len, byte_length, concat, cuts_at, decimal, decimal_text, first_bytes, head_bytes,
    pad_left, pad_right, padded_left, padded_right, repeat, repeated,
};
use crate::time::{calendar_month, formatted, month_of_day};
use crate::timeline::{or_else, SessionSummary, SessionSummaryView};
use crate::tui::App;
use vstd::prelude::*;

verus! {

// ----------------------------------------------------------------------- heatmap

/// The weeks that the dashboard shows.
pub const BOARD_WEEKS: usize = 13;

pub open spec fn month_name(m: u32) -> Seq<char> {
    if m == 1 {
        "Jan "@
    } else if m == 2 {
        "Feb "@
    } else if m == 3 {
        "Mar "@
    } else if m == 4 {
        "Apr "@
    } else if m == 5 {
        "May "@
    } else if m == 6 {
        "Jun "@
    } else if m == 7 {
        "Jul "@
    } else if m == 8 {
        "Aug "@
    } else if m == 9 {
        "Sep "@
    } else if m == 10 {
        "Oct "@
    } else if m == 11 {
        "Nov "@
    } else {
        "Dec "@
    }
}

fn month_word(m: u32) -> (r: &'static str)
    ensures
        r@ == month_name(m),
{
    if m == 1 {
        "Jan "
    } else if m == 2 {
        "Feb "
    } else if m == 3 {
        "Mar "
    } else if m == 4 {
        "Apr "
    } else if m == 5 {
        "May "
    } else if m == 6 {
        "Jun "
    } else if m == 7 {
        "Jul "
    } else if m == 8 {
        "Aug "
    } else if m == 9 {
        "Sep "
    } else if m == 10 {
        "Oct "
    } else if m == 11 {
        "Nov "
    } else {
        "Dec "
    }
}

/// The months over the first `w` weeks, and the month of the last of them.
pub open spec fn board_months(first: int, w: nat) -> (Seq<char>, Option<u32>)
    decreases w,
{
    if w == 0 {
        ("      "@, None)
    } else {
        let (line, last) = board_months(first, (w - 1) as nat);
        let m = month_of_day((first + 7 * (w - 1)) as i64);
        if last == Some(m) {
            (line + "  "@, last)
        } else {
            (line + month_name(m), Some(m))
        }
    }
}

fn make_board_months(first: i64) -> (r: String)
    requires
        is_shown_day(first as int),
        is_shown_day(first + 7 * 13),
    ensures
        r@ == board_months(first as int, 13).0,
{
    let mut line = "      ".to_owned();
    let mut last: Option<u32> = None;
    let mut w: usize = 0;
    while w < 13
        invariant
            w <= 13,
            is_shown_day(first as int),
            is_shown_day(first + 7 * 13),
            (line@, last) == board_months(first as int, w as nat),
        decreases 13 - w,
    {
        let monday: i64 = first + 7 * w as i64;
        assert(is_shown_day(monday as int));
        let m = calendar_month(monday);
        let same = match last {
            Some(l) => l == m,
            None => false,
        };
        if same {
            line.append("  ");
        } else {
            line.append(month_word(m));
            last = Some(m);
        }
        w += 1;
    }
    line
}

/// What the signs of the heatmap mean.
pub open spec fn legend() -> Seq<SpanView> {
    seq![
        toned(Tone::Dim, "  Legend  "@),
        toned(Tone::Dim, "·"@),
        plain(" 0   "@),
        toned(Tone::Green, "▒"@),
        plain(" 1–2   "@),
        toned(Tone::Green, "▓"@),
        plain(" 3–5   "@),
        toned(Tone::BrightGreen, "█"@),
        plain(" 6+"@),
    ]
}

fn make_legend() -> (r: Vec<Span>)
    ensures
        r.deep_view() == legend(),
{
    let mut r = line_of_two(Tone::Dim, "  Legend  ", Tone::Dim, "·");
    push_span(&mut r, Tone::Plain, " 0   ");
    push_span(&mut r, Tone::Green, "▒");
    push_span(&mut r, Tone::Plain, " 1–2   ");
    push_span(&mut r, Tone::Green, "▓");
    push_span(&mut r, Tone::Plain, " 3–5   ");
    push_span(&mut r, Tone::BrightGreen, "█");
    push_span(&mut r, Tone::Plain, " 6+");
    assert(r.deep_view() =~= legend());
    r
}

/// The heatmap: the months, a row for each day of the week, and the legend.
pub open spec fn heatmap_lines(events: Seq<EventView>, today: int) -> Seq<Seq<SpanView>> {
    let first = first_monday(today, BOARD_WEEKS as int);
    seq![seq![toned(Tone::Dim, board_months(first, BOARD_WEEKS as nat).0)]] + Seq::new(
        7,
        |row: int| row_line(Place::Board, events, first, today, row, BOARD_WEEKS as nat),
    ) + seq![seq![], legend()]
}

pub fn make_heatmap(app: &App, today: i64) -> (r: Vec<Vec<Span>>)
    requires
        is_shown_day(today - 7 * 13),
        is_shown_day(today + 7),
    ensures
        r.deep_view() == heatmap_lines(app@.events, today as int),
{
    let first: i64 = monday_of(today, 13);
    let ghost rows = Seq::new(
        7,
        |row: int|
            row_line(
                Place::Board,
                app@.events,
                first as int,
                today as int,
                row,
                BOARD_WEEKS as nat,
            ),
    );
    let mut r = no_lines();
    push_line(&mut r, line_of(Tone::Dim, &make_board_months(first)));
    assert(r.deep_view() =~= seq![
        seq![toned(Tone::Dim, board_months(first as int, BOARD_WEEKS as nat).0)],
    ]);
    let cells = calendar_rows(Place::Board, &app.events, today, 13);
    assert(cells.deep_view() =~= rows);
    push_lines(&mut r, cells);
    let ghost before = r.deep_view();
    push_line(&mut r, new_line());
    push_line(&mut r, make_legend());
    assert(r.deep_view() =~= before + seq![seq![], legend()]);
    r
}

// -------------------------------------------------------------------------- bars

/// The width of a bar in the breakdown.
pub const BAR_WIDTH: usize = 18;

/// How often each action and each user occurs, the most frequent first.
pub struct BoardCounts {
    pub actions: Vec<Tally>,
    pub users: Vec<Tally>,
}

pub fn count_board(events: &Vec<Event>) -> (r: BoardCounts)
    ensures
        ({
            let d = events.deep_view();
            &&& r.actions.deep_view() == ranked(Seq::new(d.len(), |i: int| d[i].action.name()))
            &&& r.users.deep_view() == ranked(Seq::new(d.len(), |i: int| user_key(d[i])))
        }),
{
    let keys = event_keys(events);
    BoardCounts { actions: rank(&keys.actions), users: rank(&keys.users) }
}

/// A bar of which the first part is filled.
pub open spec fn bar_spans(tone: Tone, filled: nat, count: nat) -> Seq<SpanView> {
    let n = if filled < BAR_WIDTH {
        filled
    } else {
        BAR_WIDTH as nat
    };
    seq![
        plain(" "@),
        toned(tone, repeated("█"@, n)),
        plain(repeated(" "@, (BAR_WIDTH - n) as nat)),
        plain(" "@),
        toned(Tone::Yellow, decimal(count)),
    ]
}

fn push_bar(line: &mut Vec<Span>, tone: Tone, filled: usize, count: usize)
    ensures
        final(line).deep_view() == old(line).deep_view() + bar_spans(
            tone,
            filled as nat,
            count as nat,
        ),
{
    let ghost before = line.deep_view();
    let n: usize = if filled < BAR_WIDTH {
        filled
    } else {
        BAR_WIDTH
    };
    push_span(line, Tone::Plain, " ");
    push_span(line, tone, &repeat("█", n));
    push_span(line, Tone::Plain, &repeat(" ", BAR_WIDTH - n));
    push_span(line, Tone::Plain, " ");
    push_span(line, Tone::Yellow, &decimal_text(count as u64));
    assert(line.deep_view() =~= before + bar_spans(tone, filled as nat, count as nat));
}

/// The tone of an action by its name.
pub open spec fn named_tone(name: Seq<char>) -> Tone {
    match EventAction::parsed(name) {
        Some(a) => if a == EventAction::Updated {
            Tone::White
        } else {
            action_tone(a)
        },
        None => Tone::White,
    }
}

fn tone_of_name(name: &str) -> (r: Tone)
    ensures
        r == named_tone(name@),
{
    match EventAction::parse(name) {
        Ok(a) => if a == EventAction::Updated {
            Tone::White
        } else {
            colored_action(a)
        },
        Err(_) => Tone::White,
    }
}

/// A user's name can be cut where it is too long.
pub open spec fn user_cuts(user: Seq<char>) -> bool {
    byte_len(user) > 12 ==> cuts_at(user, 11)
}

/// A user's name in the breakdown.
pub open spec fn user_label(user: Seq<char>) -> Seq<char> {
    if byte_len(user) > 12 {
        head_bytes(user, 11) + "…"@
    } else {
        user
    }
}

pub open spec fn action_bar(t: TallyView, filled: nat) -> Seq<SpanView> {
    seq![toned(named_tone(t.key), "  "@ + padded_right(t.key, 8))] + bar_spans(
        named_tone(t.key),
        filled,
        t.count,
    )
}

pub open spec fn user_bar(t: TallyView, filled: nat) -> Seq<SpanView> {
    seq![toned(Tone::Magenta, "  "@ + padded_right(user_label(t.key), 12))] + bar_spans(
        Tone::Magenta,
        filled,
        t.count,
    )
}

/// How much of the first bars is filled is worked out by the caller.
pub open spec fn action_bars(t: Seq<TallyView>, filled: Seq<usize>) -> Seq<Seq<SpanView>> {
    Seq::new(at_most(t.len(), 8), |i: int| action_bar(t[i], filled[i] as nat))
}

pub open spec fn user_bars(t: Seq<TallyView>, filled: Seq<usize>) -> Seq<Seq<SpanView>> {
    Seq::new(at_most(t.len(), 6), |i: int| user_bar(t[i], filled[i] as nat))
}

pub open spec fn at_most(n: nat, max: nat) -> nat {
    if n < max {
        n
    } else {
        max
    }
}

/// The breakdown by action and by user.
pub open spec fn breakdown_lines(
    actions: Seq<TallyView>,
    users: Seq<TallyView>,
    action_fill: Seq<usize>,
    user_fill: Seq<usize>,
) -> Seq<Seq<SpanView>> {
    seq![seq![toned(Tone::CyanBold, "By action"@)]] + action_bars(actions, action_fill) + seq![
        seq![],
        seq![toned(Tone::CyanBold, "By user"@)],
    ] + user_bars(users, user_fill)
}

/// The users that are shown have names that can be cut.
pub open spec fn users_cut(t: Seq<TallyView>) -> bool {
    forall|i: int| 0 <= i < t.len() && i < 6 ==> user_cuts((#[trigger] t[i]).key)
}

fn make_action_bars(t: &Vec<Tally>, filled: &Vec<usize>) -> (r: Vec<Vec<Span>>)
    requires
        filled@.len() >= at_most(t@.len(), 8),
    ensures
        r.deep_view() == action_bars(t.deep_view(), filled@),
{
    let ghost d = t.deep_view();
    let ghost all = action_bars(d, filled@);
    let mut r = no_lines();
    let mut i: usize = 0;
    assert(r.deep_view() =~= all.take(0));
    while i < t.len() && i < 8
        invariant
            i <= t.len(),
            i <= 8,
            filled@.len() >= at_most(t@.len(), 8),
            d == t.deep_view(),
            all == action_bars(d, filled@),
            r.deep_view() == all.take(i as int),
        decreases t.len() - i,
    {
        assert(d[i as int] == t@[i as int].deep_view());
        let tone = tone_of_name(&t[i].key);
        let mut line = line_of(tone, &concat("  ", &pad_right(&t[i].key, 8)));
        push_bar(&mut line, tone, filled[i], t[i].count);
        push_line(&mut r, line);
        i += 1;
        assert(r.deep_view() =~= all.take(i as int));
    }
    assert(all.take(all.len() as int) =~= all);
    r
}

fn make_user_bars(t: &Vec<Tally>, filled: &Vec<usize>) -> (r: Vec<Vec<Span>>)
    requires
        filled@.len() >= at_most(t@.len(), 6),
        users_cut(t.deep_view()),
    ensures
        r.deep_view() == user_bars(t.deep_view(), filled@),
{
    let ghost d = t.deep_view();
    let ghost all = user_bars(d, filled@);
    let mut r = no_lines();
    let mut i: usize = 0;
    assert(r.deep_view() =~= all.take(0));
    while i < t.len() && i < 6
        invariant
            i <= t.len(),
            i <= 6,
            filled@.len() >= at_most(t@.len(), 6),
            d == t.deep_view(),
            users_cut(d),
            all == user_bars(d, filled@),
            r.deep_view() == all.take(i as int),
        decreases t.len() - i,
    {
        assert(d[i as int] == t@[i as int].deep_view());
        let key = &t[i].key;
        assert(user_cuts(d[i as int].key));
        let label = if byte_length(key) > 12 {
            concat(&first_bytes(key, 11), "…")
        } else {
            key.clone()
        };
        let mut line = line_of(Tone::Magenta, &concat("  ", &pad_right(&label, 12)));
        push_bar(&mut line, Tone::Magenta, filled[i], t[i].count);
        push_line(&mut r, line);
        i += 1;
        assert(r.deep_view() =~= all.take(i as int));
    }
    assert(all.take(all.len() as int) =~= all);
    r
}

pub fn make_breakdown(
    counts: &BoardCounts,
    action_fill: &Vec<usize>,
    user_fill: &Vec<usize>,
) -> (r: Vec<Vec<Span>>)
    requires
        action_fill@.len() >= at_most(counts.actions@.len(), 8),
        user_fill@.len() >= at_most(counts.users@.len(), 6),
        users_cut(counts.users.deep_view()),
    ensures
        r.deep_view() == breakdown_lines(
            counts.actions.deep_view(),
            counts.users.deep_view(),
            action_fill@,
            user_fill@,
        ),
{
    let mut r = no_lines();
    push_line(&mut r, line_of(Tone::CyanBold, "By action"));
    assert(r.deep_view() =~= seq![seq![toned(Tone::CyanBold, "By action"@)]]);
    push_lines(&mut r, make_action_bars(&counts.actions, action_fill));
    let ghost before = r.deep_view();
    push_line(&mut r, new_line());
    push_line(&mut r, line_of(Tone::CyanBold, "By user"));
    assert(r.deep_view() =~= before + seq![seq![], seq![toned(Tone::CyanBold, "By user"@)]]);
    push_lines(&mut r, make_user_bars(&counts.users, user_fill));
    r
}

// ---------------------------------------------------------------------- sessions

/// The width of a session's bar.
pub const SESSION_BAR: usize = 12;

/// The first line of a session on the dashboard.
pub open spec fn board_session_head(s: SessionSummaryView, filled: nat) -> Seq<SpanView> {
    let n = at_most(filled, SESSION_BAR as nat);
    seq![
        toned(Tone::CyanBold, s.session_id),
        plain("  "@),
        toned(Tone::Green, repeated("▰"@, n)),
        toned(Tone::Dim, repeated("▱"@, (SESSION_BAR - n) as nat)),
        plain("  "@),
        toned(Tone::Yellow, padded_left(decimal(s.event_count), 3)),
    ] + (match session_name(s) {
        Some(name) => seq![plain("  "@), toned(Tone::Magenta, name)],
        None => seq![],
    })
}

/// A session on the dashboard.
pub open spec fn board_session(s: SessionSummaryView, filled: nat) -> Seq<Seq<SpanView>> {
    seq![
        board_session_head(s, filled),
        seq![
            plain("  "@),
            toned(
                Tone::Dim,
                or_dash(s.user_id) + " · "@ + or_dash(or_else(s.harness, s.platform)) + " · "@
                    + or_dash(s.model),
            ),
        ],
        seq![
            plain("  "@),
            toned(
                Tone::Dim,
                formatted(s.first_at, "%m-%d %H:%M"@) + " → "@ + formatted(s.last_at, "%H:%M"@)
                    + "  ("@ + decimal(s.issue_ids.len()) + " issues)"@,
            ),
        ],
        seq![],
    ]
}

fn make_board_session(s: &SessionSummary, filled: usize) -> (r: Vec<Vec<Span>>)
    ensures
        r.deep_view() == board_session(s.deep_view(), filled as nat),
{
    let ghost sv = s.deep_view();
    let n: usize = if filled < SESSION_BAR {
        filled
    } else {
        SESSION_BAR
    };
    let mut head = line_of_two(Tone::CyanBold, &s.session_id, Tone::Plain, "  ");
    push_span(&mut head, Tone::Green, &repeat("▰", n));
    push_span(&mut head, Tone::Dim, &repeat("▱", SESSION_BAR - n));
    push_span(&mut head, Tone::Plain, "  ");
    push_span(&mut head, Tone::Yellow, &pad_left(&decimal_text(s.event_count as u64), 3));
    match session_name_display(s) {
        Some(name) => {
            push_span(&mut head, Tone::Plain, "  ");
            push_span(&mut head, Tone::Magenta, &name);
        },
        None => {},
    }
    assert(head.deep_view() =~= board_session_head(sv, filled as nat));
    let mut r = no_lines();
    push_line(&mut r, head);
    let mut actor = concat(&dash_or(&s.user_id), " · ");
    actor.append(&dash_or(first_some(&s.harness, &s.platform)));
    actor.append(" · ");
    actor.append(&dash_or(&s.model));
    push_line(&mut r, line_of_two(Tone::Plain, "  ", Tone::Dim, &actor));
    let mut range = s.first_at.format("%m-%d %H:%M");
    range.append(" → ");
    range.append(&s.last_at.format("%H:%M"));
    range.append("  (");
    range.append(&decimal_text(s.issue_ids.len() as u64));
    range.append(" issues)");
    push_line(&mut r, line_of_two(Tone::Plain, "  ", Tone::Dim, &range));
    push_line(&mut r, new_line());
    assert(r.deep_view() =~= board_session(sv, filled as nat));
    r
}

/// The first `n` sessions.
pub open spec fn board_sessions(s: Seq<SessionSummaryView>, filled: Seq<usize>, n: nat) -> Seq<
    Seq<SpanView>,
>
    decreases n,
{
    if n == 0 {
        seq![]
    } else {
        board_sessions(s, filled, (n - 1) as nat) + board_session(s[n - 1], filled[n - 1] as nat)
    }
}

/// The sessions on the dashboard: the first eight, or a word where there is none.
pub open spec fn board_session_lines(s: Seq<SessionSummaryView>, filled: Seq<usize>) -> Seq<
    Seq<SpanView>,
> {
    if s.len() == 0 {
        seq![seq![toned(Tone::Dim, "No sessions yet."@)]]
    } else {
        board_sessions(s, filled, at_most(s.len(), 8))
    }
}

pub fn make_board_sessions(app: &App, filled: &Vec<usize>) -> (r: Vec<Vec<Span>>)
    requires
        filled@.len() >= at_most(app@.sessions.len(), 8),
    ensures
        r.deep_view() == board_session_lines(app@.sessions, filled@),
{
    let ghost d = app@.sessions;
    let mut r = no_lines();
    assert(d.len() == app.sessions@.len());
    if app.sessions.len() == 0 {
        push_line(&mut r, line_of(Tone::Dim, "No sessions yet."));
        assert(r.deep_view() =~= board_session_lines(d, filled@));
        return r;
    }
    let mut i: usize = 0;
    while i < app.sessions.len() && i < 8
        invariant
            i <= app.sessions.len(),
            i <= 8,
            d == app@.sessions,
            d.len() == app.sessions@.len(),
            filled@.len() >= at_most(d.len(), 8),
            r.deep_view() == board_sessions(d, filled@, i as nat),
        decreases app.sessions.len() - i,
    {
        assert(d[i as int] == app.sessions@[i as int].deep_view());
        push_lines(&mut r, make_board_session(&app.sessions[i], filled[i]));
        i += 1;
    }
    r
}

// -------------------------------------------------------------------------- tail

/// An event at the end of the log.
pub open spec fn tail_line(e: EventView) -> Seq<SpanView> {
    seq![
        toned(Tone::Dim, formatted(e.timestamp, "%m-%d %H:%M:%S"@)),
        plain("  "@),
        toned(timeline_tone(e.action), padded_right(e.action.name(), 9)),
        plain(" "@),
        toned(Tone::Cyan, e.issue_id),
    ] + (if e.changes.len() > 0 {
        seq![plain("  "@), toned(Tone::Dim, field_change_text(e.changes[0]))]
    } else {
        match e.note {
            Some(n) => seq![plain("  "@), toned(Tone::Dim, n)],
            None => seq![],
        }
    })
}

fn make_tail_line(e: &Event) -> (r: Vec<Span>)
    ensures
        r.deep_view() == tail_line(e@),
{
    let mut r = line_of_two(
        Tone::Dim,
        &e.timestamp.format("%m-%d %H:%M:%S"),
        Tone::Plain,
        "  ",
    );
    push_span(&mut r, action_color(e.action), &pad_right(e.action.text(), 9));
    push_span(&mut r, Tone::Plain, " ");
    push_span(&mut r, Tone::Cyan, &e.issue_id);
    assert(e.changes@.len() == e@.changes.len());
    if e.changes.len() > 0 {
        assert(e@.changes[0] == e.changes@[0].deep_view());
        push_span(&mut r, Tone::Plain, "  ");
        push_span(&mut r, Tone::Dim, &format_change(&e.changes[0]));
    } else {
        match &e.note {
            Some(n) => {
                push_span(&mut r, Tone::Plain, "  ");
                push_span(&mut r, Tone::Dim, n);
            },
            None => {},
        }
    }
    assert(r.deep_view() =~= tail_line(e@));
    r
}

/// How many events fit into a frame of some height: at least one.
pub open spec fn tail_size(height: int) -> int {
    if height > 3 {
        height - 2
    } else {
        1
    }
}

/// The last events of the log, the newest at the bottom.
pub open spec fn tail_lines(events: Seq<EventView>, height: int) -> Seq<Seq<SpanView>> {
    if events.len() == 0 {
        seq![seq![toned(Tone::Dim, "No events yet."@)]]
    } else {
        let n = if events.len() < tail_size(height) {
            events.len() as int
        } else {
            tail_size(height)
        };
        Seq::new(n as nat, |i: int| tail_line(events[events.len() - n + i]))
    }
}

pub fn make_tail(app: &App, height: u16) -> (r: Vec<Vec<Span>>)
    ensures
        r.deep_view() == tail_lines(app@.events, height as int),
{
    let ghost d = app@.events;
    let ghost all = tail_lines(d, height as int);
    let total: usize = app.events.len();
    assert(d.len() == total);
    let mut r = no_lines();
    if total == 0 {
        push_line(&mut r, line_of(Tone::Dim, "No events yet."));
        assert(r.deep_view() =~= all);
        return r;
    }
    let fits: usize = if height > 3 {
        height as usize - 2
    } else {
        1
    };
    let n: usize = if total < fits {
        total
    } else {
        fits
    };
    let mut i: usize = 0;
    assert(r.deep_view() =~= all.take(0));
    while i < n
        invariant
            i <= n <= total,
            total == app.events@.len(),
            d == app@.events,
            d.len() == total,
            all == Seq::new(n as nat, |i: int| tail_line(d[d.len() - n + i])),
            r.deep_view() == all.take(i as int),
        decreases n - i,
    {
        assert(d[total - n + i] == app.events@[total - n + i]@);
        push_line(&mut r, make_tail_line(&app.events[total - n + i]));
        i += 1;
        assert(r.deep_view() =~= all.take(i as int));
    }
    assert(all.take(all.len() as int) =~= all);
    r
}

/// The title of the dashboard.
pub fn dashboard_title(app: &App) -> (r: String)
    ensures
        r@ == follow_mark("Dashboard ("@ + decimal(app@.events.len()) + " events)"@, app@.follow),
{
    assert(app.events@.len() == app@.events.len());
    let mut t = concat("Dashboard (", &decimal_text(app.events.len() as u64));
    t.append(" events)");
    mark_follow(&t, app.follow)
}

// ------------------------------------------------------------------------- laws

/// Law: the tail of the log ends with the newest events, one line each, the newest at the
/// bottom. A line tells what was done and on which issue.
pub proof fn tail_ends_with_the_newest(events: Seq<EventView>, height: int, back: int)
    requires
        0 <= back < events.len(),
        back < height - 2,
        height > 3,
    ensures
        ({
            let r = tail_lines(events, height);
            let e = events[events.len() - 1 - back];
            &&& r.len() == at_most(events.len(), (height - 2) as nat)
            &&& r[r.len() - 1 - back][4].text == e.issue_id
            &&& r[r.len() - 1 - back][2].text == padded_right(e.action.name(), 9)
            &&& r[r.len() - 1 - back][0].text == formatted(e.timestamp, "%m-%d %H:%M:%S"@)
        }),
{
}

proof fn lemma_board_session(s: Seq<SessionSummaryView>, filled: Seq<usize>, n: nat, k: int)
    requires
        0 <= k < n <= s.len(),
    ensures
        exists|l: Seq<SpanView>| #[trigger]
            board_sessions(s, filled, n).contains(l) && l.len() >= 6 && l[0].text == s[k].session_id
                && l[5].text == padded_left(decimal(s[k].event_count), 3),
    decreases n,
{
    let before = board_sessions(s, filled, (n - 1) as nat);
    let more = board_session(s[n - 1], filled[n - 1] as nat);
    let all = board_sessions(s, filled, n);
    if k < n - 1 {
        lemma_board_session(s, filled, (n - 1) as nat, k);
        let l = choose|l: Seq<SpanView>| #[trigger]
            before.contains(l) && l.len() >= 6 && l[0].text == s[k].session_id && l[5].text
                == padded_left(decimal(s[k].event_count), 3);
        crate::filter::chained_lists_hold_both(before, more, l);
        assert(all.contains(l));
    } else {
        let l = more[0];
        assert(more.contains(l));
        crate::filter::chained_lists_hold_both(before, more, l);
        assert(all.contains(l));
    }
}

/// Law: each of the first eight sessions is on the dashboard with the number of its events.
pub proof fn board_shows_the_first_sessions(
    s: Seq<SessionSummaryView>,
    filled: Seq<usize>,
    k: int,
)
    requires
        0 <= k < s.len(),
        k < 8,
    ensures
        exists|l: Seq<SpanView>| #[trigger]
            board_session_lines(s, filled).contains(l) && l.len() >= 6 && l[0].text
                == s[k].session_id && l[5].text == padded_left(decimal(s[k].event_count), 3),
{
    let n = at_most(s.len(), 8);
    lemma_board_session(s, filled, n, k);
    let l = choose|l: Seq<SpanView>| #[trigger]
        board_sessions(s, filled, n).contains(l) && l.len() >= 6 && l[0].text == s[k].session_id
            && l[5].text == padded_left(decimal(s[k].event_count), 3);
    assert(board_session_lines(s, filled).contains(l));
}

/// Law: the breakdown of the dashboard has a bar for each of the first eight actions and of the
/// first six users.
pub proof fn board_shows_the_most_frequent(
    actions: Seq<TallyView>,
    users: Seq<TallyView>,
    action_fill: Seq<usize>,
    user_fill: Seq<usize>,
    k: int,
)
    requires
        0 <= k,
    ensures
        ({
            let r = breakdown_lines(actions, users, action_fill, user_fill);
            let a = at_most(actions.len(), 8);
            &&& r.len() == 3 + a + at_most(users.len(), 6)
            &&& k < actions.len() && k < 8 ==> r[1 + k][0].text == "  "@ + padded_right(
                actions[k].key,
                8,
            )
            &&& k < users.len() && k < 6 && crate::text::byte_len(users[k].key) <= 12 ==> r[3 + a
                + k][0].text == "  "@ + padded_right(users[k].key, 12)
        }),
{
}

/// Law: the heatmap has a row for each day of the week, and shows thirteen weeks up to today.
pub proof fn heatmap_shows_thirteen_weeks(events: Seq<EventView>, today: int, row: int)
    requires
        0 <= row < 7,
    ensures
        heatmap_lines(events, today).len() == 10,
        heatmap_lines(events, today)[1 + row] == row_line(
            Place::Board,
            events,
            first_monday(today, 13),
            today,
            row,
            13,
        ),
{
}

} // verus!
