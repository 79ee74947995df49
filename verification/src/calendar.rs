//! The calendar of activity: one column for each week, one row for each day of it.
use crate::error::{Error, ErrorView};
use crate::events::{Event, EventView};
use crate::style::{new_line, plain, push_span, toned, Span, SpanView, Tone};
use crate::text::{pad_right, padded_right};
use crate::time::{
    calendar_day, calendar_month, day_of_month, formatted, month_of_day, Timestamp, MAX_SECS,
    MIN_SECS, SECS_PER_DAY,
};
use vstd::prelude::*;
use vstd::utf8::encode_utf8;

verus! {

/// The place of a day in its week; Monday is 0.
pub open spec fn weekday(day: int) -> int {
    (day + 3) % 7
}

/// The first Monday that the calendar shows.
pub open spec fn first_monday(today: int, weeks: int) -> int {
    today - weekday(today) - 7 * (weeks - 1)
}

/// Checks the number of weeks.
pub fn check_weeks(weeks: usize) -> (r: Result<(), Error>)
    ensures
        1 <= weeks <= 104 ==> r is Ok,
        !(1 <= weeks <= 104) ==> r is Err && r->Err_0@ == ErrorView::Other(
            "--weeks must be between 1 and 104"@,
        ),
{
    if weeks == 0 || weeks > 104 {
        Err(Error::Other("--weeks must be between 1 and 104".to_owned()))
    } else {
        Ok(())
    }
}

/// The events on one day.
pub open spec fn events_on(events: Seq<EventView>, day: int) -> nat
    decreases events.len(),
{
    if events.len() == 0 {
        0
    } else {
        events_on(events.drop_last(), day) + if events.last().timestamp.day_number() == day {
            1nat
        } else {
            0nat
        }
    }
}

/// The number of events on a day that has some.
#[derive(Clone, Copy, Debug, PartialEq, Eq, Structural)]
pub struct DayCount {
    pub day: i64,
    pub count: usize,
}

/// The days are in order, none twice.
pub open spec fn in_order(days: Seq<DayCount>) -> bool {
    forall|i: int, j: int|
        0 <= i < j < days.len() ==> (#[trigger] days[i]).day < (#[trigger] days[j]).day
}

/// The days from `first` on that have events, each with their number.
pub open spec fn counts_days(days: Seq<DayCount>, events: Seq<EventView>, first: int) -> bool {
    &&& in_order(days)
    &&& forall|k: int|
        0 <= k < days.len() ==> (#[trigger] days[k]).day >= first && days[k].count as nat
            == events_on(events, days[k].day as int) && days[k].count > 0
    &&& forall|d: int|
        d >= first && #[trigger] events_on(events, d) > 0 ==> exists|k: int|
            0 <= k < days.len() && (#[trigger] days[k]).day == d
}

/// The first place whose day is not before `day`.
fn find_day(days: &Vec<DayCount>, day: i64) -> (r: usize)
    requires
        in_order(days@),
    ensures
        r <= days.len(),
        forall|k: int| 0 <= k < r ==> (#[trigger] days@[k]).day < day,
        forall|k: int| r <= k < days.len() ==> (#[trigger] days@[k]).day >= day,
{
    let mut i: usize = 0;
    while i < days.len() && days[i].day < day
        invariant
            i <= days.len(),
            in_order(days@),
            forall|k: int| 0 <= k < i ==> (#[trigger] days@[k]).day < day,
        decreases days.len() - i,
    {
        i += 1;
    }
    proof {
        assert forall|k: int| i <= k < days.len() implies (#[trigger] days@[k]).day >= day by {
            if k > i {
                assert(days@[i as int].day < days@[k].day);
            }
        }
    }
    i
}

proof fn lemma_events_on_bound(events: Seq<EventView>, day: int)
    ensures
        events_on(events, day) <= events.len(),
    decreases events.len(),
{
    if events.len() > 0 {
        lemma_events_on_bound(events.drop_last(), day);
    }
}

/// Counts the events of each day from `first` on.
pub fn count_days(events: &Vec<Event>, first: i64) -> (r: Vec<DayCount>)
    ensures
        counts_days(r@, events.deep_view(), first as int),
{
    let ghost d = events.deep_view();
    let mut days: Vec<DayCount> = Vec::new();
    let mut i: usize = 0;
    assert(d.take(0) =~= seq![]);
    while i < events.len()
        invariant
            i <= events.len(),
            d == events.deep_view(),
            counts_days(days@, d.take(i as int), first as int),
        decreases events.len() - i,
    {
        let ghost days0 = days@;
        let ghost before = d.take(i as int);
        let ghost now = d.take(i + 1);
        assert(now.drop_last() =~= before);
        assert(now.last() == events@[i as int]@);
        let day: i64 = events[i].timestamp.day();
        if day >= first {
            let p = find_day(&days, day);
            if p < days.len() && days[p].day == day {
                proof {
                    lemma_events_on_bound(before, day as int);
                    assert(days0[p as int].count as nat == events_on(before, day as int));
                }
                let count: usize = days[p].count;
                days.set(p, DayCount { day, count: count + 1 });
                proof {
                    assert forall|a: int, b: int| 0 <= a < b < days@.len() implies (
                    #[trigger] days@[a]).day < (#[trigger] days@[b]).day by {
                        assert(days0[a].day < days0[b].day);
                    }
                    assert forall|k: int| 0 <= k < days@.len() implies (#[trigger] days@[k]).day
                        >= first && days@[k].count as nat == events_on(now, days@[k].day as int)
                        && days@[k].count > 0 by {
                        assert(days0[k].day >= first);
                        if k < p {
                            assert(days0[k].day < days0[p as int].day);
                        } else if k > p {
                            assert(days0[p as int].day < days0[k].day);
                        }
                    }
                    assert forall|x: int| x >= first && #[trigger] events_on(now, x) > 0 implies exists|
                        k: int,
                    |
                        0 <= k < days@.len() && (#[trigger] days@[k]).day == x by {
                        if x == day {
                            assert(days@[p as int].day == x);
                        } else {
                            assert(events_on(before, x) > 0);
                            let k = choose|k: int|
                                0 <= k < days0.len() && (#[trigger] days0[k]).day == x;
                            assert(days@[k].day == x);
                        }
                    }
                }
            } else {
                days.insert(p, DayCount { day, count: 1 });
                proof {
                    assert(events_on(before, day as int) == 0) by {
                        if events_on(before, day as int) > 0 {
                            let k = choose|k: int|
                                0 <= k < days0.len() && (#[trigger] days0[k]).day == day;
                            if k < p {
                            } else if k > p {
                                assert(days0[p as int].day < days0[k].day);
                            }
                        }
                    }
                    assert forall|a: int, b: int| 0 <= a < b < days@.len() implies (
                    #[trigger] days@[a]).day < (#[trigger] days@[b]).day by {
                        let x = if a < p {
                            a
                        } else {
                            a - 1
                        };
                        let y = if b < p {
                            b
                        } else {
                            b - 1
                        };
                        if a == p {
                            assert(days@[b] == days0[y]);
                            assert(days0[y].day >= day);
                            assert(days0[p as int].day != day);
                            if y > p {
                                assert(days0[p as int].day < days0[y].day);
                            }
                        } else if b == p {
                            assert(days@[a] == days0[x]);
                        } else {
                            assert(days@[a] == days0[x]);
                            assert(days@[b] == days0[y]);
                            assert(days0[x].day < days0[y].day);
                        }
                    }
                    assert forall|k: int| 0 <= k < days@.len() implies (#[trigger] days@[k]).day
                        >= first && days@[k].count as nat == events_on(now, days@[k].day as int)
                        && days@[k].count > 0 by {
                        if k != p {
                            let x = if k < p {
                                k
                            } else {
                                k - 1
                            };
                            assert(days@[k] == days0[x]);
                            assert(days0[x].day >= first);
                            if k < p {
                                assert(days@[k].day < days@[p as int].day);
                            } else {
                                assert(days@[p as int].day < days@[k].day);
                            }
                        }
                    }
                    assert forall|x: int| x >= first && #[trigger] events_on(now, x) > 0 implies exists|
                        k: int,
                    |
                        0 <= k < days@.len() && (#[trigger] days@[k]).day == x by {
                        if x == day {
                            assert(days@[p as int].day == x);
                        } else {
                            assert(events_on(before, x) > 0);
                            let k = choose|k: int|
                                0 <= k < days0.len() && (#[trigger] days0[k]).day == x;
                            if k < p {
                                assert(days@[k] == days0[k]);
                            } else {
                                assert(days@[k + 1] == days0[k]);
                            }
                        }
                    }
                }
            }
        } else {
            proof {
                assert forall|k: int| 0 <= k < days@.len() implies (#[trigger] days@[k]).day
                    >= first && days@[k].count as nat == events_on(now, days@[k].day as int)
                    && days@[k].count > 0 by {
                    assert(days0[k].day >= first);
                }
                assert forall|x: int| x >= first && #[trigger] events_on(now, x) > 0 implies exists|
                    k: int,
                |
                    0 <= k < days@.len() && (#[trigger] days@[k]).day == x by {
                    assert(events_on(before, x) > 0);
                }
            }
        }
        i += 1;
    }
    assert(d.take(d.len() as int) =~= d);
    days
}

/// The number of events on a day, found in the counts.
fn count_on(days: &Vec<DayCount>, day: i64, Ghost(events): Ghost<Seq<EventView>>, Ghost(
    first,
): Ghost<int>) -> (r: usize)
    requires
        counts_days(days@, events, first),
        day >= first,
    ensures
        r as nat == events_on(events, day as int),
{
    let mut i: usize = 0;
    while i < days.len()
        invariant
            i <= days.len(),
            counts_days(days@, events, first),
            forall|k: int| 0 <= k < i ==> (#[trigger] days@[k]).day != day,
        decreases days.len() - i,
    {
        if days[i].day == day {
            return days[i].count;
        }
        i += 1;
    }
    proof {
        if events_on(events, day as int) > 0 {
            let k = choose|k: int| 0 <= k < days@.len() && (#[trigger] days@[k]).day == day;
            assert(days@[k].day != day);
        }
    }
    0
}

// ------------------------------------------------------------------------ cells

/// Where a calendar is shown.
#[derive(Clone, Copy, Debug, PartialEq, Eq, Structural)]
pub enum Place {
    /// In the output of a command.
    Report,
    /// On the dashboard.
    Board,
}

/// How a number of events is shown.
pub open spec fn cell(place: Place, count: nat) -> SpanView {
    let board = place == Place::Board;
    if count == 0 {
        toned(
            if board {
                Tone::Dark
            } else {
                Tone::Dim
            },
            "·"@,
        )
    } else if count <= 2 {
        toned(Tone::Green, "▒"@)
    } else if count <= 5 {
        toned(
            if board {
                Tone::Green
            } else {
                Tone::BrightGreen
            },
            "▓"@,
        )
    } else {
        toned(
            if board {
                Tone::BrightGreen
            } else {
                Tone::BrightCyan
            },
            "█"@,
        )
    }
}

fn push_cell(line: &mut Vec<Span>, place: Place, count: usize)
    ensures
        final(line).deep_view() == old(line).deep_view().push(cell(place, count as nat)),
{
    let board = place == Place::Board;
    if count == 0 {
        push_span(
            line,
            if board {
                Tone::Dark
            } else {
                Tone::Dim
            },
            "·",
        );
    } else if count <= 2 {
        push_span(line, Tone::Green, "▒");
    } else if count <= 5 {
        push_span(
            line,
            if board {
                Tone::Green
            } else {
                Tone::BrightGreen
            },
            "▓",
        );
    } else {
        push_span(
            line,
            if board {
                Tone::BrightGreen
            } else {
                Tone::BrightCyan
            },
            "█",
        );
    }
}

/// The name of a day of the week; Monday is 0.
pub open spec fn weekday_name(row: int) -> Seq<char> {
    if row == 0 {
        "Mon"@
    } else if row == 1 {
        "Tue"@
    } else if row == 2 {
        "Wed"@
    } else if row == 3 {
        "Thu"@
    } else if row == 4 {
        "Fri"@
    } else if row == 5 {
        "Sat"@
    } else {
        "Sun"@
    }
}

fn weekday_text(row: usize) -> (r: &'static str)
    ensures
        r@ == weekday_name(row as int),
{
    if row == 0 {
        "Mon"
    } else if row == 1 {
        "Tue"
    } else if row == 2 {
        "Wed"
    } else if row == 3 {
        "Thu"
    } else if row == 4 {
        "Fri"
    } else if row == 5 {
        "Sat"
    } else {
        "Sun"
    }
}

/// The cells of a row in the first `w` weeks. Days after today are left blank.
pub open spec fn row_cells(
    place: Place,
    events: Seq<EventView>,
    first: int,
    today: int,
    row: int,
    w: nat,
) -> Seq<SpanView>
    decreases w,
{
    if w == 0 {
        seq![]
    } else {
        let before = row_cells(place, events, first, today, row, (w - 1) as nat);
        let day = first + 7 * (w - 1) + row;
        if day > today {
            before.push(plain("  "@))
        } else {
            before.push(cell(place, events_on(events, day))).push(plain(" "@))
        }
    }
}

/// What stands before the cells of a row.
pub open spec fn row_head(place: Place, row: int) -> SpanView {
    match place {
        Place::Report => plain(padded_right(weekday_name(row), 6)),
        Place::Board => toned(Tone::Dim, padded_right(weekday_name(row), 4) + " "@),
    }
}

/// A row of the calendar.
pub open spec fn row_line(
    place: Place,
    events: Seq<EventView>,
    first: int,
    today: int,
    row: int,
    weeks: nat,
) -> Seq<SpanView> {
    seq![row_head(place, row)] + row_cells(place, events, first, today, row, weeks)
}

/// The days that a calendar shows are days that chrono can name.
pub open spec fn is_shown_day(day: int) -> bool {
    MIN_SECS <= day * SECS_PER_DAY <= MAX_SECS
}

fn make_row(
    place: Place,
    days: &Vec<DayCount>,
    first: i64,
    today: i64,
    row: usize,
    weeks: usize,
    Ghost(events): Ghost<Seq<EventView>>,
) -> (r: Vec<Span>)
    requires
        counts_days(days@, events, first as int),
        row < 7,
        weeks <= 104,
        is_shown_day(first as int),
        is_shown_day(today as int),
    ensures
        r.deep_view() == row_line(place, events, first as int, today as int, row as int, weeks as nat),
{
    let mut r = new_line();
    match place {
        Place::Report => push_span(&mut r, Tone::Plain, &pad_right(weekday_text(row), 6)),
        Place::Board => {
            let mut t = pad_right(weekday_text(row), 4);
            t.append(" ");
            push_span(&mut r, Tone::Dim, &t);
        },
    }
    let ghost head = r.deep_view();
    assert(head =~= seq![row_head(place, row as int)]);
    let mut w: usize = 0;
    assert(r.deep_view() =~= head + row_cells(place, events, first as int, today as int, row as int, 0));
    while w < weeks
        invariant
            w <= weeks,
            weeks <= 104,
            row < 7,
            is_shown_day(first as int),
            counts_days(days@, events, first as int),
            r.deep_view() == head + row_cells(
                place,
                events,
                first as int,
                today as int,
                row as int,
                w as nat,
            ),
        decreases weeks - w,
    {
        let ghost before = row_cells(place, events, first as int, today as int, row as int, w as nat);
        let day: i64 = first + 7 * w as i64 + row as i64;
        if day > today {
            push_span(&mut r, Tone::Plain, "  ");
            assert(r.deep_view() =~= head + before.push(plain("  "@)));
        } else {
            let count = count_on(days, day, Ghost(events), Ghost(first as int));
            push_cell(&mut r, place, count);
            push_span(&mut r, Tone::Plain, " ");
            assert(r.deep_view() =~= head + before.push(cell(place, count as nat)).push(plain(" "@)));
        }
        w += 1;
    }
    r
}

// ----------------------------------------------------------------------- months

/// A label of two columns each: one blank is added where its length is odd.
pub open spec fn even_label(label: Seq<char>) -> Seq<char> {
    if encode_utf8(label).len() % 2 == 0 {
        label
    } else {
        label + " "@
    }
}

/// The line of months over the first `w` weeks, and the month that was named last. A month
/// is named over the column of its first Monday.
pub open spec fn months(first: int, w: nat) -> (Seq<char>, u32)
    decreases w,
{
    if w == 0 {
        ("      "@, 0)
    } else {
        let (line, last) = months(first, (w - 1) as nat);
        let monday = (first + 7 * (w - 1)) as i64;
        if month_of_day(monday) != last && day_of_month(monday) <= 7 {
            (
                line + even_label(
                    formatted(Timestamp::instant_at(monday * SECS_PER_DAY), "%b"@),
                ),
                month_of_day(monday),
            )
        } else {
            (line + "  "@, last)
        }
    }
}

/// The line of months over the calendar.
pub fn month_line(first: i64, weeks: usize) -> (r: String)
    requires
        weeks <= 104,
        is_shown_day(first as int),
        weeks > 0 ==> is_shown_day(first + 7 * (weeks - 1)),
    ensures
        r@ == months(first as int, weeks as nat).0,
{
    let mut line = "      ".to_owned();
    let mut last: u32 = 0;
    let mut w: usize = 0;
    while w < weeks
        invariant
            w <= weeks,
            weeks <= 104,
            is_shown_day(first as int),
            weeks > 0 ==> is_shown_day(first + 7 * (weeks - 1)),
            (line@, last) == months(first as int, w as nat),
        decreases weeks - w,
    {
        let monday: i64 = first + 7 * w as i64;
        assert(is_shown_day(monday as int));
        let month = calendar_month(monday);
        if month != last && calendar_day(monday) <= 7 {
            let at = Timestamp::at_second(monday * 86_400);
            let label = at.format("%b");
            let bytes = label.as_str().as_bytes();
            let even = bytes.len() % 2 == 0;
            line.append(&label);
            if !even {
                line.append(" ");
                assert(line@ =~= months(first as int, w as nat).0 + even_label(label@));
            }
            last = month;
        } else {
            line.append("  ");
        }
        w += 1;
    }
    line
}

/// The rows of the calendar from Monday to Sunday. `today` is the day in the user's time
/// zone.
pub fn calendar_rows(place: Place, events: &Vec<Event>, today: i64, weeks: usize) -> (r: Vec<
    Vec<Span>,
>)
    requires
        1 <= weeks <= 104,
        is_shown_day(today as int),
        is_shown_day(first_monday(today as int, weeks as int)),
    ensures
        r@.len() == 7,
        forall|row: int|
            0 <= row < 7 ==> (#[trigger] r@[row]).deep_view() == row_line(
                place,
                events.deep_view(),
                first_monday(today as int, weeks as int),
                today as int,
                row,
                weeks as nat,
            ),
{
    let first: i64 = monday_of(today, weeks);
    let days = count_days(events, first);
    let mut r: Vec<Vec<Span>> = Vec::new();
    let mut row: usize = 0;
    while row < 7
        invariant
            row <= 7,
            1 <= weeks <= 104,
            is_shown_day(today as int),
            is_shown_day(first as int),
            first == first_monday(today as int, weeks as int),
            counts_days(days@, events.deep_view(), first as int),
            r@.len() == row,
            forall|k: int|
                0 <= k < row ==> (#[trigger] r@[k]).deep_view() == row_line(
                    place,
                    events.deep_view(),
                    first as int,
                    today as int,
                    k,
                    weeks as nat,
                ),
        decreases 7 - row,
    {
        let line = make_row(place, &days, first, today, row, weeks, Ghost(events.deep_view()));
        r.push(line);
        row += 1;
    }
    r
}

/// The first Monday that the calendar shows.
pub fn monday_of(today: i64, weeks: usize) -> (r: i64)
    requires
        1 <= weeks <= 104,
        is_shown_day(today as int),
    ensures
        r == first_monday(today as int, weeks as int),
{
    let shifted: i64 = today + 3 + 7 * 20_000_000;
    let day: i64 = shifted % 7;
    assert(day == weekday(today as int));
    today - day - 7 * (weeks as i64 - 1)
}

/// The calendar ends with the week of today and begins on a Monday.
pub proof fn calendar_covers_today(today: int, weeks: int)
    requires
        weeks >= 1,
    ensures
        weekday(first_monday(today, weeks)) == 0,
        first_monday(today, weeks) + 7 * (weeks - 1) <= today < first_monday(today, weeks) + 7
            * weeks,
{
}

/// Law: the events of a day are those between its midnight and the next.
pub proof fn days_hold_their_own_events(events: Seq<EventView>, day: int)
    ensures
        events_on(events, day) == events.filter(
            |e: EventView|
                day * 86_400 <= e.timestamp.spec_secs() < (day + 1) * 86_400,
        ).len(),
    decreases events.len(),
{
    reveal(Seq::filter);
    if events.len() > 0 {
        days_hold_their_own_events(events.drop_last(), day);
    }
}

proof fn lemma_row_cells(
    place: Place,
    events: Seq<EventView>,
    first: int,
    today: int,
    row: int,
    weeks: nat,
    w: int,
)
    requires
        0 <= w < weeks,
        first + 7 * w + row <= today,
    ensures
        row_cells(place, events, first, today, row, weeks).len() >= 2 * w + 2,
        first + 7 * (weeks - 1) + row <= today ==> row_cells(
            place,
            events,
            first,
            today,
            row,
            weeks,
        ).len() == 2 * weeks,
        row_cells(place, events, first, today, row, weeks)[2 * w] == cell(
            place,
            events_on(events, first + 7 * w + row),
        ),
    decreases weeks,
{
    let before = row_cells(place, events, first, today, row, (weeks - 1) as nat);
    if w < weeks - 1 {
        lemma_row_cells(place, events, first, today, row, (weeks - 1) as nat, w);
    } else if weeks > 1 {
        lemma_row_cells(place, events, first, today, row, (weeks - 1) as nat, w - 1);
        assert(before.len() == 2 * w);
    } else {
        assert(before.len() == 0);
    }
}

/// Law: the calendar shows each day up to today in the row of its weekday and the column of its
/// week: a dot for a day without events, and a sign that grows darker with their number.
pub proof fn days_are_shown_by_their_events(
    place: Place,
    events: Seq<EventView>,
    today: int,
    weeks: nat,
    day: int,
)
    requires
        weeks >= 1,
        first_monday(today, weeks as int) <= day <= today,
    ensures
        ({
            let first = first_monday(today, weeks as int);
            let row = (day - first) % 7;
            let line = row_line(place, events, first, today, row, weeks);
            let sign = line[1 + 2 * ((day - first) / 7)].text;
            let n = events.filter(
                |e: EventView|
                    day * 86_400 <= e.timestamp.spec_secs() < (day + 1) * 86_400,
            ).len();
            &&& line.len() > 1 + 2 * ((day - first) / 7)
            &&& n == 0 ==> sign == "·"@
            &&& 1 <= n <= 2 ==> sign == "▒"@
            &&& 3 <= n <= 5 ==> sign == "▓"@
            &&& n > 5 ==> sign == "█"@
        }),
{
    let first = first_monday(today, weeks as int);
    let row = (day - first) % 7;
    let w = (day - first) / 7;
    days_hold_their_own_events(events, day);
    calendar_covers_today(today, weeks as int);
    assert(day == first + 7 * w + row);
    assert(0 <= w < weeks);
    lemma_row_cells(place, events, first, today, row, weeks, w);
    let cells = row_cells(place, events, first, today, row, weeks);
    assert(row_line(place, events, first, today, row, weeks)[1 + 2 * w] == cells[2 * w]);
}

} // verus!
