//! The text around the charts of activity: totals, breakdowns, headings and legends.
use crate::calendar::DayCount;
use crate::events::{Event, EventView};
use crate::stats::{
    bar_len, bar_length, event_keys, largest, max_count, rank, ranked, session_keys, spark,
    sparkline, tallied, tally, Bucket, Buckets, Tally, TallyView,
};
use crate::style::{
    line_of, line_of_two, new_line, no_lines, plain, push_line, push_lines, push_span, toned, Span,
    SpanView, Tone,
};
use crate::text::{
    byte_len, byte_length, chars_of, concat, decimal, decimal_text, pad_left, pad_right,
    padded_left, padded_right, repeat, repeated, shortened, truncate,
};
use crate::time::{formatted, Timestamp};
use vstd::prelude::*;

verus! {

// --------------------------------------------------------------------- breakdowns

/// The longest of some keys, in bytes.
pub open spec fn widest(rows: Seq<TallyView>) -> nat
    decreases rows.len(),
{
    if rows.len() == 0 {
        0
    } else {
        let before = widest(rows.drop_last());
        let last = byte_len(rows.last().key);
        if last > before {
            last
        } else {
            before
        }
    }
}

/// The width of the labels: that of the longest key, but at most twenty.
pub open spec fn label_columns(rows: Seq<TallyView>) -> int {
    if widest(rows) < 20 {
        widest(rows) as int
    } else {
        20
    }
}

fn count_columns(rows: &Vec<Tally>) -> (r: usize)
    ensures
        r == label_columns(rows.deep_view()),
{
    let ghost d = rows.deep_view();
    let mut w: usize = 0;
    let mut i: usize = 0;
    while i < rows.len()
        invariant
            i <= rows.len(),
            d == rows.deep_view(),
            w == widest(d.take(i as int)),
        decreases rows.len() - i,
    {
        assert(d.take(i + 1).drop_last() =~= d.take(i as int));
        assert(d.take(i + 1).last() == rows@[i as int].deep_view());
        let n = byte_length(&rows[i].key);
        if n > w {
            w = n;
        }
        i += 1;
    }
    assert(d.take(d.len() as int) =~= d);
    if w < 20 {
        w
    } else {
        20
    }
}

/// A row of a breakdown. `max` is the largest count.
pub open spec fn breakdown_row(t: TallyView, width: int, max: int) -> Seq<SpanView> {
    seq![
        plain(
            "  "@ + padded_right(shortened(t.key, width), width) + "  "@ + padded_left(
                decimal(t.count),
                4,
            ) + "  "@,
        ),
        toned(Tone::Cyan, repeated("█"@, bar_length(t.count as int, max) as nat)),
    ]
}

/// A breakdown: a heading and the ten most frequent keys; nothing where there are no keys.
pub open spec fn breakdown(title: Seq<char>, keys: Seq<Seq<char>>) -> Seq<Seq<SpanView>> {
    let rows = ranked(keys);
    if rows.len() == 0 {
        seq![]
    } else {
        seq![seq![], seq![toned(Tone::Bold, title), plain(":"@)]] + Seq::new(
            if rows.len() < 10 {
                rows.len()
            } else {
                10
            },
            |i: int| breakdown_row(rows[i], label_columns(rows), rows[0].count as int),
        )
    }
}

proof fn lemma_first_is_largest(keys: Seq<Seq<char>>, i: int)
    requires
        0 <= i < ranked(keys).len(),
    ensures
        ranked(keys)[i].count <= ranked(keys)[0].count,
{
    let le = |a: TallyView, b: TallyView| crate::stats::tally_le(a, b);
    crate::text::lemma_text_order();
    crate::sort::sorting_orders(tallied(keys), le);
    if i > 0 {
        assert(le(ranked(keys)[0], ranked(keys)[i]));
    }
}

pub fn print_bar_breakdown(title: &str, keys: &Vec<String>) -> (r: Vec<Vec<Span>>)
    ensures
        r.deep_view() == breakdown(title@, keys.deep_view()),
{
    let rows = rank(keys);
    let ghost d = rows.deep_view();
    let ghost all = breakdown(title@, keys.deep_view());
    let mut r = no_lines();
    assert(d.len() == rows@.len());
    if rows.len() == 0 {
        assert(r.deep_view() =~= all);
        return r;
    }
    push_line(&mut r, new_line());
    push_line(&mut r, line_of_two(Tone::Bold, title, Tone::Plain, ":"));
    let width = count_columns(&rows);
    assert(d[0] == rows@[0].deep_view());
    let max: usize = rows[0].count;
    let mut i: usize = 0;
    assert(r.deep_view() =~= all.take(2));
    while i < rows.len() && i < 10
        invariant
            i <= rows.len(),
            i <= 10,
            rows@.len() > 0,
            d == rows.deep_view(),
            d == ranked(keys.deep_view()),
            d.len() == rows@.len(),
            all == breakdown(title@, keys.deep_view()),
            width == label_columns(d),
            max == d[0].count,
            r.deep_view() == all.take(i + 2),
        decreases rows.len() - i,
    {
        assert(d[i as int] == rows@[i as int].deep_view());
        proof {
            lemma_first_is_largest(keys.deep_view(), i as int);
        }
        let mut t = concat("  ", &pad_right(&truncate(&rows[i].key, width), width));
        t.append("  ");
        t.append(&pad_left(&decimal_text(rows[i].count as u64), 4));
        t.append("  ");
        let bar = repeat("█", bar_len(rows[i].count, max));
        push_line(&mut r, line_of_two(Tone::Plain, &t, Tone::Cyan, &bar));
        assert(all[i + 2] == breakdown_row(d[i as int], width as int, max as int));
        i += 1;
        assert(r.deep_view() =~= all.take(i + 2));
    }
    assert(all.take(all.len() as int) =~= all);
    r
}

// -------------------------------------------------------------------------- stats

/// The heading of the statistics.
pub open spec fn stats_heading(n: nat, since: Timestamp, until: Option<Timestamp>) -> Seq<char> {
    match until {
        Some(u) => "Events: "@ + decimal(n) + " ("@ + formatted(since, "%Y-%m-%d"@) + " → "@
            + formatted(u, "%Y-%m-%d"@) + ")"@,
        None => "Events: "@ + decimal(n) + " (since "@ + formatted(since, "%Y-%m-%d"@) + ")"@,
    }
}

fn make_stats_heading(n: usize, since: Timestamp, until: Option<Timestamp>) -> (r: String)
    ensures
        r@ == stats_heading(n as nat, since, until),
{
    let mut t = concat("Events: ", &decimal_text(n as u64));
    match until {
        Some(u) => {
            t.append(" (");
            t.append(&since.format("%Y-%m-%d"));
            t.append(" → ");
            t.append(&u.format("%Y-%m-%d"));
        },
        None => {
            t.append(" (since ");
            t.append(&since.format("%Y-%m-%d"));
        },
    }
    t.append(")");
    t
}

/// The sparkline with its first and its last label, and the peak.
pub open spec fn activity(bucket: Bucket, labels: Seq<Seq<char>>, counts: Seq<usize>) -> Seq<
    Seq<SpanView>,
> {
    let line = spark(counts);
    seq![
        seq![],
        seq![toned(Tone::Bold, "Activity"@), plain(" (per "@ + bucket.name() + "):"@)],
        seq![plain("  "@ + line)],
    ] + (if labels.len() > 0 {
        seq![
            seq![
                plain(
                    "  "@ + labels[0] + repeated(
                        " "@,
                        if line.len() > byte_len(labels.last()) {
                            (line.len() - byte_len(labels.last())) as nat
                        } else {
                            0
                        },
                    ) + labels.last(),
                ),
            ],
        ]
    } else {
        seq![]
    }) + seq![
        seq![plain("  "@), toned(Tone::Dim, "peak:"@), plain(" "@ + decimal(largest(counts) as nat))],
    ]
}

fn make_activity(bucket: Bucket, b: &Buckets) -> (r: Vec<Vec<Span>>)
    ensures
        r.deep_view() == activity(bucket, b.labels.deep_view(), b.counts@),
{
    let ghost labels = b.labels.deep_view();
    let line = sparkline(&b.counts);
    let mut r = no_lines();
    push_line(&mut r, new_line());
    let mut per = concat(" (per ", bucket.text());
    per.append("):");
    push_line(&mut r, line_of_two(Tone::Bold, "Activity", Tone::Plain, &per));
    push_line(&mut r, line_of(Tone::Plain, &concat("  ", &line)));
    let n: usize = b.labels.len();
    assert(n == labels.len());
    if n > 0 {
        assert(labels[0] == b.labels@[0]@);
        assert(labels.last() == b.labels@[n - 1]@);
        let width: usize = chars_of(&line).len();
        let last: usize = byte_length(&b.labels[n - 1]);
        let pad: usize = if width > last {
            width - last
        } else {
            0
        };
        let mut t = concat("  ", &b.labels[0]);
        t.append(&repeat(" ", pad));
        t.append(&b.labels[n - 1]);
        push_line(&mut r, line_of(Tone::Plain, &t));
    }
    let mut peak = line_of_two(Tone::Plain, "  ", Tone::Dim, "peak:");
    push_span(&mut peak, Tone::Plain, &concat(" ", &decimal_text(max_count(&b.counts) as u64)));
    assert(peak.deep_view() =~= seq![
        plain("  "@),
        toned(Tone::Dim, "peak:"@),
        plain(" "@ + decimal(largest(b.counts@) as nat)),
    ]);
    push_line(&mut r, peak);
    assert(r.deep_view() =~= activity(bucket, labels, b.counts@));
    r
}

/// The statistics of some events.
pub open spec fn stats_lines(
    events: Seq<EventView>,
    since: Timestamp,
    until: Option<Timestamp>,
    bucket: Bucket,
    labels: Seq<Seq<char>>,
    counts: Seq<usize>,
) -> Seq<Seq<SpanView>> {
    seq![
        seq![toned(Tone::Bold, stats_heading(events.len(), since, until))],
        seq![plain("Sessions: "@ + decimal(tallied(session_keys(events)).len()))],
    ] + (if counts.len() > 0 {
        activity(bucket, labels, counts)
    } else {
        seq![]
    }) + breakdown("By action"@, Seq::new(events.len(), |i: int| events[i].action.name()))
        + breakdown(
        "By user"@,
        Seq::new(events.len(), |i: int| crate::stats::user_key(events[i])),
    ) + breakdown(
        "By harness"@,
        Seq::new(events.len(), |i: int| crate::stats::harness_key(events[i])),
    )
}

/// The statistics of some events. `buckets` holds them by day or by hour.
pub fn make_stats(
    events: &Vec<Event>,
    since: Timestamp,
    until: Option<Timestamp>,
    bucket: Bucket,
    buckets: &Buckets,
) -> (r: Vec<Vec<Span>>)
    ensures
        r.deep_view() == stats_lines(
            events.deep_view(),
            since,
            until,
            bucket,
            buckets.labels.deep_view(),
            buckets.counts@,
        ),
{
    let ghost d = events.deep_view();
    assert(d.len() == events@.len());
    let keys = event_keys(events);
    let sessions = tally(&keys.sessions);
    assert(sessions@.len() == sessions.deep_view().len());
    let mut r = no_lines();
    push_line(&mut r, line_of(Tone::Bold, &make_stats_heading(events.len(), since, until)));
    push_line(
        &mut r,
        line_of(Tone::Plain, &concat("Sessions: ", &decimal_text(sessions.len() as u64))),
    );
    assert(r.deep_view() =~= seq![
        seq![toned(Tone::Bold, stats_heading(d.len(), since, until))],
        seq![plain("Sessions: "@ + decimal(tallied(session_keys(d)).len()))],
    ]);
    if buckets.counts.len() > 0 {
        push_lines(&mut r, make_activity(bucket, buckets));
    } else {
        assert(r.deep_view() + Seq::<Seq<SpanView>>::empty() =~= r.deep_view());
    }
    push_lines(&mut r, print_bar_breakdown("By action", &keys.actions));
    push_lines(&mut r, print_bar_breakdown("By user", &keys.users));
    push_lines(&mut r, print_bar_breakdown("By harness", &keys.harnesses));
    r
}

// ------------------------------------------------------------------------ heatmap

/// The letter behind a word of which there is more than one, or none.
pub open spec fn plural(n: nat) -> Seq<char> {
    if n == 1 {
        ""@
    } else {
        "s"@
    }
}

fn plural_letter(n: usize) -> (r: &'static str)
    ensures
        r@ == plural(n as nat),
{
    if n == 1 {
        ""
    } else {
        "s"
    }
}

/// The heading of the heatmap. `first` and `last` are its days as texts.
pub fn heatmap_heading(weeks: usize, first: &str, last: &str) -> (r: Vec<Span>)
    ensures
        r.deep_view() == seq![
            toned(Tone::Bold, "Activity heatmap"@),
            plain(" "@),
            toned(
                Tone::Dim,
                "(last "@ + decimal(weeks as nat) + " weeks · "@ + first@ + " → "@ + last@ + ")"@,
            ),
        ],
{
    let mut t = concat("(last ", &decimal_text(weeks as u64));
    t.append(" weeks · ");
    t.append(first);
    t.append(" → ");
    t.append(last);
    t.append(")");
    let mut r = line_of_two(Tone::Bold, "Activity heatmap", Tone::Plain, " ");
    push_span(&mut r, Tone::Dim, &t);
    assert(r.deep_view() =~= seq![
        toned(Tone::Bold, "Activity heatmap"@),
        plain(" "@),
        toned(
            Tone::Dim,
            "(last "@ + decimal(weeks as nat) + " weeks · "@ + first@ + " → "@ + last@ + ")"@,
        ),
    ]);
    r
}

/// What the signs of the heatmap mean.
pub open spec fn heatmap_legend() -> Seq<SpanView> {
    seq![
        plain("Legend  "@),
        toned(Tone::Dim, "·"@),
        plain(" 0   "@),
        toned(Tone::Green, "▒"@),
        plain(" 1–2   "@),
        toned(Tone::BrightGreen, "▓"@),
        plain(" 3–5   "@),
        toned(Tone::BrightCyan, "█"@),
        plain(" 6+"@),
    ]
}

pub fn make_heatmap_legend() -> (r: Vec<Span>)
    ensures
        r.deep_view() == heatmap_legend(),
{
    let mut r = line_of_two(Tone::Plain, "Legend  ", Tone::Dim, "·");
    push_span(&mut r, Tone::Plain, " 0   ");
    push_span(&mut r, Tone::Green, "▒");
    push_span(&mut r, Tone::Plain, " 1–2   ");
    push_span(&mut r, Tone::BrightGreen, "▓");
    push_span(&mut r, Tone::Plain, " 3–5   ");
    push_span(&mut r, Tone::BrightCyan, "█");
    push_span(&mut r, Tone::Plain, " 6+");
    assert(r.deep_view() =~= heatmap_legend());
    r
}

/// The events from a day on.
pub open spec fn events_from(events: Seq<EventView>, first: int) -> nat
    decreases events.len(),
{
    if events.len() == 0 {
        0
    } else {
        events_from(events.drop_last(), first) + if events.last().timestamp.day_number() >= first {
            1nat
        } else {
            0nat
        }
    }
}

/// The line below the heatmap: events, days with events, and sessions.
pub open spec fn heatmap_totals(total: nat, days: nat, sessions: nat) -> Seq<char> {
    decimal(total) + " events  ·  "@ + decimal(days) + " active day"@ + plural(days) + "  ·  "@
        + decimal(sessions) + " session"@ + plural(sessions)
}

/// The line below the heatmap. `days` holds the days from `first` on that have events.
pub fn make_heatmap_totals(days: &Vec<DayCount>, events: &Vec<Event>, first: i64) -> (r: String)
    ensures
        r@ == heatmap_totals(
            events_from(events.deep_view(), first as int),
            days@.len(),
            tallied(session_keys(events.deep_view())).len(),
        ),
{
    let ghost d = events.deep_view();
    let keys = event_keys(events);
    let sessions = tally(&keys.sessions);
    assert(sessions@.len() == sessions.deep_view().len());
    let mut total: usize = 0;
    let mut i: usize = 0;
    while i < events.len()
        invariant
            i <= events.len(),
            total <= i,
            d == events.deep_view(),
            total == events_from(d.take(i as int), first as int),
        decreases events.len() - i,
    {
        assert(d.take(i + 1).drop_last() =~= d.take(i as int));
        assert(d.take(i + 1).last() == events@[i as int]@);
        if events[i].timestamp.day() >= first {
            total = total + 1;
        }
        i += 1;
    }
    assert(d.take(d.len() as int) =~= d);
    let mut t = concat(&decimal_text(total as u64), " events  ·  ");
    t.append(&decimal_text(days.len() as u64));
    t.append(" active day");
    t.append(plural_letter(days.len()));
    t.append("  ·  ");
    t.append(&decimal_text(sessions.len() as u64));
    t.append(" session");
    t.append(plural_letter(sessions.len()));
    t
}

// ----------------------------------------------------------------------- swimlane

/// What the heading of the swimlane says behind its name.
pub open spec fn swimlane_span(since: Timestamp, until: Timestamp, lanes: nat, cols: nat) -> Seq<
    char,
> {
    "("@ + formatted(since, "%Y-%m-%d %H:%M"@) + " → "@ + formatted(until, "%Y-%m-%d %H:%M"@)
        + "  ·  "@ + decimal(lanes) + " issue"@ + plural(lanes) + "  ·  "@ + decimal(cols) + " col"@
        + plural(cols) + ")"@
}

pub fn swimlane_heading(since: Timestamp, until: Timestamp, lanes: usize, cols: usize) -> (r: Vec<
    Span,
>)
    ensures
        r.deep_view() == seq![
            toned(Tone::Bold, "Swimlane"@),
            plain(" "@),
            toned(Tone::Dim, swimlane_span(since, until, lanes as nat, cols as nat)),
        ],
{
    let mut t = concat("(", &since.format("%Y-%m-%d %H:%M"));
    t.append(" → ");
    t.append(&until.format("%Y-%m-%d %H:%M"));
    t.append("  ·  ");
    t.append(&decimal_text(lanes as u64));
    t.append(" issue");
    t.append(plural_letter(lanes));
    t.append("  ·  ");
    t.append(&decimal_text(cols as u64));
    t.append(" col");
    t.append(plural_letter(cols));
    t.append(")");
    let mut r = line_of_two(Tone::Bold, "Swimlane", Tone::Plain, " ");
    push_span(&mut r, Tone::Dim, &t);
    assert(r.deep_view() =~= seq![
        toned(Tone::Bold, "Swimlane"@),
        plain(" "@),
        toned(Tone::Dim, swimlane_span(since, until, lanes as nat, cols as nat)),
    ]);
    r
}

/// What the signs of the swimlane mean.
pub open spec fn swimlane_legend() -> Seq<SpanView> {
    seq![
        plain("Legend  "@),
        toned(Tone::Green, "+"@),
        plain(" created   "@),
        toned(Tone::White, "*"@),
        plain(" updated   "@),
        toned(Tone::Yellow, "↑"@),
        plain(" reopened   "@),
        toned(Tone::BrightBlue, "■"@),
        plain(" closed   "@),
        toned(Tone::BrightRed, "✕"@),
        plain(" deleted   "@),
        toned(Tone::Magenta, "◆"@),
        plain(" dep"@),
    ]
}

pub fn make_swimlane_legend() -> (r: Vec<Span>)
    ensures
        r.deep_view() == swimlane_legend(),
{
    let mut r = line_of_two(Tone::Plain, "Legend  ", Tone::Green, "+");
    push_span(&mut r, Tone::Plain, " created   ");
    push_span(&mut r, Tone::White, "*");
    push_span(&mut r, Tone::Plain, " updated   ");
    push_span(&mut r, Tone::Yellow, "↑");
    push_span(&mut r, Tone::Plain, " reopened   ");
    push_span(&mut r, Tone::BrightBlue, "■");
    push_span(&mut r, Tone::Plain, " closed   ");
    push_span(&mut r, Tone::BrightRed, "✕");
    push_span(&mut r, Tone::Plain, " deleted   ");
    push_span(&mut r, Tone::Magenta, "◆");
    push_span(&mut r, Tone::Plain, " dep");
    assert(r.deep_view() =~= swimlane_legend());
    r
}

// ------------------------------------------------------------------------- laws

/// Law: a breakdown has a heading and a row for each key, up to ten. A row holds the number of
/// times that its key occurs, and those that occur most often come first.
pub proof fn breakdowns_show_the_most_frequent(title: Seq<char>, keys: Seq<Seq<char>>, i: int)
    ensures
        keys.len() == 0 ==> breakdown(title, keys).len() == 0,
        keys.len() > 0 ==> breakdown(title, keys)[1][0].text == title,
        ranked(keys).len() <= 10 && keys.len() > 0 ==> breakdown(title, keys).len() == 2 + ranked(
            keys,
        ).len(),
        ranked(keys).len() > 10 ==> breakdown(title, keys).len() == 12,
        0 <= i < ranked(keys).len() && i < 10 ==> {
            let row = breakdown(title, keys)[2 + i];
            let t = ranked(keys)[i];
            &&& t.count == crate::stats::occurrences(keys, t.key)
            &&& crate::query::stands_in(row[0].text, padded_left(decimal(t.count), 4))
            &&& t.key.len() <= label_columns(ranked(keys)) ==> crate::query::stands_in(
                row[0].text,
                t.key,
            )
            &&& t.count == ranked(keys)[0].count ==> row[1].text == repeated("█"@, 24)
        },
{
    let rows = ranked(keys);
    crate::stats::breakdowns_count_each_key(keys, i, i, seq![]);
    crate::stats::breakdown_counts_everything(keys);
    if keys.len() > 0 {
        crate::stats::breakdowns_count_each_key(keys, 0, 0, keys[0]);
        assert(keys.contains(keys[0]));
        assert(rows.len() > 0);
    } else {
        assert(rows.len() == 0);
    }
    if 0 <= i < rows.len() && i < 10 {
        let t = rows[i];
        let width = label_columns(rows);
        let row = breakdown(title, keys)[2 + i];
        assert(row == breakdown_row(t, width, rows[0].count as int));
        let name = padded_right(shortened(t.key, width), width);
        let count = padded_left(decimal(t.count), 4);
        assert(row[0].text =~= ("  "@ + name + "  "@) + count + "  "@);
        if t.key.len() <= width {
            assert(shortened(t.key, width) == t.key);
            let pad = name.skip(t.key.len() as int);
            assert(name =~= t.key + pad);
            assert(row[0].text =~= "  "@ + t.key + (pad + "  "@ + count + "  "@));
        }
        crate::stats::largest_tally_is_positive(keys, i);
        crate::stats::bars_show_their_share(rows[0].count as int, rows[0].count as int);
    }
}

/// Law: the events from a day on are those after its midnight.
pub proof fn events_from_a_day_are_counted(events: Seq<EventView>, first: int)
    ensures
        events_from(events, first) == events.filter(
            |e: EventView|
                first * 86_400 <= e.timestamp.spec_secs(),
        ).len(),
    decreases events.len(),
{
    reveal(Seq::filter);
    if events.len() > 0 {
        events_from_a_day_are_counted(events.drop_last(), first);
    }
}

/// Law: the statistics tell how many events there are and how many sessions they belong to.
pub proof fn statistics_count_events_and_sessions(
    events: Seq<EventView>,
    since: Timestamp,
    until: Option<Timestamp>,
    bucket: Bucket,
    labels: Seq<Seq<char>>,
    counts: Seq<usize>,
)
    ensures
        ({
            let r = stats_lines(events, since, until, bucket, labels, counts);
            &&& r.len() >= 2
            &&& r[0].len() == 1 && crate::query::stands_in(
                r[0][0].text,
                "Events: "@ + decimal(events.len()) + " ("@,
            )
            &&& r[1] == seq![plain("Sessions: "@ + decimal(ranked(session_keys(events)).len()))]
            &&& counts.len() > 0 ==> r[4] == seq![plain("  "@ + spark(counts))]
        }),
{
    let r = stats_lines(events, since, until, bucket, labels, counts);
    crate::stats::breakdowns_count_each_key(session_keys(events), 0, 0, seq![]);
    let head = "Events: "@ + decimal(events.len()) + " ("@;
    let text = stats_heading(events.len(), since, until);
    match until {
        Some(u) => {
            assert(text =~= Seq::<char>::empty() + head + (formatted(since, "%Y-%m-%d"@) + " → "@
                + formatted(u, "%Y-%m-%d"@) + ")"@));
        },
        None => {
            reveal_strlit(" (");
            reveal_strlit(" (since ");
            let rest = "since "@ + formatted(since, "%Y-%m-%d"@) + ")"@;
            reveal_strlit("since ");
            assert(" (since "@ =~= " ("@ + "since "@);
            assert(text =~= Seq::<char>::empty() + head + rest);
        },
    }
}

} // verus!
