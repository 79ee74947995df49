//! Activity in numbers: buckets, breakdowns, the calendar and the swimlane.
use crate::error::{Error, ErrorView};
use crate::events::{Event, EventView};
use crate::sort::{stable_sort, stable_sorted, Order};
use crate::text::{
    ascii_lowered, lemma_text_order, same_text, text_at_most, text_le, to_ascii_lowercase,
};
use crate::time::{formatted, is_instant, span_seconds, Timestamp, MAX_SECS, MIN_SECS};
use vstd::prelude::*;

verus! {

// --------------------------------------------------------------------- buckets

/// How long a bucket is.
#[derive(Clone, Copy, Debug, PartialEq, Eq, Structural)]
pub enum Bucket {
    Hour,
    Day,
}

impl Bucket {
    pub open spec fn seconds(self) -> int {
        match self {
            Bucket::Hour => 3_600,
            Bucket::Day => 86_400,
        }
    }

    pub open spec fn format(self) -> Seq<char> {
        match self {
            Bucket::Hour => "%m-%d %H"@,
            Bucket::Day => "%m-%d"@,
        }
    }

    pub open spec fn name(self) -> Seq<char> {
        match self {
            Bucket::Hour => "hour"@,
            Bucket::Day => "day"@,
        }
    }

    pub fn text(&self) -> (r: &'static str)
        ensures
            r@ == self.name(),
    {
        match self {
            Bucket::Hour => "hour",
            Bucket::Day => "day",
        }
    }

    /// Reads a bucket from its name, whatever the case.
    pub fn parse(by: &str) -> (r: Result<Bucket, Error>)
        ensures
            if ascii_lowered(by@) == "day"@ {
                r == Ok::<Bucket, Error>(Bucket::Day)
            } else if ascii_lowered(by@) == "hour"@ {
                r == Ok::<Bucket, Error>(Bucket::Hour)
            } else {
                r is Err && r->Err_0@ == ErrorView::Other("--by must be 'day' or 'hour'"@)
            },
    {
        let lower = to_ascii_lowercase(by);
        if same_text(&lower, "day") {
            Ok(Bucket::Day)
        } else if same_text(&lower, "hour") {
            Ok(Bucket::Hour)
        } else {
            Err(Error::Other("--by must be 'day' or 'hour'".to_owned()))
        }
    }
}

/// At most so many buckets are shown.
pub const MAX_BUCKETS: usize = 400;

/// The first second of the bucket in which an instant lies.
pub open spec fn bucket_start(bucket: Bucket, since: Timestamp) -> int {
    (since.spec_secs() / bucket.seconds()) * bucket.seconds()
}

/// The number of buckets from `since` to `end`.
pub open spec fn bucket_total(bucket: Bucket, since: Timestamp, end: Timestamp) -> int {
    if end.lt(since) {
        0
    } else {
        let n = (end.spec_secs() - bucket_start(bucket, since)) / bucket.seconds() + 1;
        if n < MAX_BUCKETS {
            n
        } else {
            MAX_BUCKETS as int
        }
    }
}

/// The start of the bucket in which an instant lies.
pub open spec fn first_instant(bucket: Bucket, since: Timestamp) -> Timestamp {
    Timestamp::instant_at(bucket_start(bucket, since))
}

/// The whole seconds from the start of a second to an instant. Within a leap second they are
/// what chrono counts.
pub open spec fn offset(t: Timestamp, start: Timestamp) -> int {
    if t.is_plain() {
        t.spec_secs() - start.spec_secs()
    } else {
        span_seconds(t, start) as int
    }
}

/// The event falls into the `k`th bucket.
pub open spec fn in_bucket(
    e: EventView,
    bucket: Bucket,
    start: Timestamp,
    end: Timestamp,
    k: int,
) -> bool {
    &&& start.le(e.timestamp)
    &&& e.timestamp.le(end)
    &&& offset(e.timestamp, start) >= 0
    &&& offset(e.timestamp, start) / bucket.seconds() == k
}

/// How many of the events fall into the `k`th bucket.
pub open spec fn bucket_count(
    events: Seq<EventView>,
    bucket: Bucket,
    start: Timestamp,
    end: Timestamp,
    k: int,
) -> nat
    decreases events.len(),
{
    if events.len() == 0 {
        0
    } else {
        bucket_count(events.drop_last(), bucket, start, end, k) + if in_bucket(
            events.last(),
            bucket,
            start,
            end,
            k,
        ) {
            1nat
        } else {
            0nat
        }
    }
}

/// Labels and counts, one of each for every bucket. Buckets without events are kept.
pub struct Buckets {
    pub labels: Vec<String>,
    pub counts: Vec<usize>,
}

/// The labels of the buckets: the start of each under the format of its kind.
pub open spec fn bucket_labels(bucket: Bucket, since: Timestamp, end: Timestamp) -> Seq<Seq<char>> {
    Seq::new(
        bucket_total(bucket, since, end) as nat,
        |k: int|
            formatted(
                Timestamp::instant_at(bucket_start(bucket, since) + k * bucket.seconds()),
                bucket.format(),
            ),
    )
}

/// The events between `since` and `end` in buckets.
pub fn bucket_counts(events: &Vec<Event>, bucket: Bucket, since: Timestamp, end: Timestamp) -> (r:
    Buckets)
    ensures
        r.labels.deep_view() == bucket_labels(bucket, since, end),
        r.counts@.len() == bucket_total(bucket, since, end),
        forall|k: int|
            0 <= k < r.counts@.len() ==> (#[trigger] r.counts@[k]) as nat == bucket_count(
                events.deep_view(),
                bucket,
                first_instant(bucket, since),
                end,
                k,
            ),
{
    let mut labels: Vec<String> = Vec::new();
    let mut counts: Vec<usize> = Vec::new();
    if !since.at_most(&end) {
        assert(labels.deep_view() =~= bucket_labels(bucket, since, end));
        return Buckets { labels, counts };
    }
    let step: i64 = match bucket {
        Bucket::Hour => 3_600,
        Bucket::Day => 86_400,
    };
    let first: i64 = since.secs();
    let last: i64 = end.secs();
    let shift: i64 = 96_500_000 * 86_400;
    assert(step == bucket.seconds());
    let start_secs: i64 = ((first + shift) / step) * step - shift;
    proof {
        assert(start_secs == bucket_start(bucket, since)) by {
            if bucket == Bucket::Day {
                assert((first + shift) / 86_400 == first as int / 86_400 + 96_500_000);
            } else {
                assert((first + shift) / 3_600 == first as int / 3_600 + 96_500_000 * 24);
            }
        }
        assert(start_secs <= first);
        assert(MIN_SECS <= start_secs);
        assert(end.spec_secs() >= since.spec_secs());
    }
    let ghost total = bucket_total(bucket, since, end);
    let start = Timestamp::at_second(start_secs);
    let mut cursor: i64 = start_secs;
    while cursor <= last && labels.len() < MAX_BUCKETS
        invariant
            step == bucket.seconds(),
            step == 3_600 || step == 86_400,
            start_secs == bucket_start(bucket, since),
            since.le(end),
            last == end.spec_secs(),
            MIN_SECS <= start_secs <= last <= MAX_SECS,
            total == bucket_total(bucket, since, end),
            labels@.len() <= MAX_BUCKETS,
            labels@.len() == counts@.len(),
            cursor == start_secs + labels@.len() * step,
            labels@.len() > 0 ==> cursor - step <= last,
            forall|k: int| 0 <= k < counts@.len() ==> #[trigger] counts@[k] == 0,
            forall|k: int|
                0 <= k < labels@.len() ==> (#[trigger] labels@[k])@ == formatted(
                    Timestamp::instant_at(start_secs + k * step),
                    bucket.format(),
                ),
        decreases MAX_BUCKETS - labels@.len(),
    {
        let at = Timestamp::at_second(cursor);
        let label = match bucket {
            Bucket::Hour => at.format("%m-%d %H"),
            Bucket::Day => at.format("%m-%d"),
        };
        let ghost before = labels@;
        labels.push(label);
        counts.push(0);
        proof {
            assert((before.len() + 1) * step == before.len() * step + step) by (nonlinear_arith);
        }
        cursor = cursor + step;
    }
    proof {
        lemma_bucket_total(last as int, start_secs as int, step as int, labels@.len() as int);
        assert(labels@.len() == total);
        assert(labels.deep_view() =~= bucket_labels(bucket, since, end));
    }
    let ghost d = events.deep_view();
    let mut i: usize = 0;
    while i < events.len()
        invariant
            i <= events.len(),
            d == events.deep_view(),
            step == bucket.seconds(),
            step == 3_600 || step == 86_400,
            start == first_instant(bucket, since),
            start.spec_nanos() == 0,
            counts@.len() == total,
            forall|k: int|
                0 <= k < counts@.len() ==> (#[trigger] counts@[k]) as nat == bucket_count(
                    d.take(i as int),
                    bucket,
                    start,
                    end,
                    k,
                ) && counts@[k] <= i,
        decreases events.len() - i,
    {
        let ghost counts0 = counts@;
        let e = &events[i];
        assert(d.take(i + 1).drop_last() =~= d.take(i as int));
        assert(d.take(i + 1).last() == e@);
        if start.at_most(&e.timestamp) && e.timestamp.at_most(&end) {
            let span: i64 = e.timestamp.seconds_since(&start);
            assert(span == offset(e@.timestamp, start)) by {
                e.timestamp.lemma_nanos();
            }
            if span >= 0 {
                let idx: u64 = (span / step) as u64;
                assert(idx == span as int / step as int);
                if idx < counts.len() as u64 {
                    let at: usize = idx as usize;
                    let n: usize = counts[at];
                    counts.set(at, n + 1);
                }
            }
        }
        assert forall|k: int| 0 <= k < counts@.len() implies (#[trigger] counts@[k]) as nat
            == bucket_count(d.take(i + 1), bucket, start, end, k) && counts@[k] <= i + 1 by {
            assert(counts0[k] as nat == bucket_count(d.take(i as int), bucket, start, end, k));
        }
        i += 1;
    }
    assert(d.take(d.len() as int) =~= d);
    Buckets { labels, counts }
}

proof fn lemma_bucket_total(last: int, start: int, step: int, n: int)
    requires
        step > 0,
        start <= last,
        0 < n,
        start + (n - 1) * step <= last,
    ensures
        n <= (last - start) / step + 1,
        start + n * step > last ==> n == (last - start) / step + 1,
{
    let q = (last - start) / step;
    assert((n - 1) * step <= last - start);
    assert(n - 1 <= q) by (nonlinear_arith)
        requires
            (n - 1) * step <= last - start,
            q == (last - start) / step,
            step > 0,
    ;
    if start + n * step > last {
        assert(q < n) by (nonlinear_arith)
            requires
                n * step > last - start,
                q == (last - start) / step,
                step > 0,
        ;
    }
}

/// The sum of some counts.
pub open spec fn summed(counts: Seq<usize>) -> nat
    decreases counts.len(),
{
    if counts.len() == 0 {
        0
    } else {
        summed(counts.drop_last()) + counts.last() as nat
    }
}

/// The event falls into one of the first `n` buckets.
pub open spec fn in_buckets(
    e: EventView,
    bucket: Bucket,
    start: Timestamp,
    end: Timestamp,
    n: int,
) -> bool {
    &&& start.le(e.timestamp)
    &&& e.timestamp.le(end)
    &&& 0 <= offset(e.timestamp, start)
    &&& offset(e.timestamp, start) / bucket.seconds() < n
}

/// How many of the events fall into the first `n` buckets.
pub open spec fn counted_events(
    events: Seq<EventView>,
    bucket: Bucket,
    start: Timestamp,
    end: Timestamp,
    n: int,
) -> nat {
    events.filter(|e: EventView| in_buckets(e, bucket, start, end, n)).len()
}

proof fn lemma_one_more_bucket(
    events: Seq<EventView>,
    bucket: Bucket,
    start: Timestamp,
    end: Timestamp,
    n: int,
)
    requires
        n >= 0,
    ensures
        counted_events(events, bucket, start, end, n + 1) == counted_events(
            events,
            bucket,
            start,
            end,
            n,
        ) + bucket_count(events, bucket, start, end, n),
    decreases events.len(),
{
    reveal(Seq::filter);
    if events.len() > 0 {
        lemma_one_more_bucket(events.drop_last(), bucket, start, end, n);
    }
}

proof fn lemma_no_bucket(
    events: Seq<EventView>,
    bucket: Bucket,
    start: Timestamp,
    end: Timestamp,
)
    ensures
        counted_events(events, bucket, start, end, 0) == 0,
    decreases events.len(),
{
    reveal(Seq::filter);
    if events.len() > 0 {
        lemma_no_bucket(events.drop_last(), bucket, start, end);
        let o = offset(events.last().timestamp, start);
        if o >= 0 {
            assert(o / bucket.seconds() >= 0) by (nonlinear_arith)
                requires
                    o >= 0,
                    bucket.seconds() > 0,
            ;
        }
    }
}

proof fn lemma_summed(
    counts: Seq<usize>,
    events: Seq<EventView>,
    bucket: Bucket,
    start: Timestamp,
    end: Timestamp,
)
    requires
        forall|k: int|
            0 <= k < counts.len() ==> (#[trigger] counts[k]) as nat == bucket_count(
                events,
                bucket,
                start,
                end,
                k,
            ),
    ensures
        summed(counts) == counted_events(events, bucket, start, end, counts.len() as int),
    decreases counts.len(),
{
    if counts.len() == 0 {
        lemma_no_bucket(events, bucket, start, end);
    } else {
        let front = counts.drop_last();
        assert forall|k: int| 0 <= k < front.len() implies (#[trigger] front[k]) as nat
            == bucket_count(events, bucket, start, end, k) by {
            assert(counts[k] == front[k]);
        }
        lemma_summed(front, events, bucket, start, end);
        lemma_one_more_bucket(events, bucket, start, end, front.len() as int);
        assert(counts[counts.len() - 1] == counts.last());
    }
}

/// The buckets reach beyond the second in which the window ends. They do, unless there would be
/// more of them than are kept.
pub open spec fn reaches_end(bucket: Bucket, since: Timestamp, end: Timestamp, n: int) -> bool {
    end.spec_secs() < bucket_start(bucket, since) + n * bucket.seconds()
}

/// Every event of the window is counted in one bucket and no other event is. Where the buckets
/// reach to the end of the window, these are the events from the start of the first bucket to
/// that end, as long as none lies in a leap second.
pub proof fn buckets_count_the_window(
    counts: Seq<usize>,
    events: Seq<EventView>,
    bucket: Bucket,
    since: Timestamp,
    end: Timestamp,
)
    requires
        is_instant(since.spec_secs(), since.spec_nanos()),
        counts.len() == bucket_total(bucket, since, end),
        forall|k: int|
            0 <= k < counts.len() ==> (#[trigger] counts[k]) as nat == bucket_count(
                events,
                bucket,
                first_instant(bucket, since),
                end,
                k,
            ),
    ensures
        summed(counts) == counted_events(
            events,
            bucket,
            first_instant(bucket, since),
            end,
            counts.len() as int,
        ),
        since.le(end) && reaches_end(bucket, since, end, counts.len() as int) && (forall|i: int|
            0 <= i < events.len() ==> (#[trigger] events[i]).timestamp.is_plain()) ==> summed(
            counts,
        ) == events.filter(
            |e: EventView|
                first_instant(bucket, since).le(e.timestamp) && e.timestamp.le(end),
        ).len(),
        since.le(end) && counts.len() < MAX_BUCKETS ==> reaches_end(
            bucket,
            since,
            end,
            counts.len() as int,
        ),
{
    let start = first_instant(bucket, since);
    let n = counts.len() as int;
    lemma_summed(counts, events, bucket, start, end);
    if since.le(end) && reaches_end(bucket, since, end, n) && (forall|i: int|
        0 <= i < events.len() ==> (#[trigger] events[i]).timestamp.is_plain()) {
        lemma_whole_window(events, bucket, since, end, n);
    }
    if since.le(end) && n < MAX_BUCKETS {
        let last = end.spec_secs() - bucket_start(bucket, since);
        let step = bucket.seconds();
        assert(last < (last / step + 1) * step) by (nonlinear_arith)
            requires
                step > 0,
        ;
    }
}

proof fn lemma_start_in_range(bucket: Bucket, since: Timestamp)
    requires
        is_instant(since.spec_secs(), since.spec_nanos()),
    ensures
        MIN_SECS <= bucket_start(bucket, since) <= since.spec_secs(),
{
    let first = since.spec_secs();
    assert(MIN_SECS as int == -96_465_292 * 86_400);
    match bucket {
        Bucket::Hour => {
            let q = first / 3_600;
            assert(q * 3_600 <= first < q * 3_600 + 3_600);
            assert(q >= -96_465_292 * 24);
        },
        Bucket::Day => {
            let q = first / 86_400;
            assert(q * 86_400 <= first < q * 86_400 + 86_400);
            assert(q >= -96_465_292);
        },
    }
}

proof fn lemma_whole_window(
    events: Seq<EventView>,
    bucket: Bucket,
    since: Timestamp,
    end: Timestamp,
    n: int,
)
    requires
        is_instant(since.spec_secs(), since.spec_nanos()),
        since.le(end),
        n == bucket_total(bucket, since, end),
        reaches_end(bucket, since, end, n),
        forall|i: int| 0 <= i < events.len() ==> (#[trigger] events[i]).timestamp.is_plain(),
    ensures
        counted_events(events, bucket, first_instant(bucket, since), end, n) == events.filter(
            |e: EventView|
                first_instant(bucket, since).le(e.timestamp) && e.timestamp.le(end),
        ).len(),
    decreases events.len(),
{
    reveal(Seq::filter);
    let start = first_instant(bucket, since);
    if events.len() > 0 {
        let front = events.drop_last();
        let e = events.last();
        assert(events[events.len() - 1] == e);
        assert forall|i: int| 0 <= i < front.len() implies (
        #[trigger] front[i]).timestamp.is_plain() by {
            assert(front[i] == events[i]);
        }
        lemma_whole_window(front, bucket, since, end, n);
        if start.le(e.timestamp) && e.timestamp.le(end) {
            let o = offset(e.timestamp, start);
            e.timestamp.lemma_nanos();
            lemma_start_in_range(bucket, since);
            Timestamp::lemma_instant_at(bucket_start(bucket, since));
            let last = end.spec_secs() - start.spec_secs();
            let step = bucket.seconds();
            assert(0 <= o <= last);
            assert(o / step <= last / step) by (nonlinear_arith)
                requires
                    0 <= o <= last,
                    step > 0,
            ;
            assert(last / step < n) by (nonlinear_arith)
                requires
                    0 <= last < n * step,
                    step > 0,
            ;
        }
    }
}

// ------------------------------------------------------------------- sparkline

/// The largest of some counts; 0 where there is none.
pub open spec fn largest(counts: Seq<usize>) -> usize
    decreases counts.len(),
{
    if counts.len() == 0 {
        0
    } else {
        let m = largest(counts.drop_last());
        if counts.last() > m {
            counts.last()
        } else {
            m
        }
    }
}

pub fn max_count(counts: &Vec<usize>) -> (r: usize)
    ensures
        r == largest(counts@),
{
    let mut m: usize = 0;
    let mut i: usize = 0;
    while i < counts.len()
        invariant
            i <= counts.len(),
            m == largest(counts@.take(i as int)),
        decreases counts.len() - i,
    {
        assert(counts@.take(i + 1).drop_last() =~= counts@.take(i as int));
        if counts[i] > m {
            m = counts[i];
        }
        i += 1;
    }
    assert(counts@.take(counts@.len() as int) =~= counts@);
    m
}

proof fn lemma_largest(counts: Seq<usize>, k: int)
    requires
        0 <= k < counts.len(),
    ensures
        counts[k] <= largest(counts),
    decreases counts.len(),
{
    if k < counts.len() - 1 {
        lemma_largest(counts.drop_last(), k);
        assert(counts.drop_last()[k] == counts[k]);
    }
}

/// A bar of that height, from 0 to 7.
pub open spec fn spark_char(level: int) -> char {
    if level == 0 {
        '▁'
    } else if level == 1 {
        '▂'
    } else if level == 2 {
        '▃'
    } else if level == 3 {
        '▄'
    } else if level == 4 {
        '▅'
    } else if level == 5 {
        '▆'
    } else if level == 6 {
        '▇'
    } else {
        '█'
    }
}

/// One character for each count: a bar in proportion to the largest, or a blank for none.
pub open spec fn spark(counts: Seq<usize>) -> Seq<char> {
    Seq::new(
        counts.len(),
        |i: int|
            if counts[i] == 0 {
                ' '
            } else {
                spark_char(counts[i] * 7 / largest(counts) as int)
            },
    )
}

pub fn sparkline(counts: &Vec<usize>) -> (r: String)
    ensures
        r@ == spark(counts@),
{
    let max = max_count(counts);
    let mut r = String::new();
    let mut i: usize = 0;
    while i < counts.len()
        invariant
            i <= counts.len(),
            max == largest(counts@),
            r@ == spark(counts@).take(i as int),
        decreases counts.len() - i,
    {
        let c = counts[i];
        proof {
            lemma_largest(counts@, i as int);
        }
        let ch = if c == 0 {
            ' '
        } else {
            let level: u128 = c as u128 * 7 / max as u128;
            if level == 0 {
                '▁'
            } else if level == 1 {
                '▂'
            } else if level == 2 {
                '▃'
            } else if level == 3 {
                '▄'
            } else if level == 4 {
                '▅'
            } else if level == 5 {
                '▆'
            } else if level == 6 {
                '▇'
            } else {
                '█'
            }
        };
        r.push(ch);
        i += 1;
        assert(spark(counts@).take(i as int) =~= spark(counts@).take(i - 1).push(
            spark(counts@)[i - 1],
        ));
    }
    assert(spark(counts@).take(counts@.len() as int) =~= spark(counts@));
    r
}

/// The busiest bucket has the highest bar.
pub proof fn busiest_bucket_is_full(counts: Seq<usize>, k: int)
    requires
        0 <= k < counts.len(),
        counts[k] == largest(counts),
        counts[k] > 0,
    ensures
        spark(counts)[k] == '█',
        spark(counts).len() == counts.len(),
{
    assert(counts[k] * 7 / largest(counts) as int == 7) by (nonlinear_arith)
        requires
            counts[k] == largest(counts),
            counts[k] > 0,
    ;
}

// ------------------------------------------------------------------ breakdowns

/// How often something occurs.
#[derive(Clone, Debug)]
pub struct Tally {
    pub key: String,
    pub count: usize,
}

pub struct TallyView {
    pub key: Seq<char>,
    pub count: nat,
}

impl DeepView for Tally {
    type V = TallyView;

    open spec fn deep_view(&self) -> TallyView {
        TallyView { key: self.key@, count: self.count as nat }
    }
}

pub open spec fn tally_index(t: Seq<TallyView>, key: Seq<char>) -> int
    decreases t.len(),
{
    if t.len() == 0 {
        0
    } else if t[0].key == key {
        0
    } else {
        1 + tally_index(t.drop_first(), key)
    }
}

/// How often each key occurs, in the order in which they first occur.
pub open spec fn tallied(keys: Seq<Seq<char>>) -> Seq<TallyView>
    decreases keys.len(),
{
    if keys.len() == 0 {
        seq![]
    } else {
        let before = tallied(keys.drop_last());
        let k = tally_index(before, keys.last());
        if k < before.len() {
            before.update(k, TallyView { key: before[k].key, count: before[k].count + 1 })
        } else {
            before.push(TallyView { key: keys.last(), count: 1 })
        }
    }
}

fn find_tally(t: &Vec<Tally>, key: &str) -> (r: usize)
    ensures
        r == tally_index(t.deep_view(), key@),
        r <= t.len(),
{
    let ghost d = t.deep_view();
    let mut i: usize = 0;
    assert(d.skip(0) =~= d);
    while i < t.len()
        invariant
            i <= t.len(),
            d == t.deep_view(),
            tally_index(d, key@) == i + tally_index(d.skip(i as int), key@),
        decreases t.len() - i,
    {
        assert(d[i as int] == t@[i as int].deep_view());
        assert(d.skip(i as int).drop_first() =~= d.skip(i + 1));
        if same_text(&t[i].key, key) {
            return i;
        }
        i += 1;
    }
    i
}

/// How often each key occurs, in the order in which they first occur.
pub fn tally(keys: &Vec<String>) -> (r: Vec<Tally>)
    ensures
        r.deep_view() == tallied(keys.deep_view()),
{
    let ghost d = keys.deep_view();
    let mut r: Vec<Tally> = Vec::new();
    let mut i: usize = 0;
    assert(r.deep_view() =~= tallied(d.take(0)));
    while i < keys.len()
        invariant
            i <= keys.len(),
            d == keys.deep_view(),
            r.deep_view() == tallied(d.take(i as int)),
            forall|k: int| 0 <= k < r@.len() ==> (#[trigger] r@[k]).count <= i,
        decreases keys.len() - i,
    {
        let ghost before = r.deep_view();
        let ghost r0 = r@;
        assert(d.take(i + 1).drop_last() =~= d.take(i as int));
        assert(d.take(i + 1).last() == keys@[i as int]@);
        let k = find_tally(&r, &keys[i]);
        if k < r.len() {
            assert(before[k as int] == r0[k as int].deep_view());
            let row = Tally { key: r[k].key.clone(), count: r[k].count + 1 };
            let ghost rv = row.deep_view();
            r.set(k, row);
            assert(r.deep_view() =~= before.update(k as int, rv));
        } else {
            let row = Tally { key: keys[i].clone(), count: 1 };
            let ghost rv = row.deep_view();
            r.push(row);
            assert(r.deep_view() =~= before.push(rv));
        }
        i += 1;
    }
    assert(d.take(d.len() as int) =~= d);
    r
}

/// More frequent keys first, equally frequent ones by key.
pub struct ByFrequency;

pub open spec fn tally_le(a: TallyView, b: TallyView) -> bool {
    a.count > b.count || (a.count == b.count && text_le(a.key, b.key))
}

impl Order<Tally> for ByFrequency {
    open spec fn le(&self, a: TallyView, b: TallyView) -> bool {
        tally_le(a, b)
    }

    proof fn lawful(&self) {
        lemma_text_order();
    }

    fn at_most(&self, a: &Tally, b: &Tally) -> (r: bool) {
        a.count > b.count || (a.count == b.count && text_at_most(&a.key, &b.key))
    }
}

/// The keys by how often they occur.
pub open spec fn ranked(keys: Seq<Seq<char>>) -> Seq<TallyView> {
    stable_sorted(tallied(keys), |a: TallyView, b: TallyView| tally_le(a, b))
}

pub fn rank(keys: &Vec<String>) -> (r: Vec<Tally>)
    ensures
        r.deep_view() == ranked(keys.deep_view()),
{
    let r = stable_sort(tally(keys), &ByFrequency);
    assert((|a: TallyView, b: TallyView| tally_le(a, b)) =~= (|a: TallyView, b: TallyView|
        <ByFrequency as Order<Tally>>::le(&ByFrequency, a, b)));
    r
}

/// The length of a bar in a breakdown, where the largest is 24 long.
pub open spec fn bar_length(count: int, max: int) -> int {
    if max < 1 {
        count * 24
    } else {
        count * 24 / max
    }
}

pub fn bar_len(count: usize, max: usize) -> (r: usize)
    requires
        count <= max,
    ensures
        r == bar_length(count as int, max as int),
        r <= 24,
{
    if max == 0 {
        return 0;
    }
    let n: u128 = count as u128 * 24 / max as u128;
    assert(count * 24 / max as int <= 24) by (nonlinear_arith)
        requires
            count <= max,
            max > 0,
    ;
    n as usize
}

/// What an event counts under in each breakdown.
pub open spec fn user_key(e: EventView) -> Seq<char> {
    match e.user_id {
        Some(u) => u,
        None => "-"@,
    }
}

pub open spec fn harness_key(e: EventView) -> Seq<char> {
    match e.harness {
        Some(h) => h,
        None => match e.platform {
            Some(p) => p,
            None => "-"@,
        },
    }
}

/// The keys of the breakdowns of some events, and the sessions that they belong to.
pub struct EventKeys {
    pub actions: Vec<String>,
    pub users: Vec<String>,
    pub harnesses: Vec<String>,
    /// The ids of the sessions, one for each event that has one.
    pub sessions: Vec<String>,
}

/// The session ids of some events, where they have one.
pub open spec fn session_keys(events: Seq<EventView>) -> Seq<Seq<char>>
    decreases events.len(),
{
    if events.len() == 0 {
        seq![]
    } else {
        match events.last().key() {
            Some(k) => session_keys(events.drop_last()).push(k),
            None => session_keys(events.drop_last()),
        }
    }
}

pub fn event_keys(events: &Vec<Event>) -> (r: EventKeys)
    ensures
        ({
            let d = events.deep_view();
            &&& r.actions.deep_view() == Seq::new(d.len(), |i: int| d[i].action.name())
            &&& r.users.deep_view() == Seq::new(d.len(), |i: int| user_key(d[i]))
            &&& r.harnesses.deep_view() == Seq::new(d.len(), |i: int| harness_key(d[i]))
            &&& r.sessions.deep_view() == session_keys(d)
        }),
{
    let ghost d = events.deep_view();
    let mut actions: Vec<String> = Vec::new();
    let mut users: Vec<String> = Vec::new();
    let mut harnesses: Vec<String> = Vec::new();
    let mut sessions: Vec<String> = Vec::new();
    let mut i: usize = 0;
    assert(sessions.deep_view() =~= session_keys(d.take(0)));
    while i < events.len()
        invariant
            i <= events.len(),
            d == events.deep_view(),
            actions@.len() == i,
            users@.len() == i,
            harnesses@.len() == i,
            forall|k: int| 0 <= k < i ==> (#[trigger] actions@[k])@ == d[k].action.name(),
            forall|k: int| 0 <= k < i ==> (#[trigger] users@[k])@ == user_key(d[k]),
            forall|k: int| 0 <= k < i ==> (#[trigger] harnesses@[k])@ == harness_key(d[k]),
            sessions.deep_view() == session_keys(d.take(i as int)),
        decreases events.len() - i,
    {
        let e = &events[i];
        assert(d[i as int] == e@);
        assert(d.take(i + 1).drop_last() =~= d.take(i as int));
        actions.push(e.action.text().to_owned());
        users.push(
            match &e.user_id {
                Some(u) => u.clone(),
                None => "-".to_owned(),
            },
        );
        harnesses.push(
            match &e.harness {
                Some(h) => h.clone(),
                None => match &e.platform {
                    Some(p) => p.clone(),
                    None => "-".to_owned(),
                },
            },
        );
        let ghost before = sessions.deep_view();
        match e.session_key() {
            Some(k) => {
                sessions.push(k);
                assert(sessions.deep_view() =~= before.push(k@));
            },
            None => {},
        }
        i += 1;
    }
    assert(d.take(d.len() as int) =~= d);
    assert(actions.deep_view() =~= Seq::new(d.len(), |i: int| d[i].action.name()));
    assert(users.deep_view() =~= Seq::new(d.len(), |i: int| user_key(d[i])));
    assert(harnesses.deep_view() =~= Seq::new(d.len(), |i: int| harness_key(d[i])));
    EventKeys { actions, users, harnesses, sessions }
}

/// What a breakdown counts adds up to what it was made of.
pub open spec fn tally_sum(t: Seq<TallyView>) -> nat
    decreases t.len(),
{
    if t.len() == 0 {
        0
    } else {
        tally_sum(t.drop_last()) + t.last().count
    }
}

proof fn lemma_tally_update(t: Seq<TallyView>, k: int, x: TallyView)
    requires
        0 <= k < t.len(),
        x.count == t[k].count + 1,
    ensures
        tally_sum(t.update(k, x)) == tally_sum(t) + 1,
    decreases t.len(),
{
    let u = t.update(k, x);
    if k == t.len() - 1 {
        assert(u.drop_last() =~= t.drop_last());
    } else {
        assert(u.drop_last() =~= t.drop_last().update(k, x));
        lemma_tally_update(t.drop_last(), k, x);
    }
}

proof fn lemma_tally_index(t: Seq<TallyView>, key: Seq<char>)
    ensures
        0 <= tally_index(t, key) <= t.len(),
    decreases t.len(),
{
    if t.len() > 0 && t[0].key != key {
        lemma_tally_index(t.drop_first(), key);
    }
}

/// Every key is counted once.
pub proof fn breakdown_counts_everything(keys: Seq<Seq<char>>)
    ensures
        tally_sum(tallied(keys)) == keys.len(),
    decreases keys.len(),
{
    if keys.len() > 0 {
        let before = tallied(keys.drop_last());
        let k = tally_index(before, keys.last());
        breakdown_counts_everything(keys.drop_last());
        lemma_tally_index(before, keys.last());
        if k < before.len() {
            lemma_tally_update(
                before,
                k,
                TallyView { key: before[k].key, count: before[k].count + 1 },
            );
        } else {
            assert(tallied(keys).drop_last() =~= before);
        }
    }
}

pub open spec fn is_key(key: Seq<char>) -> spec_fn(Seq<char>) -> bool {
    |k: Seq<char>| k == key
}

/// How often a key occurs.
pub open spec fn occurrences(keys: Seq<Seq<char>>, key: Seq<char>) -> nat {
    keys.filter(is_key(key)).len()
}

/// The tallies are those of the keys: no key has two, each has its number of occurrences, and
/// none of the keys is missing.
pub open spec fn tallies_keys(t: Seq<TallyView>, keys: Seq<Seq<char>>) -> bool {
    &&& forall|i: int, j: int|
        0 <= i < j < t.len() ==> (#[trigger] t[i]).key != (#[trigger] t[j]).key
    &&& forall|i: int|
        0 <= i < t.len() ==> (#[trigger] t[i]).count == occurrences(keys, t[i].key) && t[i].count
            > 0
    &&& forall|x: Seq<char>| #[trigger]
        keys.contains(x) ==> exists|i: int| 0 <= i < t.len() && (#[trigger] t[i]).key == x
}

proof fn lemma_tally_found(t: Seq<TallyView>, key: Seq<char>)
    ensures
        ({
            let k = tally_index(t, key);
            &&& 0 <= k <= t.len()
            &&& k < t.len() ==> t[k].key == key
            &&& k == t.len() ==> forall|j: int| 0 <= j < t.len() ==> (#[trigger] t[j]).key != key
        }),
    decreases t.len(),
{
    if t.len() > 0 && t[0].key != key {
        let rest = t.drop_first();
        lemma_tally_found(rest, key);
        assert forall|j: int| 1 <= j < t.len() implies #[trigger] t[j] == rest[j - 1] by {}
    }
}

proof fn lemma_occurs(keys: Seq<Seq<char>>, key: Seq<char>)
    ensures
        occurrences(keys, key) > 0 <==> keys.contains(key),
{
    let f = is_key(key);
    let r = keys.filter(f);
    crate::filter::filtering_keeps_what_passes(keys, f, key);
    if r.len() > 0 {
        crate::filter::filtering_keeps_what_passes(keys, f, r[0]);
        assert(r.contains(r[0]));
        assert(f(r[0]));
        assert(keys.contains(key));
    }
    if keys.contains(key) {
        assert(f(key));
        assert(r.contains(key));
        let m = choose|m: int| 0 <= m < r.len() && r[m] == key;
        assert(0 <= m < r.len());
    }
}

proof fn lemma_tallies(keys: Seq<Seq<char>>)
    ensures
        tallies_keys(tallied(keys), keys),
    decreases keys.len(),
{
    reveal(Seq::filter);
    let t = tallied(keys);
    if keys.len() > 0 {
        let front = keys.drop_last();
        let before = tallied(front);
        let x = keys.last();
        let k = tally_index(before, x);
        lemma_tallies(front);
        lemma_tally_found(before, x);
        assert forall|key: Seq<char>| #[trigger] occurrences(keys, key) == occurrences(front, key)
            + if key == x {
            1nat
        } else {
            0nat
        } by {}
        lemma_occurs(front, x);
        if k == before.len() {
            if front.contains(x) {
                let i = choose|i: int| 0 <= i < before.len() && (#[trigger] before[i]).key == x;
                assert(before[i].key != x);
            }
            assert(occurrences(front, x) == 0);
        }
        assert forall|i: int, j: int| 0 <= i < j < t.len() implies (#[trigger] t[i]).key != (
        #[trigger] t[j]).key by {
            if j < before.len() {
                assert(before[i].key != before[j].key);
            } else {
                assert(before[i].key != x);
            }
        }
        assert forall|i: int| 0 <= i < t.len() implies (#[trigger] t[i]).count == occurrences(
            keys,
            t[i].key,
        ) && t[i].count > 0 by {
            if i < before.len() {
                assert(before[i].count == occurrences(front, before[i].key));
                if i != k && k < before.len() {
                    if i < k {
                        assert(before[i].key != before[k].key);
                    } else {
                        assert(before[k].key != before[i].key);
                    }
                }
            }
        }
        assert forall|y: Seq<char>| #[trigger] keys.contains(y) implies exists|i: int|
            0 <= i < t.len() && (#[trigger] t[i]).key == y by {
            if y == x {
                if k < before.len() {
                    assert(t[k].key == y);
                } else {
                    assert(t[before.len() as int].key == y);
                }
            } else {
                let m = choose|m: int| 0 <= m < keys.len() && keys[m] == y;
                assert(front[m] == y);
                assert(front.contains(y));
                let i = choose|i: int| 0 <= i < before.len() && (#[trigger] before[i]).key == y;
                assert(t[i].key == y);
            }
        }
    }
}

/// Law: a breakdown has one row for each key and no other, with the number of times that the
/// key occurs. What occurs more often comes first, and of two that occur as often the smaller
/// text.
pub proof fn breakdowns_count_each_key(keys: Seq<Seq<char>>, i: int, j: int, key: Seq<char>)
    ensures
        0 <= i < ranked(keys).len() ==> ranked(keys)[i].count == occurrences(
            keys,
            ranked(keys)[i].key,
        ) && keys.contains(ranked(keys)[i].key),
        keys.contains(key) ==> ranked(keys).contains(
            TallyView { key, count: occurrences(keys, key) },
        ),
        0 <= i < j < ranked(keys).len() ==> ranked(keys)[j].count < ranked(keys)[i].count || (
        ranked(keys)[j].count == ranked(keys)[i].count && !crate::query::text_lt(
            ranked(keys)[j].key,
            ranked(keys)[i].key,
        )),
        ranked(keys).len() == tallied(keys).len(),
{
    let t = tallied(keys);
    let r = ranked(keys);
    let le = |a: TallyView, b: TallyView| tally_le(a, b);
    lemma_text_order();
    lemma_tallies(keys);
    assert(crate::sort::is_total(le));
    assert(crate::sort::is_transitive(le));
    crate::sort::sorting_orders(t, le);
    crate::sort::sorting_keeps_items(t, le);
    if 0 <= i < r.len() {
        crate::sort::sorting_keeps_each(t, le, r[i]);
        assert(r.contains(r[i]));
        let m = choose|m: int| 0 <= m < t.len() && t[m] == r[i];
        assert(t[m].count == occurrences(keys, t[m].key));
        lemma_occurs(keys, t[m].key);
    }
    if keys.contains(key) {
        let m = choose|m: int| 0 <= m < t.len() && (#[trigger] t[m]).key == key;
        let x = TallyView { key, count: occurrences(keys, key) };
        assert(t[m] == x);
        assert(t.contains(x));
        crate::sort::sorting_keeps_each(t, le, x);
    }
    if 0 <= i < j < r.len() {
        assert(le(r[i], r[j]));
        if r[j].count == r[i].count {
            crate::query::lemma_text_le_or_lt(r[i].key, r[j].key);
        }
    }
}

/// Law: the largest of some counts is one of them, and none is larger.
pub proof fn largest_is_the_largest(counts: Seq<usize>, k: int)
    requires
        0 <= k < counts.len(),
    ensures
        counts[k] <= largest(counts),
        counts.contains(largest(counts)),
    decreases counts.len(),
{
    let front = counts.drop_last();
    if front.len() > 0 {
        largest_is_the_largest(
            front,
            if k < front.len() {
                k
            } else {
                0
            },
        );
        if largest(counts) == largest(front) {
            let m = choose|m: int| 0 <= m < front.len() && front[m] == largest(front);
            assert(counts[m] == largest(counts));
        } else {
            assert(counts[counts.len() - 1] == largest(counts));
        }
    } else {
        assert(largest(front) == 0);
        assert(counts[0] == largest(counts));
    }
}

/// Law: in a sparkline a larger count has no lower bar, a count of none is a blank, and any
/// other count is not.
pub proof fn bars_grow_with_the_counts(counts: Seq<usize>, i: int, j: int)
    requires
        0 <= i < counts.len(),
        0 <= j < counts.len(),
        counts[i] <= counts[j],
    ensures
        spark(counts).len() == counts.len(),
        spark(counts)[i] == ' ' <==> counts[i] == 0,
        counts[i] > 0 ==> '▁' as u32 <= spark(counts)[i] as u32 <= spark(counts)[j] as u32,
        spark(counts)[j] as u32 <= '█' as u32,
        counts[i] > 0 && counts[i] * 8 <= counts[j] ==> spark(counts)[i] == '▁',
{
    largest_is_the_largest(counts, i);
    largest_is_the_largest(counts, j);
    let a = counts[i] as int;
    let b = counts[j] as int;
    let m = largest(counts) as int;
    if a > 0 {
        assert(0 <= a * 7 / m <= b * 7 / m <= 7) by (nonlinear_arith)
            requires
                0 < a <= b <= m,
        ;
        if a * 8 <= b {
            assert(a * 7 / m == 0) by (nonlinear_arith)
                requires
                    0 < a,
                    a * 8 <= b,
                    b <= m,
            ;
        }
    } else if b > 0 {
        assert(0 <= b * 7 / m <= 7) by (nonlinear_arith)
            requires
                0 < b <= m,
        ;
    }
}

/// Law: a bar is as long as its share of the longest, which is twenty-four.
pub proof fn bars_show_their_share(count: int, max: int)
    requires
        0 <= count <= max,
        0 < max,
    ensures
        bar_length(max, max) == 24,
        bar_length(0, max) == 0,
        bar_length(count, max) * max <= count * 24 < (bar_length(count, max) + 1) * max,
{
    let q = count * 24 / max;
    assert(q * max <= count * 24 < (q + 1) * max) by (nonlinear_arith)
        requires
            q == count * 24 / max,
            0 < max,
    ;
    assert(max * 24 / max == 24) by (nonlinear_arith)
        requires
            0 < max,
    ;
    assert(0int * 24 / max == 0) by (nonlinear_arith)
        requires
            0 < max,
    ;
}

/// Law: the buckets begin at the full hour or day in which the window begins and go on to the
/// one in which it ends, unless that would be more than four hundred.
pub proof fn buckets_span_the_window(bucket: Bucket, since: Timestamp, end: Timestamp)
    requires
        since.le(end),
    ensures
        ({
            let step = if bucket == Bucket::Hour {
                3_600
            } else {
                86_400int
            };
            let start = bucket_start(bucket, since);
            let n = bucket_total(bucket, since, end);
            &&& start % step == 0
            &&& start <= since.spec_secs() < start + step
            &&& 1 <= n <= 400
            &&& n < 400 ==> start + (n - 1) * step <= end.spec_secs() < start + n * step
            &&& n == 400 ==> start + 399 * step <= end.spec_secs()
        }),
{
    let step = bucket.seconds();
    let s = since.spec_secs();
    let q = s / step;
    let start = bucket_start(bucket, since);
    assert(start == q * step && start % step == 0 && start <= s < start + step) by (nonlinear_arith)
        requires
            q == s / step,
            start == q * step,
            step > 0,
    ;
    let len = end.spec_secs() - start;
    let m = len / step;
    assert(m * step <= len < (m + 1) * step && m >= 0) by (nonlinear_arith)
        requires
            len >= 0,
            m == len / step,
            step > 0,
    ;
    if m + 1 >= 400 {
        assert(399 * step <= len) by (nonlinear_arith)
            requires
                m >= 399,
                m * step <= len,
                step > 0,
        ;
    }
}

/// Law: a bucket counts the events of its own hour or day up to the end of the window, and no
/// other. Events in leap seconds are left out here.
pub proof fn buckets_count_their_own_events(
    events: Seq<EventView>,
    bucket: Bucket,
    since: Timestamp,
    end: Timestamp,
    k: int,
)
    requires
        is_instant(since.spec_secs(), since.spec_nanos()),
        k >= 0,
        forall|i: int| 0 <= i < events.len() ==> (#[trigger] events[i]).timestamp.is_plain(),
    ensures
        ({
            let step = if bucket == Bucket::Hour {
                3_600
            } else {
                86_400int
            };
            let from = bucket_start(bucket, since) + k * step;
            bucket_count(events, bucket, first_instant(bucket, since), end, k) == events.filter(
                |e: EventView|
                    from <= e.timestamp.spec_secs() < from + step && e.timestamp.le(end),
            ).len()
        }),
    decreases events.len(),
{
    reveal(Seq::filter);
    if events.len() > 0 {
        let front = events.drop_last();
        let e = events.last();
        assert(events[events.len() - 1] == e);
        assert forall|i: int| 0 <= i < front.len() implies (
        #[trigger] front[i]).timestamp.is_plain() by {
            assert(front[i] == events[i]);
        }
        buckets_count_their_own_events(front, bucket, since, end, k);
        let start = first_instant(bucket, since);
        let step = bucket.seconds();
        lemma_start_in_range(bucket, since);
        Timestamp::lemma_instant_at(bucket_start(bucket, since));
        e.timestamp.lemma_nanos();
        let o = offset(e.timestamp, start);
        assert(o >= 0 && o / step == k <==> k * step <= o < k * step + step) by (nonlinear_arith)
            requires
                step > 0,
                k >= 0,
        ;
        assert(k * step >= 0) by (nonlinear_arith)
            requires
                step > 0,
                k >= 0,
        ;
    }
}

/// Law: the sessions of some events are those that the events name.
pub proof fn sessions_are_those_of_the_events(events: Seq<EventView>, s: Seq<char>)
    ensures
        session_keys(events).contains(s) <==> exists|k: int|
            0 <= k < events.len() && (#[trigger] events[k]).key() == Some(s),
        session_keys(events).len() <= events.len(),
    decreases events.len(),
{
    if events.len() > 0 {
        let front = events.drop_last();
        let before = session_keys(front);
        let r = session_keys(events);
        sessions_are_those_of_the_events(front, s);
        assert(events[events.len() - 1] == events.last());
        assert forall|k: int| 0 <= k < front.len() implies #[trigger] front[k] == events[k] by {}
        if r.contains(s) {
            let m = choose|m: int| 0 <= m < r.len() && r[m] == s;
            if m < before.len() {
                assert(before[m] == s);
                let k = choose|k: int| 0 <= k < front.len() && (#[trigger] front[k]).key() == Some(s);
                assert(events[k].key() == Some(s));
            }
        }
        if exists|k: int| 0 <= k < events.len() && (#[trigger] events[k]).key() == Some(s) {
            let k = choose|k: int| 0 <= k < events.len() && (#[trigger] events[k]).key() == Some(s);
            if k < front.len() {
                assert(front[k].key() == Some(s));
                let m = choose|m: int| 0 <= m < before.len() && before[m] == s;
                assert(r[m] == s);
            } else {
                assert(r[before.len() as int] == s);
            }
        }
    }
}

/// Every row of a breakdown counts something.
pub proof fn largest_tally_is_positive(keys: Seq<Seq<char>>, i: int)
    requires
        0 <= i < ranked(keys).len(),
    ensures
        ranked(keys)[i].count > 0,
        ranked(keys)[0].count > 0,
{
    breakdowns_count_each_key(keys, i, i, seq![]);
    breakdowns_count_each_key(keys, 0, 0, seq![]);
    lemma_occurs(keys, ranked(keys)[i].key);
    lemma_occurs(keys, ranked(keys)[0].key);
}

} // verus!
