//! Dates as users write them: an instant, a calendar day, or so many units ago.
use crate::error::{Error, ErrorView};
use crate::text::{
    decimal, decimal_reads_back, is_digit, is_space, lemma_decimal_value, lowercased, parse_i64,
    parsed_i64, same_text, split_words, to_lowercase, trim_end_matches, trimmed_end_of,
    words_are_parted_by_space, words_of,
};
use crate::time::{calendar_day_start, rfc3339_instant, Timestamp, MAX_SECS, MIN_SECS};
use vstd::prelude::*;

verus! {

#[derive(Clone, Copy, Debug, PartialEq, Eq, Structural)]
pub enum TimeUnit {
    Hour,
    Day,
    Week,
    /// Thirty days.
    Month,
}

/// A date as it was written.
#[derive(Clone, Copy, Debug, PartialEq, Eq, Structural)]
pub enum DateExpr {
    At(Timestamp),
    Ago { count: i64, unit: TimeUnit },
}

impl TimeUnit {
    pub open spec fn seconds(self) -> int {
        match self {
            TimeUnit::Hour => 3_600,
            TimeUnit::Day => 86_400,
            TimeUnit::Week => 604_800,
            TimeUnit::Month => 2_592_000,
        }
    }

    /// The unit that a lower-case word names, in the singular or the plural.
    pub open spec fn named(word: Seq<char>) -> Option<TimeUnit> {
        let w = trimmed_end_of(word, 's');
        if w == "hour"@ {
            Some(TimeUnit::Hour)
        } else if w == "day"@ {
            Some(TimeUnit::Day)
        } else if w == "week"@ {
            Some(TimeUnit::Week)
        } else if w == "month"@ {
            Some(TimeUnit::Month)
        } else {
            None
        }
    }

    pub fn from_word(word: &str) -> (r: Option<TimeUnit>)
        ensures
            r == TimeUnit::named(word@),
    {
        let w = trim_end_matches(word, 's');
        if same_text(&w, "hour") {
            Some(TimeUnit::Hour)
        } else if same_text(&w, "day") {
            Some(TimeUnit::Day)
        } else if same_text(&w, "week") {
            Some(TimeUnit::Week)
        } else if same_text(&w, "month") {
            Some(TimeUnit::Month)
        } else {
            None
        }
    }
}

/// What a text says as a date, or what is wrong with it.
pub open spec fn date_expr(s: Seq<char>) -> Result<DateExpr, ErrorView> {
    match rfc3339_instant(s) {
        Some(t) => Ok(DateExpr::At(t)),
        None => match calendar_day_start(s) {
            Some(t) => Ok(DateExpr::At(t)),
            None => {
                let parts = words_of(s);
                if parts.len() == 2 && parsed_i64(parts[0]) is Some {
                    match TimeUnit::named(lowercased(parts[1])) {
                        Some(unit) => Ok(
                            DateExpr::Ago { count: parsed_i64(parts[0])->0 as i64, unit },
                        ),
                        None => Err(
                            ErrorView::Other(
                                "Unknown time unit: "@ + lowercased(parts[1])
                                    + ". Use hour(s), day(s), week(s), month(s)"@,
                            ),
                        ),
                    }
                } else {
                    Err(
                        ErrorView::Other(
                            "Cannot parse date: '"@ + s
                                + "'. Use ISO format (2024-01-15) or relative (1 week, 2 days)"@,
                        ),
                    )
                }
            },
        },
    }
}

/// Reads a date.
pub fn parse_date_expr(s: &str) -> (r: Result<DateExpr, Error>)
    ensures
        match date_expr(s@) {
            Ok(d) => r == Ok::<DateExpr, Error>(d),
            Err(e) => r is Err && r->Err_0@ == e,
        },
{
    match Timestamp::parse_rfc3339(s) {
        Some(t) => return Ok(DateExpr::At(t)),
        None => {},
    }
    match Timestamp::parse_calendar_day(s) {
        Some(t) => return Ok(DateExpr::At(t)),
        None => {},
    }
    let parts = split_words(s);
    if parts.len() == 2 {
        assert(parts.deep_view()[0] == parts@[0]@);
        assert(parts.deep_view()[1] == parts@[1]@);
        match parse_i64(&parts[0]) {
            Some(count) => {
                let word = to_lowercase(&parts[1]);
                match TimeUnit::from_word(&word) {
                    Some(unit) => return Ok(DateExpr::Ago { count, unit }),
                    None => {
                        let mut m = "Unknown time unit: ".to_owned();
                        m.append(&word);
                        m.append(". Use hour(s), day(s), week(s), month(s)");
                        return Err(Error::Other(m));
                    },
                }
            },
            None => {},
        }
    }
    let mut m = "Cannot parse date: '".to_owned();
    m.append(s);
    m.append("'. Use ISO format (2024-01-15) or relative (1 week, 2 days)");
    Err(Error::Other(m))
}

impl DateExpr {
    /// The instant that is meant at `now`, where it is within the range of instants.
    pub fn resolve(&self, now: Timestamp) -> (r: Option<Timestamp>)
        requires
            now.is_plain(),
        ensures
            match *self {
                DateExpr::At(t) => r == Some(t),
                DateExpr::Ago { count, unit } => {
                    let secs = now.spec_secs() - count * unit.seconds();
                    &&& r is Some <==> MIN_SECS <= secs <= MAX_SECS
                    &&& r is Some ==> r->0.spec_secs() == secs && r->0.spec_nanos()
                        == now.spec_nanos()
                },
            },
    {
        match *self {
            DateExpr::At(t) => Some(t),
            DateExpr::Ago { count, unit } => {
                let scale: i128 = match unit {
                    TimeUnit::Hour => 3_600,
                    TimeUnit::Day => 86_400,
                    TimeUnit::Week => 604_800,
                    TimeUnit::Month => 2_592_000,
                };
                assert(scale == unit.seconds());
                assert(-0x8000_0000_0000_0000 * 2_592_000 <= count * scale
                    <= 0x7FFF_FFFF_FFFF_FFFF * 2_592_000) by (nonlinear_arith)
                    requires
                        -0x8000_0000_0000_0000 <= count <= 0x7FFF_FFFF_FFFF_FFFF,
                        0 <= scale <= 2_592_000,
                ;
                let span: i128 = count as i128 * scale;
                let base: i64 = now.secs();
                let secs: i128 = base as i128 - span;
                if MIN_SECS as i128 <= secs && secs <= MAX_SECS as i128 {
                    Timestamp::new(secs as i64, now.nanos())
                } else {
                    None
                }
            },
        }
    }
}

/// The instant that a text stands for at `now`. `None` where that lies outside the range
/// of instants.
pub fn parse_date_at(s: &str, now: Timestamp) -> (r: Result<Option<Timestamp>, Error>)
    requires
        now.is_plain(),
    ensures
        match date_expr(s@) {
            Ok(DateExpr::At(t)) => r == Ok::<Option<Timestamp>, Error>(Some(t)),
            Ok(DateExpr::Ago { count, unit }) => {
                let secs = now.spec_secs() - count * unit.seconds();
                &&& r is Ok
                &&& r->Ok_0 is Some <==> MIN_SECS <= secs <= MAX_SECS
                &&& r->Ok_0 is Some ==> r->Ok_0->0.spec_secs() == secs && r->Ok_0->0.spec_nanos()
                    == now.spec_nanos()
            },
            Err(e) => r is Err && r->Err_0@ == e,
        },
{
    match parse_date_expr(s) {
        Ok(d) => Ok(d.resolve(now)),
        Err(e) => Err(e),
    }
}

/// The instant that a text stands for at the instant that the clock shows. `None` where that
/// lies outside the range of instants.
pub fn parse_date(s: &str) -> (r: Result<Option<Timestamp>, Error>)
    ensures
        match date_expr(s@) {
            Ok(DateExpr::At(t)) => r == Ok::<Option<Timestamp>, Error>(Some(t)),
            Ok(DateExpr::Ago { count, unit }) => r is Ok && exists|now: Timestamp|
                {
                    let secs = #[trigger] now.spec_secs() - count * unit.seconds();
                    &&& now.is_plain()
                    &&& r->Ok_0 is Some <==> MIN_SECS <= secs <= MAX_SECS
                    &&& r->Ok_0 is Some ==> r->Ok_0->0.spec_secs() == secs
                        && r->Ok_0->0.spec_nanos() == now.spec_nanos()
                },
            Err(e) => r is Err && r->Err_0@ == e,
        },
{
    let now = Timestamp::now();
    parse_date_at(s, now)
}

/// The word for a unit of time, in the singular.
pub open spec fn unit_word(unit: TimeUnit) -> Seq<char> {
    match unit {
        TimeUnit::Hour => seq!['h', 'o', 'u', 'r'],
        TimeUnit::Day => seq!['d', 'a', 'y'],
        TimeUnit::Week => seq!['w', 'e', 'e', 'k'],
        TimeUnit::Month => seq!['m', 'o', 'n', 't', 'h'],
    }
}

proof fn lemma_unit_word(unit: TimeUnit)
    ensures
        TimeUnit::named(unit_word(unit)) == Some(unit),
        TimeUnit::named(unit_word(unit).push('s')) == Some(unit),
{
    reveal_strlit("hour");
    reveal_strlit("day");
    reveal_strlit("week");
    reveal_strlit("month");
    let w = unit_word(unit);
    assert(w.push('s').drop_last() =~= w);
    assert("hour"@ =~= seq!['h', 'o', 'u', 'r']);
    assert("day"@ =~= seq!['d', 'a', 'y']);
    assert("week"@ =~= seq!['w', 'e', 'e', 'k']);
    assert("month"@ =~= seq!['m', 'o', 'n', 't', 'h']);
    assert(trimmed_end_of(w, 's') == w);
    assert(w[0] == 'h' || w[0] == 'd' || w[0] == 'w' || w[0] == 'm');
    assert("hour"@[0] == 'h' && "day"@[0] == 'd' && "week"@[0] == 'w' && "month"@[0] == 'm');
}

/// A week is seven days, a month thirty, and a day twenty-four hours.
pub proof fn units_of_time_fit()
    ensures
        TimeUnit::Hour.seconds() == 60 * 60,
        TimeUnit::Day.seconds() == 24 * TimeUnit::Hour.seconds(),
        TimeUnit::Week.seconds() == 7 * TimeUnit::Day.seconds(),
        TimeUnit::Month.seconds() == 30 * TimeUnit::Day.seconds(),
{
}

/// A number and a unit, in the singular or the plural, stand for so much time ago. Left out are
/// texts that are an instant or a day in themselves.
pub proof fn number_and_unit_mean_ago(n: nat, unit: TimeUnit, plural: bool)
    requires
        n <= 0x7FFF_FFFF_FFFF_FFFF,
    ensures
        ({
            let word = if plural {
                unit_word(unit).push('s')
            } else {
                unit_word(unit)
            };
            let s = decimal(n) + seq![' '] + word;
            lowercased(word) == word && rfc3339_instant(s) is None && calendar_day_start(s) is None
                ==> date_expr(s) == Ok::<DateExpr, ErrorView>(
                DateExpr::Ago { count: n as i64, unit },
            )
        }),
{
    let word = if plural {
        unit_word(unit).push('s')
    } else {
        unit_word(unit)
    };
    let d = decimal(n);
    lemma_decimal_value(n);
    lemma_unit_word(unit);
    assert forall|i: int| 0 <= i < d.len() implies !is_space(#[trigger] d[i]) by {
        assert(is_digit(d[i]));
    }
    assert forall|i: int| 0 <= i < word.len() implies !is_space(#[trigger] word[i]) by {}
    words_are_parted_by_space(d, word);
    assert(is_digit(d[0]));
    decimal_reads_back(n, 0x7FFF_FFFF_FFFF_FFFF);
}

/// An instant or a day stands for itself.
pub proof fn dates_stand_for_themselves(s: Seq<char>)
    ensures
        rfc3339_instant(s) matches Some(t) ==> date_expr(s) == Ok::<DateExpr, ErrorView>(
            DateExpr::At(t),
        ),
        rfc3339_instant(s) is None && calendar_day_start(s) is Some ==> date_expr(s) == Ok::<
            DateExpr,
            ErrorView,
        >(DateExpr::At(calendar_day_start(s)->0)),
{
}

} // verus!
