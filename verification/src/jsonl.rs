//! Files that hold one value on each line and grow at the end only.
use crate::text::{is_blank, is_blank_text, lines_of, split_lines, split_on, without_cr};
use vstd::prelude::*;

verus! {

/// A line of a file that is not blank, with its number from 1.
#[derive(Clone, Debug)]
pub struct LogLine {
    pub number: usize,
    pub text: String,
}

pub struct LogLineView {
    pub number: int,
    pub text: Seq<char>,
}

impl DeepView for LogLine {
    type V = LogLineView;

    open spec fn deep_view(&self) -> LogLineView {
        LogLineView { number: self.number as int, text: self.text@ }
    }
}

/// The lines that are not blank, each with its number.
pub open spec fn numbered(lines: Seq<Seq<char>>) -> Seq<LogLineView>
    decreases lines.len(),
{
    if lines.len() == 0 {
        seq![]
    } else {
        let rest = numbered(lines.drop_last());
        if is_blank_text(lines.last()) {
            rest
        } else {
            rest.push(LogLineView { number: lines.len() as int, text: lines.last() })
        }
    }
}

/// The lines of a file's content that hold a value.
pub fn content_lines(content: &str) -> (r: Vec<LogLine>)
    ensures
        r.deep_view() == numbered(lines_of(content@)),
{
    let lines = split_lines(content);
    let ghost d = lines.deep_view();
    let mut r: Vec<LogLine> = Vec::new();
    let mut i: usize = 0;
    assert(r.deep_view() =~= numbered(d.take(0)));
    while i < lines.len()
        invariant
            i <= lines.len(),
            d == lines.deep_view(),
            r.deep_view() == numbered(d.take(i as int)),
        decreases lines.len() - i,
    {
        let ghost before = r.deep_view();
        assert(d.take(i + 1).drop_last() =~= d.take(i as int));
        assert(d.take(i + 1).last() == lines@[i as int]@);
        if !is_blank(&lines[i]) {
            let line = LogLine { number: i + 1, text: lines[i].clone() };
            let ghost lv = line.deep_view();
            r.push(line);
            assert(r.deep_view() =~= before.push(lv));
        }
        i += 1;
    }
    assert(d.take(d.len() as int) =~= d);
    r
}

/// What is appended to the file for one value.
pub open spec fn framed(line: Seq<char>) -> Seq<char> {
    line.push('\n')
}

pub fn frame_line(line: &str) -> (r: String)
    ensures
        r@ == framed(line@),
{
    let mut r = line.to_owned();
    r.push('\n');
    r
}

/// A content that was written line by line: empty, or with a line end at its end.
pub open spec fn is_framed(content: Seq<char>) -> bool {
    content.len() == 0 || content.last() == '\n'
}

/// A text that can stand on a line of its own: not blank, without a line end inside and
/// without a carriage return at its end.
pub open spec fn is_line(s: Seq<char>) -> bool {
    &&& !is_blank_text(s)
    &&& !s.contains('\n')
    &&& s.len() > 0
    &&& s.last() != '\r'
}

proof fn lemma_split_append(content: Seq<char>, line: Seq<char>)
    requires
        !line.contains('\n'),
    ensures
        split_on(content + line, '\n') == split_on(content, '\n').drop_last().push(
            split_on(content, '\n').last() + line,
        ),
    decreases line.len(),
{
    let p = split_on(content, '\n');
    crate::text::lemma_split_on_nonempty(content, '\n');
    if line.len() == 0 {
        assert(content + line =~= content);
        assert(p.last() + line =~= p.last());
        assert(p.drop_last().push(p.last()) =~= p);
    } else {
        let s = content + line;
        let front = line.drop_last();
        assert(s.drop_last() =~= content + front);
        assert(line[line.len() - 1] == line.last());
        assert forall|i: int| 0 <= i < front.len() implies front[i] != '\n' by {
            assert(line[i] == front[i]);
        }
        lemma_split_append(content, front);
        let q = split_on(content + front, '\n');
        assert(q.drop_last() =~= p.drop_last());
        assert((p.last() + front).push(line.last()) =~= p.last() + line);
        assert(s.last() == line.last());
    }
}

proof fn lemma_split_last_empty(content: Seq<char>)
    requires
        is_framed(content),
    ensures
        split_on(content, '\n').len() >= 1,
        split_on(content, '\n').last() == Seq::<char>::empty(),
{
    crate::text::lemma_split_on_nonempty(content, '\n');
}

/// The lines of a content that was written line by line, and one more.
proof fn lemma_append(content: Seq<char>, line: Seq<char>)
    requires
        is_framed(content),
        !line.contains('\n'),
    ensures
        lines_of(content + framed(line)) == lines_of(content).push(without_cr(line)),
        is_framed(content + framed(line)),
{
    let p = split_on(content, '\n');
    lemma_split_append(content, line);
    lemma_split_last_empty(content);
    let whole = content + framed(line);
    assert(whole.drop_last() =~= content + line);
    assert(whole.last() == '\n');
    assert(p.last() + line =~= line);
    let q = split_on(whole, '\n');
    assert(q =~= p.drop_last().push(line).push(Seq::empty()));
    assert(lines_of(whole) =~= lines_of(content).push(without_cr(line)));
}

/// What was appended to a log is read back: the earlier lines as before, then the new one.
pub proof fn appended_line_reads_back(content: Seq<char>, line: Seq<char>)
    requires
        is_framed(content),
        is_line(line),
    ensures
        lines_of(content + framed(line)) == lines_of(content).push(line),
        numbered(lines_of(content + framed(line))) == numbered(lines_of(content)).push(
            LogLineView { number: lines_of(content).len() as int + 1, text: line },
        ),
        is_framed(content + framed(line)),
{
    lemma_append(content, line);
    assert(without_cr(line) == line);
    assert(lines_of(content).push(line).drop_last() =~= lines_of(content));
}

// --------------------------------------------------------------- parsed values

/// The values that were read, in order.
pub open spec fn well_formed<V>(parsed: Seq<Option<V>>) -> Seq<V>
    decreases parsed.len(),
{
    if parsed.len() == 0 {
        seq![]
    } else {
        match parsed.last() {
            Some(v) => well_formed(parsed.drop_last()).push(v),
            None => well_formed(parsed.drop_last()),
        }
    }
}

/// The numbers of the lines that could not be read.
pub open spec fn skipped_numbers<V>(lines: Seq<LogLineView>, parsed: Seq<Option<V>>) -> Seq<usize>
    decreases parsed.len(),
{
    if parsed.len() == 0 {
        seq![]
    } else {
        let rest = skipped_numbers(lines.drop_last(), parsed.drop_last());
        if parsed.last() is None {
            rest.push(lines.last().number as usize)
        } else {
            rest
        }
    }
}

/// Each line was read as `parse` reads its text.
pub open spec fn parses<V>(
    lines: Seq<LogLineView>,
    parsed: Seq<Option<V>>,
    parse: spec_fn(Seq<char>) -> Option<V>,
) -> bool {
    &&& parsed.len() == lines.len()
    &&& forall|i: int| 0 <= i < lines.len() ==> parse((#[trigger] lines[i]).text) == parsed[i]
}

/// The values that `parse` reads from some lines, in order.
pub open spec fn values_in<V>(
    lines: Seq<LogLineView>,
    parse: spec_fn(Seq<char>) -> Option<V>,
) -> Seq<V> {
    well_formed(Seq::new(lines.len(), |i: int| parse(lines[i].text)))
}

/// The values of a log, in file order.
pub open spec fn log_values<V>(
    content: Seq<char>,
    parse: spec_fn(Seq<char>) -> Option<V>,
) -> Seq<V> {
    values_in(numbered(lines_of(content)), parse)
}

/// Parts the values that were read from the numbers of the lines that were not.
pub fn keep_well_formed<T: DeepView>(lines: &Vec<LogLine>, parsed: Vec<Option<T>>) -> (r: (
    Vec<T>,
    Vec<usize>,
))
    requires
        lines.len() == parsed.len(),
    ensures
        r.0.deep_view() == well_formed(parsed.deep_view()),
        r.1@ == skipped_numbers(lines.deep_view(), parsed.deep_view()),
        forall|parse: spec_fn(Seq<char>) -> Option<T::V>| #[trigger]
            parses(lines.deep_view(), parsed.deep_view(), parse) ==> r.0.deep_view() == values_in(
                lines.deep_view(),
                parse,
            ),
{
    let ghost d = parsed.deep_view();
    proof {
        assert forall|parse: spec_fn(Seq<char>) -> Option<T::V>| #[trigger]
            parses(lines.deep_view(), d, parse) implies well_formed(d) == values_in(
            lines.deep_view(),
            parse,
        ) by {
            let all = lines.deep_view();
            assert(d =~= Seq::new(all.len(), |i: int| parse(all[i].text)));
        }
    }
    let ghost l = lines.deep_view();
    let mut kept: Vec<T> = Vec::new();
    let mut skipped: Vec<usize> = Vec::new();
    let mut i: usize = 0;
    assert(kept.deep_view() =~= well_formed(d.take(0)));
    for x in it: parsed
        invariant
            i == it.index(),
            it.seq().len() == lines.len(),
            d == Seq::new(it.seq().len(), |k: int| it.seq()[k].deep_view()),
            l == lines.deep_view(),
            kept.deep_view() == well_formed(d.take(i as int)),
            skipped@ == skipped_numbers(l.take(i as int), d.take(i as int)),
    {
        let ghost before = kept.deep_view();
        assert(d.take(i + 1).drop_last() =~= d.take(i as int));
        assert(l.take(i + 1).drop_last() =~= l.take(i as int));
        assert(d[i as int] == x.deep_view());
        match x {
            Some(v) => {
                kept.push(v);
                assert(kept.deep_view() =~= before.push(v.deep_view()));
            },
            None => skipped.push(lines[i].number),
        }
        i += 1;
    }
    assert(d.take(d.len() as int) =~= d);
    assert(l.take(l.len() as int) =~= l);
    (kept, skipped)
}

/// A log in which every line can be read loses nothing.
pub proof fn well_formed_keeps_all<V>(values: Seq<V>)
    ensures
        well_formed(Seq::new(values.len(), |i: int| Some(values[i]))) == values,
    decreases values.len(),
{
    let all = Seq::new(values.len(), |i: int| Some(values[i]));
    if values.len() > 0 {
        let front = values.drop_last();
        well_formed_keeps_all(front);
        assert(all.drop_last() =~= Seq::new(front.len(), |i: int| Some(front[i])));
        assert(front.push(values.last()) =~= values);
    }
}

/// What a line adds to the values of a log: one, or none where it is blank or malformed.
pub open spec fn line_values<V>(
    line: Seq<char>,
    parse: spec_fn(Seq<char>) -> Option<V>,
) -> Seq<V> {
    let text = without_cr(line);
    if is_blank_text(text) {
        seq![]
    } else {
        match parse(text) {
            Some(v) => seq![v],
            None => seq![],
        }
    }
}

/// Lines as they are written, one after the other.
pub open spec fn framed_all(lines: Seq<Seq<char>>) -> Seq<char>
    decreases lines.len(),
{
    if lines.len() == 0 {
        seq![]
    } else {
        framed_all(lines.drop_last()) + framed(lines.last())
    }
}

/// What some lines add to the values of a log.
pub open spec fn lines_values<V>(
    lines: Seq<Seq<char>>,
    parse: spec_fn(Seq<char>) -> Option<V>,
) -> Seq<V>
    decreases lines.len(),
{
    if lines.len() == 0 {
        seq![]
    } else {
        lines_values(lines.drop_last(), parse) + line_values(lines.last(), parse)
    }
}

/// A line that is appended to a log leaves the values that were there, malformed lines among
/// them or not, and adds its own at the end.
pub proof fn appended_line_adds_its_value<V>(
    content: Seq<char>,
    line: Seq<char>,
    parse: spec_fn(Seq<char>) -> Option<V>,
)
    requires
        is_framed(content),
        !line.contains('\n'),
    ensures
        log_values(content + framed(line), parse) == log_values(content, parse) + line_values(
            line,
            parse,
        ),
        is_framed(content + framed(line)),
{
    let text = without_cr(line);
    let old_lines = lines_of(content);
    let before = numbered(old_lines);
    let after = numbered(lines_of(content + framed(line)));
    lemma_append(content, line);
    assert(old_lines.push(text).drop_last() =~= old_lines);
    let old_parsed = Seq::new(before.len(), |i: int| parse(before[i].text));
    let parsed = Seq::new(after.len(), |i: int| parse(after[i].text));
    if is_blank_text(text) {
        assert(after == before);
        assert(well_formed(old_parsed) + seq![] =~= well_formed(old_parsed));
    } else {
        assert(after.drop_last() =~= before);
        assert(parsed.drop_last() =~= old_parsed);
        assert(parsed.last() == parse(text));
        match parse(text) {
            Some(v) => {
                assert(well_formed(old_parsed) + seq![v] =~= well_formed(old_parsed).push(v));
            },
            None => {
                assert(well_formed(old_parsed) + seq![] =~= well_formed(old_parsed));
            },
        }
    }
}

/// Lines that are appended to a log one after the other leave the values that were there and
/// add their own at the end.
pub proof fn appended_lines_add_their_values<V>(
    content: Seq<char>,
    lines: Seq<Seq<char>>,
    parse: spec_fn(Seq<char>) -> Option<V>,
)
    requires
        is_framed(content),
        forall|i: int| 0 <= i < lines.len() ==> !(#[trigger] lines[i]).contains('\n'),
    ensures
        log_values(content + framed_all(lines), parse) == log_values(content, parse)
            + lines_values(lines, parse),
        is_framed(content + framed_all(lines)),
    decreases lines.len(),
{
    if lines.len() == 0 {
        assert(content + framed_all(lines) =~= content);
        assert(log_values(content, parse) + lines_values(lines, parse) =~= log_values(
            content,
            parse,
        ));
    } else {
        let front = lines.drop_last();
        assert(lines.last() == lines[lines.len() - 1]);
        assert forall|i: int| 0 <= i < front.len() implies !(#[trigger] front[i]).contains('\n') by {
            assert(front[i] == lines[i]);
        }
        appended_lines_add_their_values(content, front, parse);
        let longer = content + framed_all(front);
        appended_line_adds_its_value(longer, lines.last(), parse);
        assert(content + framed_all(lines) =~= longer + framed(lines.last()));
        assert(log_values(content, parse) + lines_values(front, parse) + line_values(
            lines.last(),
            parse,
        ) =~= log_values(content, parse) + lines_values(lines, parse));
    }
}

/// A value that is appended to a log is read back behind all that was there, whatever blank or
/// malformed lines follow it.
pub proof fn appended_value_reads_back<V>(
    content: Seq<char>,
    line: Seq<char>,
    rest: Seq<Seq<char>>,
    parse: spec_fn(Seq<char>) -> Option<V>,
    v: V,
)
    requires
        is_framed(content),
        is_line(line),
        parse(line) == Some(v),
        forall|i: int|
            0 <= i < rest.len() ==> !(#[trigger] rest[i]).contains('\n') && line_values(
                rest[i],
                parse,
            ) == Seq::<V>::empty(),
    ensures
        log_values(content + framed(line) + framed_all(rest), parse) == log_values(
            content,
            parse,
        ).push(v),
{
    appended_line_adds_its_value(content, line, parse);
    assert(without_cr(line) == line);
    let longer = content + framed(line);
    assert forall|i: int| 0 <= i < rest.len() implies !(#[trigger] rest[i]).contains('\n') by {}
    appended_lines_add_their_values(longer, rest, parse);
    lemma_nothing_added(rest, parse);
    assert(log_values(content, parse) + seq![v] + Seq::<V>::empty() =~= log_values(
        content,
        parse,
    ).push(v));
}

proof fn lemma_nothing_added<V>(rest: Seq<Seq<char>>, parse: spec_fn(Seq<char>) -> Option<V>)
    requires
        forall|i: int|
            0 <= i < rest.len() ==> line_values(#[trigger] rest[i], parse) == Seq::<V>::empty(),
    ensures
        lines_values(rest, parse) == Seq::<V>::empty(),
    decreases rest.len(),
{
    if rest.len() > 0 {
        let front = rest.drop_last();
        assert(rest.last() == rest[rest.len() - 1]);
        assert forall|i: int| 0 <= i < front.len() implies line_values(#[trigger] front[i], parse)
            == Seq::<V>::empty() by {
            assert(front[i] == rest[i]);
        }
        lemma_nothing_added(front, parse);
        assert(Seq::<V>::empty() + Seq::<V>::empty() =~= Seq::<V>::empty());
    }
}

/// Law: a line is read if and only if it is not blank, and it keeps its number in the file,
/// counted from one.
pub proof fn lines_keep_their_numbers(lines: Seq<Seq<char>>, n: int, text: Seq<char>)
    ensures
        numbered(lines).contains(LogLineView { number: n, text }) <==> 1 <= n <= lines.len()
            && lines[n - 1] == text && !is_blank_text(text),
        numbered(lines).len() <= lines.len(),
    decreases lines.len(),
{
    let x = LogLineView { number: n, text };
    let r = numbered(lines);
    if lines.len() > 0 {
        let front = lines.drop_last();
        let before = numbered(front);
        lines_keep_their_numbers(front, n, text);
        assert(n < lines.len() && n >= 1 ==> front[n - 1] == lines[n - 1]);
        if r.contains(x) {
            let m = choose|m: int| 0 <= m < r.len() && r[m] == x;
            if m < before.len() {
                assert(before[m] == x);
            }
        }
        if 1 <= n <= lines.len() && lines[n - 1] == text && !is_blank_text(text) {
            if n < lines.len() {
                let m = choose|m: int| 0 <= m < before.len() && before[m] == x;
                assert(r[m] == x);
            } else {
                assert(r[before.len() as int] == x);
            }
        }
    }
}

/// Law: the values of a log are those that were read, and no other.
pub proof fn read_values_are_kept<V>(parsed: Seq<Option<V>>, v: V)
    ensures
        well_formed(parsed).contains(v) <==> parsed.contains(Some(v)),
        well_formed(parsed).len() <= parsed.len(),
    decreases parsed.len(),
{
    let r = well_formed(parsed);
    if parsed.len() > 0 {
        let front = parsed.drop_last();
        let before = well_formed(front);
        read_values_are_kept(front, v);
        if r.contains(v) {
            let m = choose|m: int| 0 <= m < r.len() && r[m] == v;
            if m < before.len() {
                assert(before[m] == v);
                let k = choose|k: int| 0 <= k < front.len() && front[k] == Some(v);
                assert(parsed[k] == Some(v));
            } else {
                assert(parsed[parsed.len() - 1] == Some(v));
            }
        }
        if parsed.contains(Some(v)) {
            let k = choose|k: int| 0 <= k < parsed.len() && parsed[k] == Some(v);
            if k < front.len() {
                assert(front[k] == Some(v));
                let m = choose|m: int| 0 <= m < before.len() && before[m] == v;
                assert(r[m] == v);
            } else {
                assert(r[before.len() as int] == v);
            }
        }
    }
}

/// Law: a line that could not be read is told by its number, and only such a line is.
pub proof fn unread_lines_are_told<V>(
    lines: Seq<LogLineView>,
    parsed: Seq<Option<V>>,
    n: usize,
)
    requires
        lines.len() == parsed.len(),
        forall|k: int| 0 <= k < lines.len() ==> 0 <= (#[trigger] lines[k]).number <= usize::MAX,
    ensures
        skipped_numbers(lines, parsed).contains(n) <==> exists|k: int|
            0 <= k < lines.len() && (#[trigger] lines[k]).number == n && parsed[k] is None,
        skipped_numbers(lines, parsed).len() + well_formed(parsed).len() == lines.len(),
    decreases parsed.len(),
{
    let r = skipped_numbers(lines, parsed);
    if parsed.len() > 0 {
        let front = lines.drop_last();
        let before = skipped_numbers(front, parsed.drop_last());
        assert forall|k: int| 0 <= k < front.len() implies 0 <= (#[trigger] front[k]).number
            <= usize::MAX by {
            assert(front[k] == lines[k]);
        }
        unread_lines_are_told(front, parsed.drop_last(), n);
        let last = lines.len() - 1;
        assert(lines[last] == lines.last());
        if r.contains(n) {
            let m = choose|m: int| 0 <= m < r.len() && r[m] == n;
            if m < before.len() {
                assert(before[m] == n);
                let k = choose|k: int|
                    0 <= k < front.len() && (#[trigger] front[k]).number == n
                        && parsed.drop_last()[k] is None;
                assert(lines[k].number == n && parsed[k] is None);
            } else {
                assert(lines[last].number == n && parsed[last] is None);
            }
        }
        if exists|k: int|
            0 <= k < lines.len() && (#[trigger] lines[k]).number == n && parsed[k] is None {
            let k = choose|k: int|
                0 <= k < lines.len() && (#[trigger] lines[k]).number == n && parsed[k] is None;
            if k < last {
                assert(front[k].number == n && parsed.drop_last()[k] is None);
                let m = choose|m: int| 0 <= m < before.len() && before[m] == n;
                assert(r[m] == n);
            } else {
                assert(r[before.len() as int] == n);
            }
        }
    }
}

} // verus!
