//! The Git attributes that make the logs merge without conflicts.
use crate::error::{Error, ErrorView};
use crate::jsonl::{is_framed, is_line};
use crate::text::{
    begins_with, decimal, decimal_text, ends_with, is_space, lines_of, same_text, split_lines,
    split_on, trim, trimmed, trimmed_end, trimmed_start, without_cr,
};
use vstd::prelude::*;

verus! {

/// Whether a content has that line, white space around it aside.
pub open spec fn has_line(content: Seq<char>, line: Seq<char>) -> bool {
    exists|i: int|
        0 <= i < lines_of(content).len() && trimmed(#[trigger] lines_of(content)[i]) == line
}

/// The content with a line at its end, on a line of its own.
pub open spec fn with_line(content: Seq<char>, line: Seq<char>) -> Seq<char> {
    if has_line(content, line) {
        content
    } else if content.len() == 0 || content.last() == '\n' {
        content + line + "\n"@
    } else {
        content + "\n"@ + line + "\n"@
    }
}

/// The content with those of the lines that it lacks.
pub open spec fn with_lines(content: Seq<char>, lines: Seq<Seq<char>>) -> Seq<char>
    decreases lines.len(),
{
    if lines.len() == 0 {
        content
    } else {
        with_line(with_lines(content, lines.drop_last()), lines.last())
    }
}

fn content_has_line(content: &str, line: &str) -> (r: bool)
    ensures
        r == has_line(content@, line@),
{
    let lines = split_lines(content);
    let mut i: usize = 0;
    while i < lines.len()
        invariant
            i <= lines.len(),
            lines.deep_view() == lines_of(content@),
            forall|j: int| 0 <= j < i ==> trimmed(#[trigger] lines_of(content@)[j]) != line@,
        decreases lines.len() - i,
    {
        assert(lines.deep_view()[i as int] == lines@[i as int]@);
        if same_text(&trim(&lines[i]), line) {
            return true;
        }
        i += 1;
    }
    false
}

/// Adds to the content of a file those of the lines that it lacks. `None` where it lacks
/// none, so that the file need not be written.
pub fn ensure_lines(content: &str, lines: &Vec<String>) -> (r: Option<String>)
    ensures
        match r {
            Some(new) => new@ == with_lines(content@, lines.deep_view()) && new@ != content@,
            None => with_lines(content@, lines.deep_view()) == content@,
        },
{
    let ghost d = lines.deep_view();
    let mut out = content.to_owned();
    let mut changed: bool = false;
    let mut i: usize = 0;
    while i < lines.len()
        invariant
            i <= lines.len(),
            d == lines.deep_view(),
            out@ == with_lines(content@, d.take(i as int)),
            out@.len() >= content@.len(),
            changed == (out@.len() != content@.len()),
            !changed ==> out@ == content@,
        decreases lines.len() - i,
    {
        assert(d.take(i + 1).drop_last() =~= d.take(i as int));
        assert(d.take(i + 1).last() == lines@[i as int]@);
        if !content_has_line(&out, &lines[i]) {
            proof {
                reveal_strlit("\n");
            }
            if !out.as_str().is_empty() && !ends_with(&out, "\n") {
                assert(out@.skip(out@.len() - 1)[0] == out@.last());
                assert(out@.last() != '\n') by {
                    if out@.last() == '\n' {
                        assert(out@.skip(out@.len() - 1) =~= "\n"@);
                    }
                }
                out.append("\n");
            } else {
                proof {
                    if out@.len() > 0 {
                        assert(out@.skip(out@.len() - 1)[0] == out@.last());
                    }
                }
            }
            out.append(&lines[i]);
            out.append("\n");
            changed = true;
        }
        i += 1;
    }
    assert(d.take(d.len() as int) =~= d);
    if changed {
        Some(out)
    } else {
        None
    }
}

/// The lines that make Git merge the logs by union.
pub open spec fn merge_attribute_lines() -> Seq<Seq<char>> {
    seq![
        ".trx/issues.jsonl text eol=lf merge=union"@,
        ".trx/events.jsonl text eol=lf merge=union"@,
    ]
}

/// The line that does so for the log of verification runs.
pub open spec fn verification_attribute_line() -> Seq<char> {
    ".trx/verifications.jsonl text eol=lf merge=union"@
}

/// The lines for the logs that every store has.
pub fn gitattributes_lines() -> (r: Vec<String>)
    ensures
        r.deep_view() == merge_attribute_lines(),
{
    let mut r: Vec<String> = Vec::new();
    r.push(".trx/issues.jsonl text eol=lf merge=union".to_owned());
    r.push(".trx/events.jsonl text eol=lf merge=union".to_owned());
    assert(r.deep_view() =~= merge_attribute_lines());
    r
}

/// The lines for all logs that are committed.
pub fn sync_attributes_lines() -> (r: Vec<String>)
    ensures
        r.deep_view() == merge_attribute_lines().push(verification_attribute_line()),
{
    let mut r = gitattributes_lines();
    let ghost before = r.deep_view();
    r.push(".trx/verifications.jsonl text eol=lf merge=union".to_owned());
    assert(r.deep_view() =~= before.push(verification_attribute_line()));
    r
}

// ----------------------------------------------------------------------- laws

/// A line that stands for itself: neither blank nor framed by white space, on one line.
pub open spec fn is_clean_line(line: Seq<char>) -> bool {
    line.len() > 0 && trimmed(line) == line && !line.contains('\n')
}

proof fn lemma_trimmed_start_len(s: Seq<char>)
    ensures
        trimmed_start(s).len() <= s.len(),
    decreases s.len(),
{
    if s.len() > 0 && is_space(s[0]) {
        lemma_trimmed_start_len(s.drop_first());
    }
}

proof fn lemma_trimmed_end_len(s: Seq<char>)
    ensures
        trimmed_end(s).len() <= s.len(),
    decreases s.len(),
{
    if s.len() > 0 && is_space(s.last()) {
        lemma_trimmed_end_len(s.drop_last());
    }
}

proof fn lemma_clean_line(line: Seq<char>)
    requires
        is_clean_line(line),
    ensures
        is_line(line),
{
    lemma_trimmed_start_len(line);
    lemma_trimmed_end_len(trimmed_start(line));
    if is_space(line[0]) {
        lemma_trimmed_start_len(line.drop_first());
    }
    assert(trimmed_start(line) == line);
    if is_space(line.last()) {
        lemma_trimmed_end_len(line.drop_last());
    }
}

proof fn lemma_trimmed_push_space(s: Seq<char>, c: char)
    requires
        is_space(c),
    ensures
        trimmed(s.push(c)) == trimmed(s),
    decreases s.len(),
{
    let t = s.push(c);
    if s.len() == 0 {
        assert(t.drop_first() =~= s);
        assert(t[0] == c);
        assert(trimmed_start(t) == trimmed_start(s));
    } else if is_space(s[0]) {
        assert(t.drop_first() =~= s.drop_first().push(c));
        lemma_trimmed_push_space(s.drop_first(), c);
    } else {
        assert(t.drop_last() =~= s);
    }
}

proof fn lemma_trimmed_without_cr(s: Seq<char>)
    ensures
        trimmed(without_cr(s)) == trimmed(s),
{
    if s.len() > 0 && s.last() == '\r' {
        lemma_trimmed_push_space(s.drop_last(), '\r');
        assert(s.drop_last().push('\r') =~= s);
    }
}

/// Ending the last line of a content leaves its lines as they were, white space aside.
proof fn lemma_end_last_line(content: Seq<char>)
    requires
        content.len() > 0,
        content.last() != '\n',
    ensures
        is_framed(content.push('\n')),
        lines_of(content.push('\n')).len() == lines_of(content).len(),
        forall|i: int|
            0 <= i < lines_of(content).len() ==> trimmed(
                #[trigger] lines_of(content.push('\n'))[i],
            ) == trimmed(lines_of(content)[i]),
{
    let whole = content.push('\n');
    crate::text::lemma_split_on_nonempty(content, '\n');
    let p = split_on(content, '\n');
    assert(whole.drop_last() =~= content);
    assert(split_on(whole, '\n') == p.push(Seq::empty()));
    crate::text::lemma_split_on_nonempty(content.drop_last(), '\n');
    assert(p.last().len() > 0);
    assert forall|i: int| 0 <= i < lines_of(content).len() implies trimmed(
        #[trigger] lines_of(whole)[i],
    ) == trimmed(lines_of(content)[i]) by {
        lemma_trimmed_without_cr(p[i]);
    }
}

/// What a line is appended to: the content, ended where it does not end in a line end.
spec fn ended(content: Seq<char>) -> Seq<char> {
    if content.len() == 0 || content.last() == '\n' {
        content
    } else {
        content.push('\n')
    }
}

proof fn lemma_with_line(content: Seq<char>, line: Seq<char>)
    requires
        is_clean_line(line),
    ensures
        has_line(with_line(content, line), line),
        begins_with(with_line(content, line), content),
        forall|x: Seq<char>|
            #[trigger] has_line(content, x) ==> has_line(with_line(content, line), x),
{
    let w = with_line(content, line);
    if has_line(content, line) {
        assert(content.take(content.len() as int) =~= content);
    } else {
        reveal_strlit("\n");
        let e = ended(content);
        lemma_clean_line(line);
        assert(w =~= e + crate::jsonl::framed(line));
        crate::jsonl::appended_line_reads_back(e, line);
        assert(w.take(content.len() as int) =~= content);
        assert(lines_of(w)[lines_of(e).len() as int] == line);
        assert forall|x: Seq<char>| #[trigger] has_line(content, x) implies has_line(w, x) by {
            let i = choose|i: int|
                0 <= i < lines_of(content).len() && trimmed(#[trigger] lines_of(content)[i]) == x;
            if e != content {
                lemma_end_last_line(content);
                assert(trimmed(lines_of(e)[i]) == x);
            }
            assert(lines_of(w)[i] == lines_of(e)[i]);
        }
    }
}

/// Afterwards every line is there, whatever the content began with is still there, and so
/// is every line that it had.
pub proof fn required_lines_are_added(content: Seq<char>, lines: Seq<Seq<char>>)
    requires
        forall|k: int| 0 <= k < lines.len() ==> is_clean_line(#[trigger] lines[k]),
    ensures
        begins_with(with_lines(content, lines), content),
        forall|k: int|
            0 <= k < lines.len() ==> has_line(with_lines(content, lines), #[trigger] lines[k]),
        forall|x: Seq<char>|
            #[trigger] has_line(content, x) ==> has_line(with_lines(content, lines), x),
    decreases lines.len(),
{
    if lines.len() == 0 {
        assert(content.take(content.len() as int) =~= content);
    } else {
        let front = lines.drop_last();
        let c = with_lines(content, front);
        let w = with_lines(content, lines);
        assert forall|k: int| 0 <= k < front.len() implies is_clean_line(#[trigger] front[k]) by {
            assert(front[k] == lines[k]);
        }
        required_lines_are_added(content, front);
        assert(is_clean_line(lines[lines.len() - 1]));
        lemma_with_line(c, lines.last());
        assert(w.take(content.len() as int) =~= c.take(content.len() as int)) by {
            assert(w.take(c.len() as int) == c);
            assert forall|i: int| 0 <= i < content.len() implies w[i] == c[i] by {
                assert(w.take(c.len() as int)[i] == c[i]);
            }
        }
        assert forall|k: int| 0 <= k < lines.len() implies has_line(w, #[trigger] lines[k]) by {
            if k < front.len() {
                assert(front[k] == lines[k]);
            }
        }
    }
}

proof fn lemma_nothing_missing(content: Seq<char>, lines: Seq<Seq<char>>)
    requires
        forall|k: int| 0 <= k < lines.len() ==> has_line(content, #[trigger] lines[k]),
    ensures
        with_lines(content, lines) == content,
    decreases lines.len(),
{
    if lines.len() > 0 {
        let front = lines.drop_last();
        assert forall|k: int| 0 <= k < front.len() implies has_line(
            content,
            #[trigger] front[k],
        ) by {
            assert(front[k] == lines[k]);
        }
        lemma_nothing_missing(content, front);
        assert(has_line(content, lines[lines.len() - 1]));
    }
}

/// A second pass finds nothing to add.
pub proof fn adding_lines_twice_adds_once(content: Seq<char>, lines: Seq<Seq<char>>)
    requires
        forall|k: int| 0 <= k < lines.len() ==> is_clean_line(#[trigger] lines[k]),
    ensures
        with_lines(with_lines(content, lines), lines) == with_lines(content, lines),
{
    required_lines_are_added(content, lines);
    lemma_nothing_missing(with_lines(content, lines), lines);
}

proof fn lemma_no_edge_space(s: Seq<char>)
    requires
        s.len() > 0,
        !is_space(s[0]),
        !is_space(s.last()),
    ensures
        trimmed(s) == s,
{
}

/// The lines that the library asks for stand for themselves.
pub proof fn required_lines_are_clean()
    ensures
        forall|k: int|
            0 <= k < merge_attribute_lines().len() ==> is_clean_line(
                #[trigger] merge_attribute_lines()[k],
            ),
        is_clean_line(verification_attribute_line()),
{
    reveal_strlit(".trx/issues.jsonl text eol=lf merge=union");
    reveal_strlit(".trx/events.jsonl text eol=lf merge=union");
    reveal_strlit(".trx/verifications.jsonl text eol=lf merge=union");
    let a = ".trx/issues.jsonl text eol=lf merge=union"@;
    let b = ".trx/events.jsonl text eol=lf merge=union"@;
    let c = ".trx/verifications.jsonl text eol=lf merge=union"@;
    lemma_no_edge_space(a);
    lemma_no_edge_space(b);
    lemma_no_edge_space(c);
    assert(merge_attribute_lines()[0] == a);
    assert(merge_attribute_lines()[1] == b);
}

// ------------------------------------------------------------- sync and doctor

/// What `sync` does to `.gitattributes` before it stages anything: the new content, where
/// lines are missing. It refuses to touch a file that has uncommitted changes.
pub fn plan_sync_attributes(content: Option<&str>, has_uncommitted_changes: bool) -> (r: Result<
    Option<String>,
    Error,
>)
    ensures
        ({
            let before = match content {
                Some(c) => c@,
                None => seq![],
            };
            let wanted = with_lines(
                before,
                merge_attribute_lines().push(verification_attribute_line()),
            );
            if wanted == before {
                r == Ok::<Option<String>, Error>(None)
            } else if has_uncommitted_changes {
                r is Err && r->Err_0@ == ErrorView::Other(
                    ".gitattributes has uncommitted changes; commit them before running trx sync"@,
                )
            } else {
                r is Ok && r->Ok_0 is Some && r->Ok_0->0@ == wanted
            }
        }),
{
    let lines = sync_attributes_lines();
    let new = match content {
        Some(c) => ensure_lines(c, &lines),
        None => {
            let empty = String::new();
            assert(empty@ =~= seq![]);
            ensure_lines(&empty, &lines)
        },
    };
    match new {
        None => Ok(None),
        Some(n) => {
            if has_uncommitted_changes {
                Err(
                    Error::Other(
                        ".gitattributes has uncommitted changes; commit them before running trx sync".to_owned(),
                    ),
                )
            } else {
                Ok(Some(n))
            }
        },
    }
}

/// What `doctor` found.
pub struct DoctorReport {
    pub healthy: bool,
    /// What to print.
    pub lines: Vec<String>,
    /// What to write to `.gitattributes`.
    pub fixed: Option<String>,
}

/// Those of the lines that a content lacks.
pub open spec fn missing_lines(content: Seq<char>, lines: Seq<Seq<char>>) -> Seq<Seq<char>> {
    lines.filter(|l: Seq<char>| !has_line(content, l))
}

fn lines_missing_from(content: &str, lines: &Vec<String>) -> (r: Vec<String>)
    ensures
        r.deep_view() == missing_lines(content@, lines.deep_view()),
{
    let ghost d = lines.deep_view();
    let ghost f = |l: Seq<char>| !has_line(content@, l);
    let mut r: Vec<String> = Vec::new();
    let mut i: usize = 0;
    proof {
        reveal(Seq::filter);
        assert(d.take(0) =~= seq![]);
        assert(r.deep_view() =~= d.take(0).filter(f));
    }
    while i < lines.len()
        invariant
            i <= lines.len(),
            d == lines.deep_view(),
            f == (|l: Seq<char>| !has_line(content@, l)),
            r.deep_view() == d.take(i as int).filter(f),
        decreases lines.len() - i,
    {
        let ghost before = r.deep_view();
        proof {
            crate::text::lemma_filter_push(d.take(i as int), lines@[i as int]@, f);
            assert(d.take(i + 1) =~= d.take(i as int).push(lines@[i as int]@));
        }
        if !content_has_line(content, &lines[i]) {
            r.push(lines[i].clone());
            assert(r.deep_view() =~= before.push(lines@[i as int]@));
        }
        i += 1;
    }
    assert(d.take(d.len() as int) =~= d);
    r
}

/// Looks at `.gitattributes`, and with `fix` repairs it.
pub fn doctor(content: Option<&str>, fix: bool) -> (r: DoctorReport)
    ensures
        ({
            let before = match content {
                Some(c) => c@,
                None => seq![],
            };
            let missing = missing_lines(before, merge_attribute_lines());
            if missing.len() == 0 {
                &&& r.healthy
                &&& r.lines.deep_view() == seq![".gitattributes configures trx JSONL union merges"@]
                &&& r.fixed is None
            } else if fix {
                &&& r.healthy
                &&& r.lines.deep_view() == seq![
                    "installed "@ + decimal(missing.len())
                        + " missing trx merge attribute entries"@,
                ]
                &&& r.fixed.deep_view() == Some(with_lines(before, merge_attribute_lines()))
            } else {
                &&& !r.healthy
                &&& r.lines.deep_view() == (if content is None {
                    seq!["warning: .gitattributes is missing"@]
                } else {
                    Seq::new(
                        missing.len(),
                        |k: int| "warning: .gitattributes lacks "@ + missing[k],
                    )
                })
                &&& r.fixed is None
            }
        }),
{
    let required = gitattributes_lines();
    let before = match content {
        Some(c) => c.to_owned(),
        None => String::new(),
    };
    assert(content is None ==> before@ =~= seq![]);
    let missing = lines_missing_from(&before, &required);
    let mut lines: Vec<String> = Vec::new();
    if missing.len() == 0 {
        lines.push(".gitattributes configures trx JSONL union merges".to_owned());
        assert(lines.deep_view() =~= seq![".gitattributes configures trx JSONL union merges"@]);
        return DoctorReport { healthy: true, lines, fixed: None };
    }
    if fix {
        let mut m = "installed ".to_owned();
        m.append(&decimal_text(missing.len() as u64));
        m.append(" missing trx merge attribute entries");
        lines.push(m);
        assert(lines.deep_view() =~= seq![m@]);
        proof {
            lemma_missing_means_change(before@);
        }
        let fixed = ensure_lines(&before, &required);
        return DoctorReport { healthy: true, lines, fixed };
    }
    match content {
        None => {
            lines.push("warning: .gitattributes is missing".to_owned());
            assert(lines.deep_view() =~= seq!["warning: .gitattributes is missing"@]);
        },
        Some(_) => {
            let mut i: usize = 0;
            while i < missing.len()
                invariant
                    i <= missing.len(),
                    lines.len() == i,
                    forall|k: int|
                        0 <= k < i ==> (#[trigger] lines@[k])@ == "warning: .gitattributes lacks "@
                            + missing@[k]@,
                decreases missing.len() - i,
            {
                lines.push(crate::text::concat("warning: .gitattributes lacks ", &missing[i]));
                i += 1;
            }
            assert(lines.deep_view() =~= Seq::new(
                missing.deep_view().len(),
                |k: int| "warning: .gitattributes lacks "@ + missing.deep_view()[k],
            ));
        },
    }
    DoctorReport { healthy: false, lines, fixed: None }
}

/// A content that lacks a line does not stay as it is.
proof fn lemma_missing_means_change(content: Seq<char>)
    requires
        missing_lines(content, merge_attribute_lines()).len() > 0,
    ensures
        with_lines(content, merge_attribute_lines()) != content,
{
    required_lines_are_clean();
    required_lines_are_added(content, merge_attribute_lines());
    let f = |l: Seq<char>| !has_line(content, l);
    let lines = merge_attribute_lines();
    lines.lemma_filter_pred(f, 0);
    let x = missing_lines(content, lines)[0];
    assert(!has_line(content, x));
    assert(lines.contains(x)) by {
        reveal_with_fuel(Seq::filter, 3);
        assert(lines.drop_last() =~= seq![lines[0]]);
        assert(lines.drop_last().drop_last() =~= seq![]);
        assert(lines[0] == lines.drop_last().last());
        assert(lines[1] == lines.last());
    }
    let k = choose|k: int| 0 <= k < lines.len() && lines[k] == x;
    assert(has_line(with_lines(content, lines), lines[k]));
}

/// Law: the lines that are missing are those that are asked for and not there. Nothing is
/// missing any more once they are added.
pub proof fn missing_lines_are_not_there(content: Seq<char>, lines: Seq<Seq<char>>, l: Seq<char>)
    requires
        forall|k: int| 0 <= k < lines.len() ==> is_clean_line(#[trigger] lines[k]),
    ensures
        missing_lines(content, lines).contains(l) <==> lines.contains(l) && !has_line(content, l),
        missing_lines(with_lines(content, lines), lines).len() == 0,
{
    crate::filter::filtering_keeps_what_passes(
        lines,
        |x: Seq<char>| !has_line(content, x),
        l,
    );
    required_lines_are_added(content, lines);
    let after = with_lines(content, lines);
    let m = missing_lines(after, lines);
    if m.len() > 0 {
        crate::filter::filtering_keeps_what_passes(
            lines,
            |x: Seq<char>| !has_line(after, x),
            m[0],
        );
        assert(m.contains(m[0]));
        let k = choose|k: int| 0 <= k < lines.len() && lines[k] == m[0];
        assert(has_line(after, lines[k]));
    }
}

} // verus!
