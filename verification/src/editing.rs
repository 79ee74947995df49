//! Texts that are written in an editor: what the editor starts with, and what is taken from
//! what it leaves.
use crate::events::same_opt;
use crate::filter::{keep, Test};
use crate::issue::{Issue, IssueView};
use crate::text::{
    begins_with, concat, is_blank, is_blank_text, is_space, join, joined, lemma_split_on_nonempty,
    lines_of, split_lines, split_on, split_words, starts_with, trim, trim_end, trim_start,
    trim_start_matches, trimmed, trimmed_end, trimmed_start, trimmed_start_of, without_cr,
    words_of,
};
use crate::time::{formatted, Timestamp};
use vstd::prelude::*;

verus! {

/// What an editor starts with for a description.
pub open spec fn description_draft(i: IssueView) -> Seq<char> {
    "# Edit description for "@ + i.id + " — "@ + i.title
        + "\n# Lines starting with # are ignored. Save and quit to apply.\n\n"@ + (
    match i.description {
        Some(d) => d,
        None => seq![],
    })
}

pub fn description_template(issue: &Issue) -> (r: String)
    ensures
        r@ == description_draft(issue@),
{
    let mut s = concat("# Edit description for ", &issue.id);
    s.append(" — ");
    s.append(&issue.title);
    s.append("\n# Lines starting with # are ignored. Save and quit to apply.\n\n");
    match &issue.description {
        Some(d) => s.append(d),
        None => {
            assert(s@ + seq![] =~= s@);
        },
    }
    s
}

/// What an editor starts with for a note.
pub open spec fn note_draft(i: IssueView) -> Seq<char> {
    "# Add note to "@ + i.id + " — "@ + i.title
        + "\n# Lines starting with # are ignored. Empty note cancels.\n\n"@
}

pub fn note_template(issue: &Issue) -> (r: String)
    ensures
        r@ == note_draft(issue@),
{
    let mut s = concat("# Add note to ", &issue.id);
    s.append(" — ");
    s.append(&issue.title);
    s.append("\n# Lines starting with # are ignored. Empty note cancels.\n\n");
    s
}

/// A line that the reader of a draft skips.
pub open spec fn is_remark(line: Seq<char>) -> bool {
    begins_with(trimmed_start(line), "#"@)
}

/// A draft without its remarks and the empty lines before it.
pub open spec fn editor_body(content: Seq<char>) -> Seq<char> {
    trimmed_start_of(
        joined(lines_of(content).filter(|l: Seq<char>| !is_remark(l)), "\n"@),
        '\n',
    )
}

struct NoRemark;

impl Test<String> for NoRemark {
    closed spec fn holds(&self, v: Seq<char>) -> bool {
        !is_remark(v)
    }

    fn test(&self, x: &String) -> (r: bool) {
        !starts_with(&trim_start(x), "#")
    }
}

pub fn read_editor_body(content: &str) -> (r: String)
    ensures
        r@ == editor_body(content@),
{
    let kept = keep(split_lines(content), &NoRemark);
    assert((|v: Seq<char>| (NoRemark).holds(v)) =~= (|l: Seq<char>| !is_remark(l)));
    trim_start_matches(&join(&kept, "\n"), '\n')
}

/// The description that a draft describes.
pub open spec fn draft_description(body: Seq<char>) -> Option<Seq<char>> {
    if is_blank_text(body) {
        None
    } else {
        Some(trimmed_end(body))
    }
}

/// What to do with what the editor left of a description.
pub enum DescriptionEdit {
    Unchanged,
    Change(Option<String>),
}

/// Decides whether a description was changed in the editor.
pub fn edited_description(issue: &Issue, content: &str) -> (r: DescriptionEdit)
    ensures
        match r {
            DescriptionEdit::Unchanged => issue@.description == draft_description(
                editor_body(content@),
            ),
            DescriptionEdit::Change(d) => {
                &&& d.deep_view() == draft_description(editor_body(content@))
                &&& d.deep_view() != issue@.description
            },
        },
{
    let body = read_editor_body(content);
    let d = if is_blank(&body) {
        None
    } else {
        Some(trim_end(&body))
    };
    if same_opt(&d, &issue.description) {
        DescriptionEdit::Unchanged
    } else {
        DescriptionEdit::Change(d)
    }
}

/// The note that a draft holds, if any.
pub fn edited_note(content: &str) -> (r: Option<String>)
    ensures
        r.deep_view() == (if trimmed(editor_body(content@)).len() == 0 {
            None
        } else {
            Some(trimmed(editor_body(content@)))
        }),
{
    let note = trim(&read_editor_body(content));
    if note.as_str().is_empty() {
        None
    } else {
        Some(note)
    }
}

/// A note as it is kept: with its time above it.
pub open spec fn note_text(note: Seq<char>, now: Timestamp) -> Seq<char> {
    formatted(now, "%Y-%m-%d %H:%M UTC"@) + ":\n"@ + note
}

/// The notes with one more at the end.
pub open spec fn with_entry(notes: Option<Seq<char>>, entry: Seq<char>) -> Seq<char> {
    match notes {
        Some(n) if !is_blank_text(n) => trimmed_end(n) + "\n\n"@ + entry,
        _ => entry,
    }
}

/// Puts an entry behind the notes.
pub fn append_entry(notes: &Option<String>, entry: String) -> (r: String)
    ensures
        r@ == with_entry(notes.deep_view(), entry@),
{
    match notes {
        Some(n) => {
            if is_blank(n) {
                entry
            } else {
                let mut s = concat(&trim_end(n), "\n\n");
                s.append(&entry);
                s
            }
        },
        None => entry,
    }
}

/// The issue with a note added.
pub open spec fn noted(i: IssueView, note: Seq<char>, now: Timestamp) -> IssueView {
    IssueView { notes: Some(with_entry(i.notes, note_text(note, now))), updated_at: now, ..i }
}

pub fn add_note(issue: &Issue, note: &str, now: Timestamp) -> (r: Issue)
    ensures
        r@ == noted(issue@, note@, now),
{
    let mut out = issue.copy();
    let mut entry = now.format("%Y-%m-%d %H:%M UTC");
    entry.append(":\n");
    entry.append(note);
    out.notes = Some(append_entry(&issue.notes, entry));
    out.updated_at = now;
    out
}

/// The issue with another description.
pub open spec fn described(i: IssueView, d: Option<Seq<char>>, now: Timestamp) -> IssueView {
    IssueView { description: d, updated_at: now, ..i }
}

pub fn describe(issue: &Issue, d: Option<String>, now: Timestamp) -> (r: Issue)
    ensures
        r@ == described(issue@, d.deep_view(), now),
{
    let mut out = issue.copy();
    out.description = d;
    out.updated_at = now;
    out
}

/// The editor that was asked for, or else `vi`.
pub open spec fn editor_setting(
    visual: Option<Seq<char>>,
    editor: Option<Seq<char>>,
) -> Seq<char> {
    match visual {
        Some(v) => v,
        None => match editor {
            Some(e) => e,
            None => "vi"@,
        },
    }
}

/// The program and the arguments that start an editor.
pub open spec fn editor_words(
    visual: Option<Seq<char>>,
    editor: Option<Seq<char>>,
) -> Seq<Seq<char>> {
    let words = words_of(editor_setting(visual, editor));
    if words.len() == 0 {
        seq!["vi"@]
    } else {
        words
    }
}

pub fn editor_command(visual: Option<String>, editor: Option<String>) -> (r: Vec<String>)
    ensures
        r.deep_view() == editor_words(visual.deep_view(), editor.deep_view()),
        r@.len() > 0,
{
    let setting = match visual {
        Some(v) => v,
        None => match editor {
            Some(e) => e,
            None => "vi".to_owned(),
        },
    };
    let mut words = split_words(&setting);
    assert(words.deep_view().len() == words@.len());
    if words.len() == 0 {
        words.push("vi".to_owned());
        assert(words.deep_view() =~= seq!["vi"@]);
    }
    words
}

proof fn lemma_start(s: Seq<char>)
    ensures
        trimmed_start(s).len() == 0 ==> forall|k: int| 0 <= k < s.len() ==> is_space(#[trigger] s[k]),
        trimmed_start(s).len() > 0 ==> !is_space(trimmed_start(s)[0]),
    decreases s.len(),
{
    if s.len() > 0 && is_space(s[0]) {
        let rest = s.drop_first();
        lemma_start(rest);
        if trimmed_start(s).len() == 0 {
            assert forall|k: int| 0 <= k < s.len() implies is_space(#[trigger] s[k]) by {
                if k > 0 {
                    assert(s[k] == rest[k - 1]);
                }
            }
        }
    }
}

proof fn lemma_end(s: Seq<char>)
    ensures
        s.len() > 0 && !is_space(s[0]) ==> trimmed_end(s).len() > 0,
        (forall|k: int| 0 <= k < s.len() ==> is_space(#[trigger] s[k])) ==> trimmed_end(s).len()
            == 0,
    decreases s.len(),
{
    if s.len() > 0 && is_space(s.last()) {
        let front = s.drop_last();
        lemma_end(front);
        if forall|k: int| 0 <= k < s.len() ==> is_space(#[trigger] s[k]) {
            assert forall|k: int| 0 <= k < front.len() implies is_space(#[trigger] front[k]) by {
                assert(front[k] == s[k]);
            }
        }
    } else if s.len() > 0 {
        assert(s.last() == s[s.len() - 1]);
    }
}

proof fn lemma_blank_has_no_end(s: Seq<char>)
    requires
        is_blank_text(s),
    ensures
        trimmed_end(s).len() == 0,
{
    lemma_start(s);
    lemma_end(trimmed_start(s));
    lemma_end(s);
}

/// Law: a note never takes away what the notes held: they stay at the front, up to white
/// space at their end, and the new note is at the end.
pub proof fn notes_only_grow(i: IssueView, note: Seq<char>, now: Timestamp)
    ensures
        noted(i, note, now).notes is Some,
        ({
            let after = noted(i, note, now).notes->Some_0;
            let n = after.len();
            &&& after.skip(n - note.len()) == note
            &&& match i.notes {
                Some(old_notes) => begins_with(after, trimmed_end(old_notes)),
                None => true,
            }
        }),
{
    let entry = note_text(note, now);
    let head = formatted(now, "%Y-%m-%d %H:%M UTC"@) + ":\n"@;
    let after = with_entry(i.notes, entry);
    assert(entry == head + note);
    match i.notes {
        Some(o) => {
            if is_blank_text(o) {
                assert(after == entry);
                assert(after.skip(after.len() - note.len()) =~= note);
                lemma_blank_has_no_end(o);
                assert(after.take(0) =~= trimmed_end(o));
            } else {
                let front = trimmed_end(o) + "\n\n"@;
                assert(after == front + entry);
                assert(after.skip(after.len() - note.len()) =~= note);
                assert(after.take(trimmed_end(o).len() as int) =~= trimmed_end(o));
            }
        },
        None => {
            assert(after.skip(after.len() - note.len()) =~= note);
        },
    }
}

// ---------------------------------------------------------------- untouched drafts

proof fn lemma_split_join(a: Seq<char>, b: Seq<char>)
    ensures
        split_on(a.push('\n') + b, '\n') == split_on(a, '\n') + split_on(b, '\n'),
    decreases b.len(),
{
    let s = a.push('\n') + b;
    let p = split_on(a, '\n');
    let q = split_on(b, '\n');
    lemma_split_on_nonempty(b, '\n');
    if b.len() == 0 {
        assert(s =~= a.push('\n'));
        assert(s.drop_last() =~= a);
        assert(p.push(Seq::empty()) =~= p + q);
    } else {
        let front = b.drop_last();
        let f = split_on(front, '\n');
        lemma_split_join(a, front);
        lemma_split_on_nonempty(front, '\n');
        assert(s.drop_last() =~= a.push('\n') + front);
        assert(s.last() == b.last());
        if b.last() == '\n' {
            assert((p + f).push(Seq::empty()) =~= p + f.push(Seq::empty()));
        } else {
            assert((p + f).drop_last() =~= p + f.drop_last());
            assert((p + f).last() == f.last());
            assert(p + f.drop_last().push(f.last().push(b.last())) =~= (p + f.drop_last()).push(
                f.last().push(b.last()),
            ));
        }
    }
}

proof fn lemma_split_one(s: Seq<char>)
    requires
        !s.contains('\n'),
    ensures
        split_on(s, '\n') == seq![s],
    decreases s.len(),
{
    if s.len() == 0 {
        assert(s =~= Seq::empty());
    } else {
        let front = s.drop_last();
        assert(s[s.len() - 1] == s.last());
        assert(!front.contains('\n')) by {
            assert forall|k: int| 0 <= k < front.len() implies front[k] != '\n' by {
                assert(s[k] == front[k]);
            }
        }
        lemma_split_one(front);
        assert(seq![front].drop_last().push(front.push(s.last())) =~= seq![s]) by {
            assert(front.push(s.last()) =~= s);
        }
    }
}

proof fn lemma_joined_split(s: Seq<char>)
    ensures
        joined(split_on(s, '\n'), "\n"@) == s,
    decreases s.len(),
{
    reveal_strlit("\n");
    let p = split_on(s, '\n');
    if s.len() == 0 {
        assert(s =~= Seq::empty());
    } else {
        let f = split_on(s.drop_last(), '\n');
        lemma_joined_split(s.drop_last());
        lemma_split_on_nonempty(s.drop_last(), '\n');
        assert(s.drop_last().push(s.last()) =~= s);
        if s.last() == '\n' {
            assert(p.drop_last() =~= f);
            assert(joined(f, "\n"@) + "\n"@ + Seq::<char>::empty() =~= s);
        } else {
            let last = f.last().push(s.last());
            if f.len() == 1 {
                assert(p[0] == last);
            } else {
                assert(p.drop_last() =~= f.drop_last());
                assert(joined(f.drop_last(), "\n"@) + "\n"@ + last =~= s);
            }
        }
    }
}

proof fn lemma_joined_cons(x: Seq<char>, p: Seq<Seq<char>>, sep: Seq<char>)
    requires
        p.len() > 0,
    ensures
        joined(seq![x] + p, sep) == x + sep + joined(p, sep),
    decreases p.len(),
{
    let all = seq![x] + p;
    assert(all.last() == p.last());
    if p.len() == 1 {
        assert(all.drop_last() =~= seq![x]);
        assert(joined(seq![x], sep) == x);
        assert(joined(p, sep) == p[0]);
    } else {
        assert(all.drop_last() =~= seq![x] + p.drop_last());
        lemma_joined_cons(x, p.drop_last(), sep);
        assert(x + sep + joined(p.drop_last(), sep) + sep + p.last() =~= x + sep + (joined(
            p.drop_last(),
            sep,
        ) + sep + p.last()));
    }
}

proof fn lemma_all_kept<V>(s: Seq<V>, f: spec_fn(V) -> bool)
    requires
        forall|k: int| 0 <= k < s.len() ==> f(#[trigger] s[k]),
    ensures
        s.filter(f) == s,
    decreases s.len(),
{
    reveal(Seq::filter);
    if s.len() > 0 {
        assert(f(s[s.len() - 1]));
        assert forall|k: int| 0 <= k < s.drop_last().len() implies f(#[trigger] s.drop_last()[k]) by {
            assert(s.drop_last()[k] == s[k]);
        }
        lemma_all_kept(s.drop_last(), f);
        assert(s.drop_last().push(s.last()) =~= s);
    } else {
        assert(s.filter(f) =~= s);
    }
}

proof fn lemma_filter_of_front<V>(x: V, s: Seq<V>, f: spec_fn(V) -> bool)
    ensures
        (seq![x] + s).filter(f) == (if f(x) {
            seq![x]
        } else {
            seq![]
        }) + s.filter(f),
    decreases s.len(),
{
    reveal(Seq::filter);
    let all = seq![x] + s;
    if s.len() == 0 {
        assert(all.drop_last() =~= seq![]);
        assert(all.last() == x);
        assert(all.filter(f) =~= (if f(x) {
            seq![x]
        } else {
            seq![]
        }) + s.filter(f));
    } else {
        assert(all.drop_last() =~= seq![x] + s.drop_last());
        assert(all.last() == s.last());
        lemma_filter_of_front(x, s.drop_last(), f);
        assert(all.filter(f) =~= (if f(x) {
            seq![x]
        } else {
            seq![]
        }) + s.filter(f));
    }
}

/// The text of a draft: two remarks, an empty line, and what stands below.
spec fn draft_text(first: Seq<char>, second: Seq<char>, below: Seq<char>) -> Seq<char> {
    first.push('\n') + (second.push('\n') + (Seq::<char>::empty().push('\n') + below))
}

proof fn lemma_draft_split(first: Seq<char>, second: Seq<char>, below: Seq<char>)
    requires
        !first.contains('\n'),
        !second.contains('\n'),
    ensures
        split_on(draft_text(first, second, below), '\n') == seq![
            first,
            second,
            Seq::<char>::empty(),
        ] + split_on(below, '\n'),
{
    let none = Seq::<char>::empty();
    let rest = none.push('\n') + below;
    lemma_split_join(first, second.push('\n') + rest);
    lemma_split_join(second, rest);
    lemma_split_join(none, below);
    lemma_split_one(first);
    lemma_split_one(second);
    lemma_split_one(none);
    assert(seq![first] + (seq![second] + (seq![none] + split_on(below, '\n'))) =~= seq![
        first,
        second,
        none,
    ] + split_on(below, '\n'));
}

/// What is kept of the lines of a draft.
proof fn lemma_draft_kept(first: Seq<char>, second: Seq<char>, kept: Seq<Seq<char>>)
    requires
        is_remark(first),
        is_remark(second),
        forall|k: int| 0 <= k < kept.len() ==> !is_remark(#[trigger] kept[k]),
    ensures
        (seq![first, second] + kept).filter(|l: Seq<char>| !is_remark(l)) == kept,
{
    let f = |l: Seq<char>| !is_remark(l);
    assert(seq![first, second] + kept =~= seq![first] + (seq![second] + kept));
    lemma_filter_of_front(first, seq![second] + kept, f);
    lemma_filter_of_front(second, kept, f);
    assert forall|k: int| 0 <= k < kept.len() implies f(#[trigger] kept[k]) by {
        assert(!is_remark(kept[k]));
    }
    lemma_all_kept(kept, f);
    let no_lines = Seq::<Seq<char>>::empty();
    assert(no_lines + (no_lines + kept) =~= kept);
}

proof fn lemma_empty_draft(first: Seq<char>, second: Seq<char>)
    requires
        !first.contains('\n'),
        !second.contains('\n'),
        is_remark(first),
        is_remark(second),
        first.last() != '\r',
        second.last() != '\r',
    ensures
        editor_body(draft_text(first, second, Seq::empty())) == Seq::<char>::empty(),
{
    let none = Seq::<char>::empty();
    let content = draft_text(first, second, none);
    reveal_strlit("#");
    lemma_draft_split(first, second, none);
    let all = split_on(content, '\n');
    assert(split_on(none, '\n') =~= seq![none]);
    assert(all =~= seq![first, second, none, none]);
    assert(lines_of(content) =~= seq![first, second] + seq![none]);
    assert(!is_remark(none));
    lemma_draft_kept(first, second, seq![none]);
    assert(joined(seq![none], "\n"@) == none);
}

proof fn lemma_full_lines(first: Seq<char>, second: Seq<char>, below: Seq<char>)
    requires
        !first.contains('\n'),
        !second.contains('\n'),
        without_cr(first) == first,
        without_cr(second) == second,
        below.len() > 0,
        below.last() != '\n',
        forall|k: int|
            0 <= k < split_on(below, '\n').len() ==> without_cr(
                #[trigger] split_on(below, '\n')[k],
            ) == split_on(below, '\n')[k],
    ensures
        lines_of(draft_text(first, second, below)) == seq![first, second] + (seq![
            Seq::<char>::empty(),
        ] + split_on(below, '\n')),
{
    let none = Seq::<char>::empty();
    let p = split_on(below, '\n');
    let all = split_on(draft_text(first, second, below), '\n');
    lemma_draft_split(first, second, below);
    lemma_split_on_nonempty(below, '\n');
    lemma_split_last(below);
    assert(all.last() == p.last());
    assert(all =~= seq![first, second] + (seq![none] + p));
    let lines = lines_of(draft_text(first, second, below));
    assert(lines.len() == all.len());
    assert forall|k: int| 0 <= k < all.len() implies lines[k] == all[k] by {
        if k >= 3 {
            assert(all[k] == p[k - 3]);
        }
    }
    assert(lines =~= all);
}

proof fn lemma_full_text(below: Seq<char>)
    requires
        below.len() > 0,
        below[0] != '\n',
    ensures
        trimmed_start_of(
            joined(seq![Seq::<char>::empty()] + split_on(below, '\n'), "\n"@),
            '\n',
        ) == below,
{
    reveal_strlit("\n");
    let none = Seq::<char>::empty();
    let p = split_on(below, '\n');
    lemma_split_on_nonempty(below, '\n');
    lemma_joined_cons(none, p, "\n"@);
    lemma_joined_split(below);
    let text = joined(seq![none] + p, "\n"@);
    assert(text =~= seq!['\n'] + below);
    assert(text.drop_first() =~= below);
    assert(trimmed_start_of(below, '\n') == below);
}

proof fn lemma_full_draft(first: Seq<char>, second: Seq<char>, below: Seq<char>)
    requires
        !first.contains('\n'),
        !second.contains('\n'),
        is_remark(first),
        is_remark(second),
        first.last() != '\r',
        second.last() != '\r',
        is_body(below),
    ensures
        editor_body(draft_text(first, second, below)) == below,
{
    let none = Seq::<char>::empty();
    let p = split_on(below, '\n');
    let kept = seq![none] + p;
    assert forall|k: int| 0 <= k < p.len() implies without_cr(#[trigger] p[k]) == p[k] by {
        assert(is_body_line(p[k]));
    }
    lemma_full_lines(first, second, below);
    assert(!is_remark(none)) by {
        reveal_strlit("#");
    }
    assert forall|k: int| 0 <= k < kept.len() implies !is_remark(#[trigger] kept[k]) by {
        if k > 0 {
            assert(kept[k] == p[k - 1]);
            assert(is_body_line(p[k - 1]));
        }
    }
    lemma_draft_kept(first, second, kept);
    lemma_full_text(below);
}

proof fn lemma_split_last(s: Seq<char>)
    requires
        s.len() > 0,
        s.last() != '\n',
    ensures
        split_on(s, '\n').last().len() > 0,
{
    lemma_split_on_nonempty(s.drop_last(), '\n');
}

/// A line of a description that a draft gives back: no remark, and without a carriage return
/// at its end.
pub open spec fn is_body_line(line: Seq<char>) -> bool {
    !is_remark(line) && (line.len() == 0 || line.last() != '\r')
}

/// A description that a draft gives back as it is.
pub open spec fn is_body(d: Seq<char>) -> bool {
    &&& d.len() > 0
    &&& d[0] != '\n'
    &&& !is_space(d.last())
    &&& forall|k: int|
        0 <= k < split_on(d, '\n').len() ==> is_body_line(#[trigger] split_on(d, '\n')[k])
}

/// Law: an editor that is left with the draft as it was changes no description. Left out are
/// descriptions with lines that read as remarks, or with white space that a draft loses.
pub proof fn untouched_draft_changes_nothing(i: IssueView)
    requires
        !i.id.contains('\n'),
        !i.title.contains('\n'),
        i.title.len() == 0 || i.title.last() != '\r',
        match i.description {
            Some(d) => is_body(d),
            None => true,
        },
    ensures
        draft_description(editor_body(description_draft(i))) == i.description,
{
    let head = "# Edit description for "@;
    let dash = " — "@;
    reveal_strlit("# Edit description for ");
    reveal_strlit(" — ");
    reveal_strlit("\n# Lines starting with # are ignored. Save and quit to apply.\n\n");
    reveal_strlit("# Lines starting with # are ignored. Save and quit to apply.");
    reveal_strlit("#");
    let first = head + i.id + dash + i.title;
    let second = "# Lines starting with # are ignored. Save and quit to apply."@;
    let below = match i.description {
        Some(d) => d,
        None => seq![],
    };
    lemma_remark(first);
    lemma_remark(second);
    lemma_no_line_end(head, i.id, dash, i.title);
    assert(!second.contains('\n'));
    assert(first.last() != '\r') by {
        if i.title.len() == 0 {
            assert(first =~= head + i.id + dash);
        }
    }
    assert("\n# Lines starting with # are ignored. Save and quit to apply.\n\n"@ =~= seq!['\n']
        + second + seq!['\n', '\n']);
    assert(description_draft(i) =~= draft_text(first, second, below));
    match i.description {
        Some(d) => {
            lemma_full_draft(first, second, below);
            if is_blank_text(d) {
                lemma_blank_has_no_end(d);
            }
        },
        None => {
            lemma_empty_draft(first, second);
        },
    }
}

/// Law: a draft of a note that is left as it was holds no note.
pub proof fn untouched_note_is_none(i: IssueView)
    requires
        !i.id.contains('\n'),
        !i.title.contains('\n'),
        i.title.len() == 0 || i.title.last() != '\r',
    ensures
        trimmed(editor_body(note_draft(i))).len() == 0,
{
    let head = "# Add note to "@;
    let dash = " — "@;
    let none = Seq::<char>::empty();
    reveal_strlit("# Add note to ");
    reveal_strlit(" — ");
    reveal_strlit("\n# Lines starting with # are ignored. Empty note cancels.\n\n");
    reveal_strlit("# Lines starting with # are ignored. Empty note cancels.");
    reveal_strlit("#");
    let first = head + i.id + dash + i.title;
    let second = "# Lines starting with # are ignored. Empty note cancels."@;
    lemma_remark(first);
    lemma_remark(second);
    lemma_no_line_end(head, i.id, dash, i.title);
    assert(!second.contains('\n'));
    assert(first.last() != '\r') by {
        if i.title.len() == 0 {
            assert(first =~= head + i.id + dash);
        }
    }
    assert("\n# Lines starting with # are ignored. Empty note cancels.\n\n"@ =~= seq!['\n'] + second
        + seq!['\n', '\n']);
    assert(note_draft(i) =~= draft_text(first, second, none));
    lemma_empty_draft(first, second);
}

proof fn lemma_remark(line: Seq<char>)
    requires
        line.len() > 0,
        line[0] == '#',
    ensures
        is_remark(line),
{
    reveal_strlit("#");
    assert(!is_space('#'));
    assert(line.take(1) =~= "#"@);
}

proof fn lemma_no_line_end(a: Seq<char>, b: Seq<char>, c: Seq<char>, d: Seq<char>)
    requires
        !a.contains('\n'),
        !b.contains('\n'),
        !c.contains('\n'),
        !d.contains('\n'),
    ensures
        !(a + b + c + d).contains('\n'),
{
    let s = a + b + c + d;
    assert forall|k: int| 0 <= k < s.len() implies s[k] != '\n' by {
        if k < a.len() {
            assert(s[k] == a[k]);
        } else if k < a.len() + b.len() {
            assert(s[k] == b[k - a.len()]);
        } else if k < a.len() + b.len() + c.len() {
            assert(s[k] == c[k - a.len() - b.len()]);
        } else {
            assert(s[k] == d[k - a.len() - b.len() - c.len()]);
        }
    }
}

/// The line reads, but for white space before it, as a remark: it begins with a number sign.
pub open spec fn opens_remark(line: Seq<char>) -> bool {
    exists|k: int|
        0 <= k < line.len() && #[trigger] line[k] == '#' && forall|i: int|
            0 <= i < k ==> is_space(#[trigger] line[i])
}

proof fn lemma_opens_remark(line: Seq<char>)
    ensures
        is_remark(line) <==> opens_remark(line),
    decreases line.len(),
{
    reveal_strlit("#");
    assert("#"@ =~= seq!['#']);
    if line.len() > 0 && is_space(line[0]) {
        let rest = line.drop_first();
        lemma_opens_remark(rest);
        if opens_remark(rest) {
            let k = choose|k: int|
                0 <= k < rest.len() && #[trigger] rest[k] == '#' && forall|i: int|
                    0 <= i < k ==> is_space(#[trigger] rest[i]);
            assert(line[k + 1] == '#');
            assert forall|i: int| 0 <= i < k + 1 implies is_space(#[trigger] line[i]) by {
                if i > 0 {
                    assert(line[i] == rest[i - 1]);
                }
            }
        }
        if opens_remark(line) {
            let k = choose|k: int|
                0 <= k < line.len() && #[trigger] line[k] == '#' && forall|i: int|
                    0 <= i < k ==> is_space(#[trigger] line[i]);
            assert(k > 0);
            assert(rest[k - 1] == '#');
            assert forall|i: int| 0 <= i < k - 1 implies is_space(#[trigger] rest[i]) by {
                assert(rest[i] == line[i + 1]);
            }
        }
    } else {
        if is_remark(line) {
            assert(line.take(1)[0] == line[0]);
        }
        if opens_remark(line) {
            let k = choose|k: int|
                0 <= k < line.len() && #[trigger] line[k] == '#' && forall|i: int|
                    0 <= i < k ==> is_space(#[trigger] line[i]);
            if k > 0 {
                assert(is_space(line[0]));
            }
            assert(line.take(1) =~= "#"@);
        }
    }
}

/// What is read from a draft are the lines that are no remarks, all of them, joined by line ends,
/// without the line ends before them. Gives these lines.
pub proof fn drafts_drop_only_remarks(content: Seq<char>, line: Seq<char>) -> (kept: Seq<
    Seq<char>,
>)
    ensures
        editor_body(content) == trimmed_start_of(joined(kept, seq!['\n']), '\n'),
        kept.contains(line) <==> lines_of(content).contains(line) && !opens_remark(line),
{
    let f = |l: Seq<char>| !is_remark(l);
    reveal_strlit("\n");
    assert("\n"@ =~= seq!['\n']);
    crate::filter::filtering_keeps_what_passes(lines_of(content), f, line);
    lemma_opens_remark(line);
    lines_of(content).filter(f)
}

/// A new description takes the place of the old one, and a note goes behind the others under its
/// date; neither changes anything else of the issue but when it was last changed.
pub proof fn edits_change_one_field(
    i: IssueView,
    d: Option<Seq<char>>,
    note: Seq<char>,
    now: Timestamp,
)
    ensures
        described(i, d, now).description == d,
        described(i, d, now).updated_at == now,
        described(i, d, now).id == i.id,
        described(i, d, now).title == i.title,
        described(i, d, now).status == i.status,
        described(i, d, now).priority == i.priority,
        described(i, d, now).issue_type == i.issue_type,
        described(i, d, now).labels == i.labels,
        described(i, d, now).assignee == i.assignee,
        described(i, d, now).notes == i.notes,
        described(i, d, now).created_at == i.created_at,
        described(i, d, now).closed_at == i.closed_at,
        described(i, d, now).close_reason == i.close_reason,
        described(i, d, now).created_by == i.created_by,
        described(i, d, now).deleted_at == i.deleted_at,
        described(i, d, now).deleted_by == i.deleted_by,
        described(i, d, now).delete_reason == i.delete_reason,
        described(i, d, now).original_type == i.original_type,
        described(i, d, now).sessions == i.sessions,
        described(i, d, now).dependencies == i.dependencies,
        noted(i, note, now).updated_at == now,
        i.notes is None ==> noted(i, note, now).notes == Some(
            formatted(now, "%Y-%m-%d %H:%M UTC"@) + ":\n"@ + note,
        ),
        noted(i, note, now).id == i.id,
        noted(i, note, now).title == i.title,
        noted(i, note, now).description == i.description,
        noted(i, note, now).status == i.status,
        noted(i, note, now).priority == i.priority,
        noted(i, note, now).issue_type == i.issue_type,
        noted(i, note, now).labels == i.labels,
        noted(i, note, now).assignee == i.assignee,
        noted(i, note, now).created_at == i.created_at,
        noted(i, note, now).closed_at == i.closed_at,
        noted(i, note, now).close_reason == i.close_reason,
        noted(i, note, now).created_by == i.created_by,
        noted(i, note, now).deleted_at == i.deleted_at,
        noted(i, note, now).deleted_by == i.deleted_by,
        noted(i, note, now).delete_reason == i.delete_reason,
        noted(i, note, now).original_type == i.original_type,
        noted(i, note, now).sessions == i.sessions,
        noted(i, note, now).dependencies == i.dependencies,
{
}

/// The editor is the one for full screens, else the plain one, else `vi`.
pub proof fn editors_are_chosen_in_turn(visual: Option<Seq<char>>, editor: Option<Seq<char>>)
    ensures
        visual matches Some(v) ==> words_of(v).len() > 0 ==> editor_words(visual, editor)
            == words_of(v),
        visual is None && editor is Some && words_of(editor->0).len() > 0 ==> editor_words(
            visual,
            editor,
        ) == words_of(editor->0),
        editor_words(visual, editor).len() > 0,
{
}

} // verus!
