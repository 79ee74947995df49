//! Events and sessions as lines for the terminal.
use crate::events::{Event, EventAction, EventView, FieldChange, FieldChangeView, FieldValue, FieldValueView};
use crate::style::{new_line, plain, push_line, push_span, toned, Span, SpanView, Tone};
use crate::text::{
    concat, decimal, decimal_text, digit_char, join, joined, pad_left, pad_right, padded_left,
    padded_right, same_text, shortened, truncate,
};
use crate::time::formatted;
use crate::timeline::{
    events_of_session, or_else, session_events, summaries, summarize_sessions, SessionSummary,
    SessionSummaryView,
};
use vstd::prelude::*;

verus! {

// --------------------------------------------------------------------- changes

pub open spec fn hex_digit(d: int) -> char {
    if d < 10 {
        digit_char(d)
    } else {
        ('a' as int + d - 10) as char
    }
}

/// A character within the quotes of a JSON text.
pub open spec fn json_char(c: char) -> Seq<char> {
    if c == '"' || c == '\\' {
        seq!['\\', c]
    } else if c == '\n' {
        seq!['\\', 'n']
    } else if c == '\r' {
        seq!['\\', 'r']
    } else if c == '\t' {
        seq!['\\', 't']
    } else if c == '\x08' {
        seq!['\\', 'b']
    } else if c == '\x0c' {
        seq!['\\', 'f']
    } else if c as u32 <= 0x1f {
        seq!['\\', 'u', '0', '0', hex_digit(c as int / 16), hex_digit(c as int % 16)]
    } else {
        seq![c]
    }
}

pub open spec fn json_chars(s: Seq<char>) -> Seq<char>
    decreases s.len(),
{
    if s.len() == 0 {
        seq![]
    } else {
        json_chars(s.drop_last()) + json_char(s.last())
    }
}

/// A text in quotes, as JSON has it.
#[verifier::opaque]
pub open spec fn json_quoted(s: Seq<char>) -> Seq<char> {
    "\""@ + json_chars(s) + "\""@
}

/// `serde_json::to_string` of a text, which always succeeds: the text in quotes. Quotes,
/// backslashes and control characters are escaped, as the crate's table has it; every other
/// character stands for itself.
#[verifier::external_body]
fn quote_json(s: &str) -> (r: String)
    ensures
        r@ == json_quoted(s@),
{
    serde_json::to_string(s).unwrap()
}

/// A list of quoted texts.
pub open spec fn quoted_all(v: Seq<Seq<char>>) -> Seq<Seq<char>> {
    Seq::new(v.len(), |i: int| json_quoted(v[i]))
}

/// A value as compact JSON.
pub open spec fn value_json(v: FieldValueView) -> Seq<char> {
    match v {
        FieldValueView::Null => "null"@,
        FieldValueView::Text(s) => json_quoted(s),
        FieldValueView::Number(n) => decimal(n as nat),
        FieldValueView::List(l) => "["@ + joined(quoted_all(l), ","@) + "]"@,
        FieldValueView::Raw(s) => s,
    }
}

pub fn value_text(v: &FieldValue) -> (r: String)
    ensures
        r@ == value_json(v.deep_view()),
{
    match v {
        FieldValue::Null => "null".to_owned(),
        FieldValue::Text(s) => quote_json(s),
        FieldValue::Number(n) => decimal_text(*n),
        FieldValue::List(l) => {
            let mut quoted: Vec<String> = Vec::new();
            let mut i: usize = 0;
            while i < l.len()
                invariant
                    i <= l.len(),
                    quoted@.len() == i,
                    forall|k: int| 0 <= k < i ==> (#[trigger] quoted@[k])@ == json_quoted(l@[k]@),
                decreases l.len() - i,
            {
                quoted.push(quote_json(&l[i]));
                i += 1;
            }
            assert(quoted.deep_view() =~= quoted_all(l.deep_view()));
            let mut r = concat("[", &join(&quoted, ","));
            r.append("]");
            r
        },
        FieldValue::Raw(s) => s.clone(),
    }
}

/// A change as `field: from → to`, with `∅` for a side that is missing. `from` and `to` are
/// texts already.
pub open spec fn change_text(
    field: Seq<char>,
    from: Option<Seq<char>>,
    to: Option<Seq<char>>,
) -> Seq<char> {
    match (from, to) {
        (Some(f), Some(t)) => field + ": "@ + f + " → "@ + t,
        (None, Some(t)) => field + ": ∅ → "@ + t,
        (Some(f), None) => field + ": "@ + f + " → ∅"@,
        (None, None) => field,
    }
}

/// The text of an optional value.
pub open spec fn opt_json(v: Option<FieldValueView>) -> Option<Seq<char>> {
    match v {
        Some(x) => Some(value_json(x)),
        None => None,
    }
}

/// A change of a field as text.
pub open spec fn field_change_text(c: FieldChangeView) -> Seq<char> {
    change_text(c.field, opt_json(c.from), opt_json(c.to))
}

/// Joins the sides of a change.
pub fn join_change(field: &str, from: Option<String>, to: Option<String>) -> (r: String)
    ensures
        r@ == change_text(field@, from.deep_view(), to.deep_view()),
{
    match (from, to) {
        (Some(f), Some(t)) => {
            let mut r = concat(field, ": ");
            r.append(&f);
            r.append(" → ");
            r.append(&t);
            r
        },
        (None, Some(t)) => {
            let mut r = concat(field, ": ∅ → ");
            r.append(&t);
            r
        },
        (Some(f), None) => {
            let mut r = concat(field, ": ");
            r.append(&f);
            r.append(" → ∅");
            r
        },
        (None, None) => field.to_owned(),
    }
}

fn opt_value_text(v: &Option<FieldValue>) -> (r: Option<String>)
    ensures
        r.deep_view() == opt_json(v.deep_view()),
{
    match v {
        Some(x) => Some(value_text(x)),
        None => None,
    }
}

pub fn format_change(c: &FieldChange) -> (r: String)
    ensures
        r@ == field_change_text(c.deep_view()),
{
    join_change(&c.field, opt_value_text(&c.from), opt_value_text(&c.to))
}

/// The changes of an event as texts.
pub open spec fn change_texts(changes: Seq<FieldChangeView>) -> Seq<Seq<char>> {
    Seq::new(changes.len(), |i: int| field_change_text(changes[i]))
}

pub(crate) fn format_changes(changes: &Vec<FieldChange>) -> (r: Vec<String>)
    ensures
        r.deep_view() == change_texts(changes.deep_view()),
{
    let mut r: Vec<String> = Vec::new();
    let mut i: usize = 0;
    while i < changes.len()
        invariant
            i <= changes.len(),
            r@.len() == i,
            forall|k: int|
                0 <= k < i ==> (#[trigger] r@[k])@ == field_change_text(changes@[k].deep_view()),
        decreases changes.len() - i,
    {
        r.push(format_change(&changes[i]));
        i += 1;
    }
    assert(r.deep_view() =~= change_texts(changes.deep_view()));
    r
}

// ------------------------------------------------------------------ event lines

/// The tone of an action, the same in every list.
pub open spec fn action_tone(a: EventAction) -> Tone {
    match a {
        EventAction::Created => Tone::Green,
        EventAction::Closed => Tone::Blue,
        EventAction::Reopened => Tone::Yellow,
        EventAction::Deleted => Tone::Red,
        EventAction::Restored => Tone::Green,
        EventAction::DepAdded => Tone::Magenta,
        EventAction::DepRemoved => Tone::Magenta,
        EventAction::SessionLinked => Tone::Cyan,
        EventAction::VerificationAdded => Tone::Cyan,
        EventAction::Updated => Tone::Plain,
    }
}

pub fn colored_action(a: EventAction) -> (r: Tone)
    ensures
        r == action_tone(a),
{
    match a {
        EventAction::Created => Tone::Green,
        EventAction::Closed => Tone::Blue,
        EventAction::Reopened => Tone::Yellow,
        EventAction::Deleted => Tone::Red,
        EventAction::Restored => Tone::Green,
        EventAction::DepAdded => Tone::Magenta,
        EventAction::DepRemoved => Tone::Magenta,
        EventAction::SessionLinked => Tone::Cyan,
        EventAction::VerificationAdded => Tone::Cyan,
        EventAction::Updated => Tone::Plain,
    }
}

/// Who an event is by: the user, else the session.
pub open spec fn actor(e: EventView) -> Seq<char> {
    match or_else(
        or_else(or_else(e.user_id, e.session_name), e.platform_session_id),
        e.harness_session_id,
    ) {
        Some(w) => w,
        None => "-"@,
    }
}

fn actor_of(e: &Event) -> (r: String)
    ensures
        r@ == actor(e@),
{
    if let Some(w) = &e.user_id {
        return w.clone();
    }
    if let Some(w) = &e.session_name {
        return w.clone();
    }
    if let Some(w) = &e.platform_session_id {
        return w.clone();
    }
    if let Some(w) = &e.harness_session_id {
        return w.clone();
    }
    "-".to_owned()
}

/// An event on one line.
pub open spec fn event_line(e: EventView) -> Seq<SpanView> {
    seq![
        toned(Tone::Dim, formatted(e.timestamp, "%Y-%m-%d %H:%M:%S"@)),
        plain(" "@),
        toned(Tone::Cyan, e.issue_id),
        plain(" "@),
        toned(action_tone(e.action), e.action.name()),
        plain(" by "@),
        toned(Tone::Dim, actor(e)),
    ] + (match e.note {
        Some(n) => seq![plain(" — "@ + n)],
        None => seq![],
    }) + (if e.changes.len() == 0 {
        seq![]
    } else {
        seq![plain(" ["@ + joined(change_texts(e.changes), ", "@) + "]"@)]
    })
}

pub fn print_event_line(e: &Event) -> (r: Vec<Span>)
    ensures
        r.deep_view() == event_line(e@),
{
    let mut r = new_line();
    push_span(&mut r, Tone::Dim, &e.timestamp.format("%Y-%m-%d %H:%M:%S"));
    push_span(&mut r, Tone::Plain, " ");
    push_span(&mut r, Tone::Cyan, &e.issue_id);
    push_span(&mut r, Tone::Plain, " ");
    push_span(&mut r, colored_action(e.action), e.action.text());
    push_span(&mut r, Tone::Plain, " by ");
    push_span(&mut r, Tone::Dim, &actor_of(e));
    if let Some(n) = &e.note {
        push_span(&mut r, Tone::Plain, &concat(" — ", n));
    }
    assert(e.changes@.len() == e@.changes.len());
    if e.changes.len() > 0 {
        let mut t = concat(" [", &join(&format_changes(&e.changes), ", "));
        t.append("]");
        push_span(&mut r, Tone::Plain, &t);
    }
    assert(r.deep_view() =~= event_line(e@));
    r
}

/// The context of an event in short: harness or platform, session and model.
pub open spec fn ctx_parts(e: EventView) -> Seq<Seq<char>> {
    opt_part(or_else(e.harness, e.platform)) + opt_part(e.session_name) + opt_part(e.model)
}

pub open spec fn opt_part(o: Option<Seq<char>>) -> Seq<Seq<char>> {
    match o {
        Some(s) => seq![s],
        None => seq![],
    }
}

fn push_part(parts: &mut Vec<String>, o: &Option<String>)
    ensures
        final(parts).deep_view() == old(parts).deep_view() + opt_part(o.deep_view()),
{
    let ghost before = parts.deep_view();
    match o {
        Some(s) => {
            parts.push(s.clone());
            assert(parts.deep_view() =~= before + opt_part(o.deep_view()));
        },
        None => {
            assert(before + Seq::<Seq<char>>::empty() =~= before);
        },
    }
}

pub(crate) fn first_some<'a>(a: &'a Option<String>, b: &'a Option<String>) -> (r: &'a Option<String>)
    ensures
        r.deep_view() == or_else(a.deep_view(), b.deep_view()),
{
    if a.is_some() {
        a
    } else {
        b
    }
}

/// The context of an event in one line, where it has any.
pub fn agent_ctx_line(e: &Event) -> (r: Option<String>)
    ensures
        r.deep_view() == (if ctx_parts(e@).len() == 0 {
            None
        } else {
            Some(joined(ctx_parts(e@), " · "@))
        }),
{
    let mut parts: Vec<String> = Vec::new();
    assert(parts.deep_view() =~= seq![]);
    push_part(&mut parts, first_some(&e.harness, &e.platform));
    push_part(&mut parts, &e.session_name);
    push_part(&mut parts, &e.model);
    assert(parts.deep_view() =~= ctx_parts(e@));
    assert(parts@.len() == parts.deep_view().len());
    if parts.len() == 0 {
        None
    } else {
        Some(join(&parts, " · "))
    }
}

/// One field of a context with its label.
pub open spec fn ctx_field(label: Seq<char>, o: Option<Seq<char>>) -> Seq<Seq<char>> {
    match o {
        Some(v) => seq![padded_right(label + ":"@, 10) + " "@ + v],
        None => seq![],
    }
}

/// The context of an event in full, one line for each field that is set.
pub open spec fn ctx_fields(e: EventView) -> Seq<Seq<char>> {
    ctx_field("user"@, e.user_id) + ctx_field("platform"@, e.platform) + ctx_field(
        "harness"@,
        e.harness,
    ) + ctx_field("session"@, e.session_name) + ctx_field("plat_sid"@, e.platform_session_id)
        + ctx_field("harn_sid"@, e.harness_session_id) + ctx_field("workspace"@, e.workspace_id)
        + ctx_field("model"@, e.model) + ctx_field("request"@, e.request_id) + ctx_field(
        "correlate"@,
        e.correlation_id,
    )
}

fn push_ctx_field(out: &mut Vec<String>, label: &str, o: &Option<String>)
    ensures
        final(out).deep_view() == old(out).deep_view() + ctx_field(label@, o.deep_view()),
{
    let ghost before = out.deep_view();
    match o {
        Some(v) => {
            let mut line = pad_right(&concat(label, ":"), 10);
            line.append(" ");
            line.append(v);
            out.push(line);
            assert(out.deep_view() =~= before + ctx_field(label@, o.deep_view()));
        },
        None => {
            assert(before + Seq::<Seq<char>>::empty() =~= before);
        },
    }
}

pub fn agent_ctx_verbose(e: &Event) -> (r: Vec<String>)
    ensures
        r.deep_view() == ctx_fields(e@),
{
    let mut out: Vec<String> = Vec::new();
    assert(out.deep_view() =~= seq![]);
    push_ctx_field(&mut out, "user", &e.user_id);
    assert(out.deep_view() =~= ctx_field("user"@, e@.user_id));
    push_ctx_field(&mut out, "platform", &e.platform);
    push_ctx_field(&mut out, "harness", &e.harness);
    push_ctx_field(&mut out, "session", &e.session_name);
    push_ctx_field(&mut out, "plat_sid", &e.platform_session_id);
    push_ctx_field(&mut out, "harn_sid", &e.harness_session_id);
    push_ctx_field(&mut out, "workspace", &e.workspace_id);
    push_ctx_field(&mut out, "model", &e.model);
    push_ctx_field(&mut out, "request", &e.request_id);
    push_ctx_field(&mut out, "correlate", &e.correlation_id);
    out
}

/// The lines of some texts in a feed.
pub open spec fn detail_lines(mark: Seq<char>, texts: Seq<Seq<char>>) -> Seq<Seq<SpanView>> {
    Seq::new(
        texts.len(),
        |i: int|
            seq![plain("    "@), toned(Tone::Dim, mark), plain(" "@), toned(Tone::Dim, texts[i])],
    )
}

pub open spec fn ctx_lines(texts: Seq<Seq<char>>) -> Seq<Seq<SpanView>> {
    Seq::new(texts.len(), |i: int| seq![plain("    "@), toned(Tone::Dim, texts[i])])
}

/// The context of an event in a feed: in full, or in one line where there is any.
pub open spec fn feed_context(e: EventView, verbose: bool) -> Seq<Seq<SpanView>> {
    if verbose {
        ctx_lines(ctx_fields(e))
    } else if ctx_parts(e).len() > 0 {
        ctx_lines(seq!["["@ + joined(ctx_parts(e), " · "@) + "]"@])
    } else {
        seq![]
    }
}

/// An event in the feed: what happened, the note, the changes, and the context.
pub open spec fn log_event_lines(e: EventView, verbose: bool) -> Seq<Seq<SpanView>> {
    seq![
        seq![
            plain("  "@),
            toned(Tone::Dim, formatted(e.timestamp, "%Y-%m-%d %H:%M:%S"@)),
            plain("  "@),
            toned(action_tone(e.action), padded_right(e.action.name(), 10)),
            plain(" "@),
            toned(Tone::Cyan, e.issue_id),
        ],
    ] + (match e.note {
        Some(n) => seq![
            seq![plain("    "@), toned(Tone::Dim, "›"@), plain(" "@), plain(n)],
        ],
        None => seq![],
    }) + detail_lines("·"@, change_texts(e.changes)) + feed_context(e, verbose)
}

pub fn render_log_event(e: &Event, verbose: bool) -> (r: Vec<Vec<Span>>)
    ensures
        r.deep_view() == log_event_lines(e@, verbose),
{
    let mut r: Vec<Vec<Span>> = Vec::new();
    assert(r.deep_view() =~= seq![]);
    let mut head = new_line();
    push_span(&mut head, Tone::Plain, "  ");
    push_span(&mut head, Tone::Dim, &e.timestamp.format("%Y-%m-%d %H:%M:%S"));
    push_span(&mut head, Tone::Plain, "  ");
    push_span(&mut head, colored_action(e.action), &pad_right(e.action.text(), 10));
    push_span(&mut head, Tone::Plain, " ");
    push_span(&mut head, Tone::Cyan, &e.issue_id);
    let ghost hv = head.deep_view();
    assert(hv =~= seq![
        plain("  "@),
        toned(Tone::Dim, formatted(e@.timestamp, "%Y-%m-%d %H:%M:%S"@)),
        plain("  "@),
        toned(action_tone(e@.action), padded_right(e@.action.name(), 10)),
        plain(" "@),
        toned(Tone::Cyan, e@.issue_id),
    ]);
    push_line(&mut r, head);
    if let Some(n) = &e.note {
        let mut line = new_line();
        push_span(&mut line, Tone::Plain, "    ");
        push_span(&mut line, Tone::Dim, "›");
        push_span(&mut line, Tone::Plain, " ");
        push_span(&mut line, Tone::Plain, n);
        assert(line.deep_view() =~= seq![
            plain("    "@),
            toned(Tone::Dim, "›"@),
            plain(" "@),
            plain(n@),
        ]);
        push_line(&mut r, line);
    }
    let ghost front = r.deep_view();
    let changes = format_changes(&e.changes);
    let ghost details = detail_lines("·"@, change_texts(e@.changes));
    let mut i: usize = 0;
    assert(r.deep_view() =~= front + details.take(0));
    while i < changes.len()
        invariant
            i <= changes.len(),
            changes.deep_view() == change_texts(e@.changes),
            details == detail_lines("·"@, change_texts(e@.changes)),
            r.deep_view() == front + details.take(i as int),
        decreases changes.len() - i,
    {
        assert(changes.deep_view()[i as int] == changes@[i as int]@);
        let mut line = new_line();
        push_span(&mut line, Tone::Plain, "    ");
        push_span(&mut line, Tone::Dim, "·");
        push_span(&mut line, Tone::Plain, " ");
        push_span(&mut line, Tone::Dim, &changes[i]);
        assert(line.deep_view() =~= details[i as int]);
        push_line(&mut r, line);
        i += 1;
        assert(r.deep_view() =~= front + details.take(i as int));
    }
    assert(details.take(details.len() as int) =~= details);
    if verbose {
        let ghost middle = r.deep_view();
        let fields = agent_ctx_verbose(e);
        let ghost extra = ctx_lines(ctx_fields(e@));
        let mut k: usize = 0;
        assert(r.deep_view() =~= middle + extra.take(0));
        while k < fields.len()
            invariant
                k <= fields.len(),
                fields.deep_view() == ctx_fields(e@),
                extra == ctx_lines(ctx_fields(e@)),
                r.deep_view() == middle + extra.take(k as int),
            decreases fields.len() - k,
        {
            assert(fields.deep_view()[k as int] == fields@[k as int]@);
            let mut line = new_line();
            push_span(&mut line, Tone::Plain, "    ");
            push_span(&mut line, Tone::Dim, &fields[k]);
            assert(line.deep_view() =~= extra[k as int]);
            push_line(&mut r, line);
            k += 1;
            assert(r.deep_view() =~= middle + extra.take(k as int));
        }
        assert(extra.take(extra.len() as int) =~= extra);
    } else {
        match agent_ctx_line(e) {
            Some(ctx) => {
                let mut t = concat("[", &ctx);
                t.append("]");
                let ghost text = t@;
                let mut line = new_line();
                push_span(&mut line, Tone::Plain, "    ");
                push_span(&mut line, Tone::Dim, &t);
                assert(line.deep_view() =~= ctx_lines(seq![text])[0]);
                push_line(&mut r, line);
            },
            None => {},
        }
    }
    assert(r.deep_view() =~= log_event_lines(e@, verbose));
    r
}

// --------------------------------------------------------------------- sessions

/// `n event` or `n events`.
pub open spec fn event_number(n: nat) -> Seq<char> {
    decimal(n) + (if n == 1 {
        " event"@
    } else {
        " events"@
    })
}

/// What a session is called: its id, its name where that is another, the user, the harness
/// or platform, and the model.
pub open spec fn session_parts(s: SessionSummaryView) -> Seq<Seq<char>> {
    seq![s.session_id] + (match s.session_name {
        Some(n) => if n != s.session_id {
            seq![n]
        } else {
            seq![]
        },
        None => seq![],
    }) + opt_part(s.user_id) + opt_part(or_else(s.harness, s.platform)) + opt_part(s.model)
}

/// From the first event of a session to the last.
pub open spec fn session_range(s: SessionSummaryView) -> Seq<char> {
    formatted(s.first_at, "%Y-%m-%d %H:%M"@) + " → "@ + formatted(s.last_at, "%H:%M"@)
}

fn range_text(s: &SessionSummary) -> (r: String)
    ensures
        r@ == session_range(s.deep_view()),
{
    let mut r = concat(&s.first_at.format("%Y-%m-%d %H:%M"), " → ");
    r.append(&s.last_at.format("%H:%M"));
    r
}

/// The heading of a session.
pub open spec fn session_header(s: SessionSummaryView) -> Seq<SpanView> {
    seq![
        toned(Tone::Dim, "──"@),
        plain(" "@),
        toned(Tone::Bold, "session:"@),
        plain(" "@),
        toned(Tone::Cyan, joined(session_parts(s), " · "@)),
        plain("  "@),
        toned(Tone::Dim, "("@ + event_number(s.event_count) + ")"@),
        plain(" "@),
        toned(Tone::Dim, "·"@),
        plain(" "@),
        toned(Tone::Dim, session_range(s)),
    ]
}

pub fn print_session_header(s: &SessionSummary) -> (r: Vec<Span>)
    ensures
        r.deep_view() == session_header(s.deep_view()),
{
    let mut parts: Vec<String> = Vec::new();
    parts.push(s.session_id.clone());
    assert(parts.deep_view() =~= seq![s.session_id@]);
    let ghost p0 = parts.deep_view();
    if let Some(n) = &s.session_name {
        if !same_text(n, &s.session_id) {
            parts.push(n.clone());
            assert(parts.deep_view() =~= p0.push(n@));
        }
    }
    push_part(&mut parts, &s.user_id);
    push_part(&mut parts, first_some(&s.harness, &s.platform));
    push_part(&mut parts, &s.model);
    assert(parts.deep_view() =~= session_parts(s.deep_view()));
    let mut count = concat("(", &decimal_text(s.event_count as u64));
    count.append(
        if s.event_count == 1 {
            " event"
        } else {
            " events"
        },
    );
    count.append(")");
    assert(count@ =~= "("@ + event_number(s.event_count as nat) + ")"@);
    let mut r = new_line();
    push_span(&mut r, Tone::Dim, "──");
    push_span(&mut r, Tone::Plain, " ");
    push_span(&mut r, Tone::Bold, "session:");
    push_span(&mut r, Tone::Plain, " ");
    push_span(&mut r, Tone::Cyan, &join(&parts, " · "));
    push_span(&mut r, Tone::Plain, "  ");
    push_span(&mut r, Tone::Dim, &count);
    push_span(&mut r, Tone::Plain, " ");
    push_span(&mut r, Tone::Dim, "·");
    push_span(&mut r, Tone::Plain, " ");
    push_span(&mut r, Tone::Dim, &range_text(s));
    assert(r.deep_view() =~= session_header(s.deep_view()));
    r
}

/// The feed of some events, one after the other.
pub open spec fn feed_lines(events: Seq<EventView>, verbose: bool) -> Seq<Seq<SpanView>>
    decreases events.len(),
{
    if events.len() == 0 {
        seq![]
    } else {
        feed_lines(events.drop_last(), verbose) + log_event_lines(events.last(), verbose)
    }
}

/// The feed of some events.
pub fn render_feed(events: &Vec<&Event>, verbose: bool) -> (r: Vec<Vec<Span>>)
    ensures
        r.deep_view() == feed_lines(events.deep_view(), verbose),
{
    let ghost d = events.deep_view();
    let mut r: Vec<Vec<Span>> = Vec::new();
    let mut i: usize = 0;
    assert(r.deep_view() =~= feed_lines(d.take(0), verbose));
    while i < events.len()
        invariant
            i <= events.len(),
            d == events.deep_view(),
            r.deep_view() == feed_lines(d.take(i as int), verbose),
        decreases events.len() - i,
    {
        let ghost before = r.deep_view();
        assert(d.take(i + 1).drop_last() =~= d.take(i as int));
        assert(d.take(i + 1).last() == events@[i as int]@);
        let mut more = render_log_event(events[i], verbose);
        let ghost m = more.deep_view();
        r.append(&mut more);
        assert(r.deep_view() =~= before + m);
        i += 1;
    }
    assert(d.take(d.len() as int) =~= d);
    r
}

/// The feed of some events by session: the heading, the events from the oldest on, and an
/// empty line.
pub open spec fn grouped_lines(
    events: Seq<EventView>,
    sessions: Seq<SessionSummaryView>,
    verbose: bool,
) -> Seq<Seq<SpanView>>
    decreases sessions.len(),
{
    if sessions.len() == 0 {
        seq![]
    } else {
        let s = sessions.last();
        grouped_lines(events, sessions.drop_last(), verbose).push(session_header(s)) + feed_lines(
            session_events(events, s.session_id),
            verbose,
        ) + seq![seq![]]
    }
}

/// The feed of some events by session.
pub fn render_grouped(events: &Vec<Event>, verbose: bool) -> (r: Vec<Vec<Span>>)
    ensures
        r.deep_view() == grouped_lines(
            events.deep_view(),
            summaries(events.deep_view()),
            verbose,
        ),
{
    let sessions = summarize_sessions(events);
    let ghost d = sessions.deep_view();
    let ghost ev = events.deep_view();
    let mut r: Vec<Vec<Span>> = Vec::new();
    let mut i: usize = 0;
    assert(r.deep_view() =~= grouped_lines(ev, d.take(0), verbose));
    while i < sessions.len()
        invariant
            i <= sessions.len(),
            d == sessions.deep_view(),
            ev == events.deep_view(),
            r.deep_view() == grouped_lines(ev, d.take(i as int), verbose),
        decreases sessions.len() - i,
    {
        assert(d.take(i + 1).drop_last() =~= d.take(i as int));
        assert(d.take(i + 1).last() == sessions@[i as int].deep_view());
        push_line(&mut r, print_session_header(&sessions[i]));
        let ghost head = r.deep_view();
        let own = events_of_session(events, &sessions[i].session_id);
        let mut more = render_feed(&own, verbose);
        let ghost m = more.deep_view();
        r.append(&mut more);
        assert(r.deep_view() =~= head + m);
        push_line(&mut r, new_line());
        assert(r.deep_view() =~= head + m + seq![Seq::<SpanView>::empty()]);
        i += 1;
    }
    assert(d.take(d.len() as int) =~= d);
    r
}

/// A row in the list of sessions.
pub open spec fn session_row(s: SessionSummaryView) -> Seq<SpanView> {
    seq![
        toned(Tone::Cyan, padded_right(shortened(s.session_id, 24), 24)),
        plain(" "@),
        plain(padded_right(shortened(or_dash(s.user_id), 12), 12)),
        plain(" "@),
        plain(padded_right(shortened(or_dash(or_else(s.harness, s.platform)), 14), 14)),
        plain(" "@),
        plain(padded_right(shortened(or_dash(s.model), 22), 22)),
        plain(" "@),
        plain(padded_left(decimal(s.event_count), 6)),
        plain("  "@),
        toned(Tone::Dim, session_range(s)),
    ]
}

pub open spec fn or_dash(o: Option<Seq<char>>) -> Seq<char> {
    match o {
        Some(s) => s,
        None => "-"@,
    }
}

pub(crate) fn dash_or(o: &Option<String>) -> (r: String)
    ensures
        r@ == or_dash(o.deep_view()),
{
    match o {
        Some(s) => s.clone(),
        None => "-".to_owned(),
    }
}

/// The line below a row: the first five issues, and how many more there are.
pub open spec fn session_issues(ids: Seq<Seq<char>>) -> Seq<SpanView> {
    let shown = if ids.len() > 5 {
        ids.take(5)
    } else {
        ids
    };
    seq![
        plain(padded_right(""@, 24)),
        plain(" "@),
        toned(Tone::Dim, joined(shown, ", "@)),
        toned(
            Tone::Dim,
            if ids.len() > 5 {
                " (+"@ + decimal((ids.len() - 5) as nat) + " more)"@
            } else {
                ""@
            },
        ),
    ]
}

/// The rows of some sessions.
pub open spec fn session_rows(list: Seq<SessionSummaryView>) -> Seq<Seq<SpanView>>
    decreases list.len(),
{
    if list.len() == 0 {
        seq![]
    } else {
        let s = list.last();
        let before = session_rows(list.drop_last()).push(session_row(s));
        if s.issue_ids.len() == 0 {
            before
        } else {
            before.push(session_issues(s.issue_ids))
        }
    }
}

fn make_session_row(s: &SessionSummary) -> (r: Vec<Span>)
    ensures
        r.deep_view() == session_row(s.deep_view()),
{
    let mut r = new_line();
    push_span(&mut r, Tone::Cyan, &pad_right(&truncate(&s.session_id, 24), 24));
    push_span(&mut r, Tone::Plain, " ");
    push_span(&mut r, Tone::Plain, &pad_right(&truncate(&dash_or(&s.user_id), 12), 12));
    push_span(&mut r, Tone::Plain, " ");
    push_span(
        &mut r,
        Tone::Plain,
        &pad_right(&truncate(&dash_or(first_some(&s.harness, &s.platform)), 14), 14),
    );
    push_span(&mut r, Tone::Plain, " ");
    push_span(&mut r, Tone::Plain, &pad_right(&truncate(&dash_or(&s.model), 22), 22));
    push_span(&mut r, Tone::Plain, " ");
    push_span(&mut r, Tone::Plain, &pad_left(&decimal_text(s.event_count as u64), 6));
    push_span(&mut r, Tone::Plain, "  ");
    push_span(&mut r, Tone::Dim, &range_text(s));
    assert(r.deep_view() =~= session_row(s.deep_view()));
    r
}

fn make_session_issues(ids: &Vec<String>) -> (r: Vec<Span>)
    ensures
        r.deep_view() == session_issues(ids.deep_view()),
{
    let ghost d = ids.deep_view();
    let mut shown: Vec<String> = Vec::new();
    let mut i: usize = 0;
    while i < ids.len() && i < 5
        invariant
            i <= ids.len(),
            i <= 5,
            shown@.len() == i,
            forall|k: int| 0 <= k < i ==> (#[trigger] shown@[k])@ == ids@[k]@,
        decreases ids.len() - i,
    {
        shown.push(ids[i].clone());
        i += 1;
    }
    assert(shown.deep_view() =~= (if d.len() > 5 {
        d.take(5)
    } else {
        d
    }));
    let more = if ids.len() > 5 {
        let mut m = concat(" (+", &decimal_text((ids.len() - 5) as u64));
        m.append(" more)");
        m
    } else {
        "".to_owned()
    };
    let mut r = new_line();
    push_span(&mut r, Tone::Plain, &pad_right("", 24));
    push_span(&mut r, Tone::Plain, " ");
    push_span(&mut r, Tone::Dim, &join(&shown, ", "));
    push_span(&mut r, Tone::Dim, &more);
    assert(r.deep_view() =~= session_issues(d));
    r
}

/// The list of sessions, one row for each and a line for its issues.
pub fn render_sessions(list: &Vec<SessionSummary>) -> (r: Vec<Vec<Span>>)
    ensures
        r.deep_view() == session_rows(list.deep_view()),
{
    let ghost d = list.deep_view();
    let mut r: Vec<Vec<Span>> = Vec::new();
    let mut i: usize = 0;
    assert(r.deep_view() =~= session_rows(d.take(0)));
    while i < list.len()
        invariant
            i <= list.len(),
            d == list.deep_view(),
            r.deep_view() == session_rows(d.take(i as int)),
        decreases list.len() - i,
    {
        assert(d.take(i + 1).drop_last() =~= d.take(i as int));
        assert(d.take(i + 1).last() == list@[i as int].deep_view());
        let s = &list[i];
        push_line(&mut r, make_session_row(s));
        assert(s.issue_ids@.len() == s.issue_ids.deep_view().len());
        if s.issue_ids.len() > 0 {
            push_line(&mut r, make_session_issues(&s.issue_ids));
        }
        i += 1;
    }
    assert(d.take(d.len() as int) =~= d);
    r
}

// ------------------------------------------------------------------------- laws

/// One of the pieces of the line is that text.
pub open spec fn says(line: Seq<SpanView>, text: Seq<char>) -> bool {
    exists|k: int| 0 <= k < line.len() && (#[trigger] line[k]).text == text
}

/// Law: a change is told with the name of the field and both of its sides, and with a sign for
/// a side that is missing.
pub proof fn changes_tell_both_sides(c: FieldChangeView)
    ensures
        field_change_text(c).len() >= c.field.len(),
        field_change_text(c).take(c.field.len() as int) == c.field,
        c.from is Some && c.to is Some ==> field_change_text(c) == c.field + ": "@ + value_json(
            c.from->0,
        ) + " → "@ + value_json(c.to->0),
        c.from is None && c.to is Some ==> field_change_text(c) == c.field + ": ∅ → "@
            + value_json(c.to->0),
        c.from is Some && c.to is None ==> field_change_text(c) == c.field + ": "@ + value_json(
            c.from->0,
        ) + " → ∅"@,
        c.from is None && c.to is None ==> field_change_text(c) == c.field,
{
    assert(field_change_text(c).take(c.field.len() as int) =~= c.field);
}

/// Law: an event is by its user. Where it has none it is by its session: the name of it, or
/// the id of the platform, or that of the harness.
pub proof fn actors_are_users_before_sessions(e: EventView)
    ensures
        e.user_id is Some ==> actor(e) == e.user_id->0,
        e.user_id is None && e.session_name is Some ==> actor(e) == e.session_name->0,
        e.user_id is None && e.session_name is None && e.platform_session_id is Some ==> actor(e)
            == e.platform_session_id->0,
        e.user_id is None && e.session_name is None && e.platform_session_id is None
            && e.harness_session_id is Some ==> actor(e) == e.harness_session_id->0,
        e.user_id is None && e.session_name is None && e.platform_session_id is None
            && e.harness_session_id is None ==> actor(e) == "-"@,
{
}

/// Law: an event on one line tells when it was, which issue it is on, what was done and by
/// whom, the note, and every change.
pub proof fn event_lines_tell_the_event(e: EventView, k: int)
    ensures
        ({
            let line = event_line(e);
            &&& says(line, formatted(e.timestamp, "%Y-%m-%d %H:%M:%S"@))
            &&& says(line, e.issue_id)
            &&& says(line, e.action.name())
            &&& e.user_id is Some ==> says(line, e.user_id->0)
            &&& e.note is Some ==> says(line, " — "@ + e.note->0)
            &&& 0 <= k < e.changes.len() ==> exists|m: int|
                0 <= m < line.len() && crate::text::holds_text(
                    (#[trigger] line[m]).text,
                    field_change_text(e.changes[k]),
                )
        }),
{
    let line = event_line(e);
    assert(line[0].text == formatted(e.timestamp, "%Y-%m-%d %H:%M:%S"@));
    assert(line[2].text == e.issue_id);
    assert(line[4].text == e.action.name());
    assert(line[6].text == actor(e));
    let n: int = if e.note is Some {
        8
    } else {
        7
    };
    if e.note is Some {
        assert(line[7].text == " — "@ + e.note->0);
    }
    if 0 <= k < e.changes.len() {
        let texts = change_texts(e.changes);
        let all = joined(texts, ", "@);
        crate::text::joined_parts_are_held(texts, ", "@, k);
        let part = texts[k];
        crate::query::lemma_stands_in(all, part);
        crate::query::lemma_stands_deeper(" ["@, all, "]"@, part);
        crate::query::lemma_stands_in(" ["@ + all + "]"@, part);
        assert(line[n].text == " ["@ + all + "]"@);
    }
}

/// The line tells of the event when it was, what was done and which issue it is on.
pub open spec fn heads_event(line: Seq<SpanView>, e: EventView) -> bool {
    &&& says(line, formatted(e.timestamp, "%Y-%m-%d %H:%M:%S"@))
    &&& says(line, padded_right(e.action.name(), 10))
    &&& says(line, e.issue_id)
}

proof fn lemma_log_event(e: EventView, verbose: bool, k: int)
    ensures
        ({
            let r = log_event_lines(e, verbose);
            &&& r.len() > 0
            &&& heads_event(r[0], e)
            &&& e.note is Some ==> r.len() > 1 && says(r[1], e.note->0)
            &&& 0 <= k < e.changes.len() ==> exists|l: Seq<SpanView>| #[trigger]
                r.contains(l) && says(l, field_change_text(e.changes[k]))
        }),
{
    let r = log_event_lines(e, verbose);
    assert(r[0][1].text == formatted(e.timestamp, "%Y-%m-%d %H:%M:%S"@));
    assert(r[0][3].text == padded_right(e.action.name(), 10));
    assert(r[0][5].text == e.issue_id);
    let n: int = if e.note is Some {
        2
    } else {
        1
    };
    if e.note is Some {
        assert(r[1][3].text == e.note->0);
    }
    if 0 <= k < e.changes.len() {
        let texts = change_texts(e.changes);
        let l = detail_lines("·"@, texts)[k];
        assert(r[n + k] == l);
        assert(l[3].text == texts[k]);
        assert(r.contains(l));
    }
}

/// Law: a feed tells every event: when it was, what was done and on which issue, its note, and
/// every change.
pub proof fn feeds_tell_every_event(events: Seq<EventView>, verbose: bool, k: int, c: int)
    requires
        0 <= k < events.len(),
    ensures
        exists|l: Seq<SpanView>| #[trigger]
            feed_lines(events, verbose).contains(l) && heads_event(l, events[k]),
        events[k].note is Some ==> exists|l: Seq<SpanView>| #[trigger]
            feed_lines(events, verbose).contains(l) && says(l, events[k].note->0),
        0 <= c < events[k].changes.len() ==> exists|l: Seq<SpanView>| #[trigger]
            feed_lines(events, verbose).contains(l) && says(
                l,
                field_change_text(events[k].changes[c]),
            ),
    decreases events.len(),
{
    let front = events.drop_last();
    let before = feed_lines(front, verbose);
    let more = log_event_lines(events.last(), verbose);
    let all = feed_lines(events, verbose);
    assert forall|l: Seq<SpanView>| before.contains(l) || more.contains(l) implies #[trigger] all.contains(
        l,
    ) by {
        crate::filter::chained_lists_hold_both(before, more, l);
    }
    if k < front.len() {
        feeds_tell_every_event(front, verbose, k, c);
        assert(front[k] == events[k]);
        let l = choose|l: Seq<SpanView>| #[trigger]
            before.contains(l) && heads_event(l, front[k]);
        assert(all.contains(l));
        if events[k].note is Some {
            let l = choose|l: Seq<SpanView>| #[trigger]
                before.contains(l) && says(l, front[k].note->0);
            assert(all.contains(l));
        }
        if 0 <= c < events[k].changes.len() {
            let l = choose|l: Seq<SpanView>| #[trigger]
                before.contains(l) && says(l, field_change_text(front[k].changes[c]));
            assert(all.contains(l));
        }
    } else {
        let e = events[k];
        lemma_log_event(e, verbose, c);
        assert(more.contains(more[0]));
        assert(all.contains(more[0]));
        if e.note is Some {
            assert(more.contains(more[1]));
            assert(all.contains(more[1]));
        }
        if 0 <= c < e.changes.len() {
            let l = choose|l: Seq<SpanView>| #[trigger]
                more.contains(l) && says(l, field_change_text(e.changes[c]));
            assert(all.contains(l));
        }
    }
}

/// Law: in full, every variable of the context that is set has a line of its own.
pub proof fn context_lines_tell_every_variable(e: EventView)
    ensures
        e.user_id is Some ==> ctx_fields(e).contains(padded_right("user:"@, 10) + " "@ + e.user_id->0),
        e.model is Some ==> ctx_fields(e).contains(padded_right("model:"@, 10) + " "@ + e.model->0),
        e.harness is Some ==> ctx_fields(e).contains(
            padded_right("harness:"@, 10) + " "@ + e.harness->0,
        ),
        e.platform is Some ==> ctx_fields(e).contains(
            padded_right("platform:"@, 10) + " "@ + e.platform->0,
        ),
        e.session_name is Some ==> ctx_fields(e).contains(
            padded_right("session:"@, 10) + " "@ + e.session_name->0,
        ),
        e.workspace_id is Some ==> ctx_fields(e).contains(
            padded_right("workspace:"@, 10) + " "@ + e.workspace_id->0,
        ),
        e.request_id is Some ==> ctx_fields(e).contains(
            padded_right("request:"@, 10) + " "@ + e.request_id->0,
        ),
{
    lemma_ctx_field("user"@, "user:"@, e.user_id);
    lemma_ctx_field("model"@, "model:"@, e.model);
    lemma_ctx_field("harness"@, "harness:"@, e.harness);
    lemma_ctx_field("platform"@, "platform:"@, e.platform);
    lemma_ctx_field("session"@, "session:"@, e.session_name);
    lemma_ctx_field("workspace"@, "workspace:"@, e.workspace_id);
    lemma_ctx_field("request"@, "request:"@, e.request_id);
    reveal_strlit(":");
    reveal_strlit("user");
    reveal_strlit("user:");
    reveal_strlit("model");
    reveal_strlit("model:");
    reveal_strlit("harness");
    reveal_strlit("harness:");
    reveal_strlit("platform");
    reveal_strlit("platform:");
    reveal_strlit("session");
    reveal_strlit("session:");
    reveal_strlit("workspace");
    reveal_strlit("workspace:");
    reveal_strlit("request");
    reveal_strlit("request:");
    assert("user"@ + ":"@ =~= "user:"@);
    assert("model"@ + ":"@ =~= "model:"@);
    assert("harness"@ + ":"@ =~= "harness:"@);
    assert("platform"@ + ":"@ =~= "platform:"@);
    assert("session"@ + ":"@ =~= "session:"@);
    assert("workspace"@ + ":"@ =~= "workspace:"@);
    assert("request"@ + ":"@ =~= "request:"@);
    let a0 = ctx_field("user"@, e.user_id);
    let a1 = ctx_field("platform"@, e.platform);
    let a2 = ctx_field("harness"@, e.harness);
    let a3 = ctx_field("session"@, e.session_name);
    let a4 = ctx_field("plat_sid"@, e.platform_session_id);
    let a5 = ctx_field("harn_sid"@, e.harness_session_id);
    let a6 = ctx_field("workspace"@, e.workspace_id);
    let a7 = ctx_field("model"@, e.model);
    let a8 = ctx_field("request"@, e.request_id);
    let a9 = ctx_field("correlate"@, e.correlation_id);
    assert forall|x: Seq<char>|
        a0.contains(x) || a1.contains(x) || a2.contains(x) || a3.contains(x) || a6.contains(x)
            || a7.contains(x) || a8.contains(x) implies #[trigger] ctx_fields(e).contains(x) by {
        crate::filter::chained_lists_hold_both(a0, a1, x);
        crate::filter::chained_lists_hold_both(a0 + a1, a2, x);
        crate::filter::chained_lists_hold_both(a0 + a1 + a2, a3, x);
        crate::filter::chained_lists_hold_both(a0 + a1 + a2 + a3, a4, x);
        crate::filter::chained_lists_hold_both(a0 + a1 + a2 + a3 + a4, a5, x);
        crate::filter::chained_lists_hold_both(a0 + a1 + a2 + a3 + a4 + a5, a6, x);
        crate::filter::chained_lists_hold_both(a0 + a1 + a2 + a3 + a4 + a5 + a6, a7, x);
        crate::filter::chained_lists_hold_both(a0 + a1 + a2 + a3 + a4 + a5 + a6 + a7, a8, x);
        crate::filter::chained_lists_hold_both(a0 + a1 + a2 + a3 + a4 + a5 + a6 + a7 + a8, a9, x);
    }
}

proof fn lemma_ctx_field(label: Seq<char>, mark: Seq<char>, o: Option<Seq<char>>)
    ensures
        o is Some && label + ":"@ == mark ==> ctx_field(label, o).contains(
            padded_right(mark, 10) + " "@ + o->0,
        ),
{
    if o is Some && label + ":"@ == mark {
        assert(ctx_field(label, o)[0] == padded_right(mark, 10) + " "@ + o->0);
    }
}

/// Law: every session has a row that tells its user, its model, the number of its events and
/// the time that they span, and below it the first five of its issues.
pub proof fn session_lists_show_every_session(list: Seq<SessionSummaryView>, k: int)
    requires
        0 <= k < list.len(),
    ensures
        exists|l: Seq<SpanView>|
            {
                &&& #[trigger] session_rows(list).contains(l)
                &&& says(l, padded_right(shortened(list[k].session_id, 24), 24))
                &&& says(l, padded_left(decimal(list[k].event_count), 6))
                &&& says(
                    l,
                    formatted(list[k].first_at, "%Y-%m-%d %H:%M"@) + " → "@ + formatted(
                        list[k].last_at,
                        "%H:%M"@,
                    ),
                )
                &&& list[k].user_id is Some ==> says(
                    l,
                    padded_right(shortened(list[k].user_id->0, 12), 12),
                )
                &&& list[k].model is Some ==> says(
                    l,
                    padded_right(shortened(list[k].model->0, 22), 22),
                )
            },
        0 < list[k].issue_ids.len() <= 5 ==> exists|l: Seq<SpanView>| #[trigger]
            session_rows(list).contains(l) && says(l, joined(list[k].issue_ids, ", "@)),
        list[k].issue_ids.len() > 5 ==> exists|l: Seq<SpanView>| #[trigger]
            session_rows(list).contains(l) && says(l, joined(list[k].issue_ids.take(5), ", "@)),
    decreases list.len(),
{
    let front = list.drop_last();
    let before = session_rows(front);
    let all = session_rows(list);
    let s = list[k];
    let row = session_row(s);
    let below = session_issues(s.issue_ids);
    lemma_session_rows(list, k);
    assert(row[0].text == padded_right(shortened(s.session_id, 24), 24));
    assert(row[2].text == padded_right(shortened(or_dash(s.user_id), 12), 12));
    assert(row[6].text == padded_right(shortened(or_dash(s.model), 22), 22));
    assert(row[8].text == padded_left(decimal(s.event_count), 6));
    assert(row[10].text == session_range(s));
    assert(all.contains(row));
    if s.issue_ids.len() > 0 {
        assert(all.contains(below));
        if s.issue_ids.len() > 5 {
            assert(below[2].text == joined(s.issue_ids.take(5), ", "@));
        } else {
            assert(below[2].text == joined(s.issue_ids, ", "@));
        }
    }
}

proof fn lemma_session_rows(list: Seq<SessionSummaryView>, k: int)
    requires
        0 <= k < list.len(),
    ensures
        session_rows(list).contains(session_row(list[k])),
        list[k].issue_ids.len() > 0 ==> session_rows(list).contains(
            session_issues(list[k].issue_ids),
        ),
    decreases list.len(),
{
    let front = list.drop_last();
    let before = session_rows(front);
    let all = session_rows(list);
    let n = before.len() as int;
    assert forall|m: int| 0 <= m < before.len() implies #[trigger] all[m] == before[m] by {}
    if k < front.len() {
        lemma_session_rows(front, k);
        assert(front[k] == list[k]);
        let m = choose|m: int| 0 <= m < before.len() && before[m] == session_row(front[k]);
        assert(all[m] == session_row(list[k]));
        if list[k].issue_ids.len() > 0 {
            let m = choose|m: int|
                0 <= m < before.len() && before[m] == session_issues(front[k].issue_ids);
            assert(all[m] == session_issues(list[k].issue_ids));
        }
    } else {
        assert(all[n] == session_row(list[k]));
        if list[k].issue_ids.len() > 0 {
            assert(all[n + 1] == session_issues(list[k].issue_ids));
        }
    }
}

/// Law: a log by session has, for each session, a heading that names it and counts its events.
/// The events of the session are told below it.
pub proof fn logs_by_session_tell_every_session(
    events: Seq<EventView>,
    sessions: Seq<SessionSummaryView>,
    verbose: bool,
    k: int,
    e: EventView,
)
    requires
        0 <= k < sessions.len(),
    ensures
        exists|l: Seq<SpanView>|
            {
                &&& #[trigger] grouped_lines(events, sessions, verbose).contains(l)
                &&& says(l, "("@ + event_number(sessions[k].event_count) + ")"@)
                &&& exists|m: int|
                    0 <= m < l.len() && crate::text::holds_text(
                        (#[trigger] l[m]).text,
                        sessions[k].session_id,
                    )
            },
        events.contains(e) && crate::timeline::group_id(e) == sessions[k].session_id ==> exists|
            l: Seq<SpanView>,
        | #[trigger]
            grouped_lines(events, sessions, verbose).contains(l) && heads_event(l, e),
    decreases sessions.len(),
{
    let s = sessions[k];
    let front = sessions.drop_last();
    let before = grouped_lines(events, front, verbose);
    let last = sessions.last();
    let own = session_events(events, last.session_id);
    let feed = feed_lines(own, verbose);
    let head = before.push(session_header(last));
    let tail = seq![Seq::<SpanView>::empty()];
    let all = grouped_lines(events, sessions, verbose);
    assert(all =~= head + feed + tail);
    assert forall|l: Seq<SpanView>| before.contains(l) || feed.contains(l) || l == session_header(
        last,
    ) implies #[trigger] all.contains(l) by {
        crate::filter::chained_lists_hold_both(head, feed, l);
        crate::filter::chained_lists_hold_both(head + feed, tail, l);
        if before.contains(l) {
            let m = choose|m: int| 0 <= m < before.len() && before[m] == l;
            assert(head[m] == l);
        }
        if l == session_header(last) {
            assert(head[before.len() as int] == l);
        }
    }
    if k < front.len() {
        logs_by_session_tell_every_session(events, front, verbose, k, e);
        assert(front[k] == s);
        let l = choose|l: Seq<SpanView>|
            {
                &&& #[trigger] before.contains(l)
                &&& says(l, "("@ + event_number(front[k].event_count) + ")"@)
                &&& exists|m: int|
                    0 <= m < l.len() && crate::text::holds_text(
                        (#[trigger] l[m]).text,
                        front[k].session_id,
                    )
            };
        assert(all.contains(l));
        if events.contains(e) && crate::timeline::group_id(e) == s.session_id {
            let l = choose|l: Seq<SpanView>| #[trigger]
                before.contains(l) && heads_event(l, e);
            assert(all.contains(l));
        }
    } else {
        let l = session_header(last);
        assert(all.contains(l));
        assert(l[6].text == "("@ + event_number(s.event_count) + ")"@);
        let parts = session_parts(s);
        assert(parts[0] == s.session_id);
        crate::text::joined_parts_are_held(parts, " · "@, 0);
        assert(l[4].text == joined(parts, " · "@));
        if events.contains(e) && crate::timeline::group_id(e) == s.session_id {
            let id = last.session_id;
            let f = |e: EventView| crate::timeline::group_id(e) == id;
            let le = |a: EventView, b: EventView| crate::timeline::older_first(a, b);
            crate::filter::filtering_keeps_what_passes(events, f, e);
            crate::sort::sorting_keeps_each(events.filter(f), le, e);
            assert(own.contains(e));
            let m = choose|m: int| 0 <= m < own.len() && own[m] == e;
            feeds_tell_every_event(own, verbose, m, 0);
            let l = choose|l: Seq<SpanView>| #[trigger]
                feed.contains(l) && heads_event(l, own[m]);
            assert(all.contains(l));
        }
    }
}

} // verus!
