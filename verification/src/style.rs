//! Text with emphasis, as it is shown to the user.
use vstd::prelude::*;

verus! {

/// How a piece of text is shown.
#[derive(Clone, Copy, Debug, PartialEq, Eq, Structural)]
pub enum Tone {
    Plain,
    Bold,
    Dim,
    White,
    Red,
    Green,
    Yellow,
    Blue,
    Magenta,
    Cyan,
    CyanBold,
    BrightRed,
    BrightGreen,
    BrightBlue,
    BrightCyan,
    Dark,
    DarkBold,
    RedBold,
    GreenBold,
    YellowBold,
    BlueBold,
    MagentaBold,
    WhiteBold,
    /// The view that is in force.
    Marked,
}

#[derive(Clone, Debug)]
pub struct Span {
    pub tone: Tone,
    pub text: String,
}

pub struct SpanView {
    pub tone: Tone,
    pub text: Seq<char>,
}

impl DeepView for Span {
    type V = SpanView;

    open spec fn deep_view(&self) -> SpanView {
        SpanView { tone: self.tone, text: self.text@ }
    }
}

/// A piece of text in a tone.
pub open spec fn toned(tone: Tone, text: Seq<char>) -> SpanView {
    SpanView { tone, text }
}

pub open spec fn plain(text: Seq<char>) -> SpanView {
    SpanView { tone: Tone::Plain, text }
}

/// Appends a piece of text to a line.
pub fn push_span(line: &mut Vec<Span>, tone: Tone, text: &str)
    ensures
        final(line).deep_view() == old(line).deep_view().push(toned(tone, text@)),
{
    let ghost before = line.deep_view();
    line.push(Span { tone, text: text.to_owned() });
    assert(line.deep_view() =~= before.push(toned(tone, text@)));
}

/// The text of a line without its tones.
pub open spec fn line_text(line: Seq<SpanView>) -> Seq<char>
    decreases line.len(),
{
    if line.len() == 0 {
        seq![]
    } else {
        line_text(line.drop_last()) + line.last().text
    }
}

/// An empty line.
pub fn new_line() -> (r: Vec<Span>)
    ensures
        r.deep_view() == Seq::<SpanView>::empty(),
{
    let r: Vec<Span> = Vec::new();
    assert(r.deep_view() =~= Seq::<SpanView>::empty());
    r
}

/// A line of one piece.
pub fn line_of(tone: Tone, text: &str) -> (r: Vec<Span>)
    ensures
        r.deep_view() == seq![toned(tone, text@)],
{
    let mut r = new_line();
    push_span(&mut r, tone, text);
    assert(r.deep_view() =~= seq![toned(tone, text@)]);
    r
}

/// Appends a line.
pub fn push_line(lines: &mut Vec<Vec<Span>>, line: Vec<Span>)
    ensures
        final(lines).deep_view() == old(lines).deep_view().push(line.deep_view()),
{
    let ghost before = lines.deep_view();
    lines.push(line);
    assert(lines.deep_view() =~= before.push(line.deep_view()));
}

/// Appends lines.
pub fn push_lines(lines: &mut Vec<Vec<Span>>, more: Vec<Vec<Span>>)
    ensures
        final(lines).deep_view() == old(lines).deep_view() + more.deep_view(),
{
    let ghost before = lines.deep_view();
    let mut rest = more;
    let ghost added = rest.deep_view();
    lines.append(&mut rest);
    assert(lines.deep_view() =~= before + added);
}

/// No lines.
pub fn no_lines() -> (r: Vec<Vec<Span>>)
    ensures
        r.deep_view() == Seq::<Seq<SpanView>>::empty(),
{
    let r: Vec<Vec<Span>> = Vec::new();
    assert(r.deep_view() =~= Seq::<Seq<SpanView>>::empty());
    r
}

/// A line of two pieces.
pub fn line_of_two(t1: Tone, s1: &str, t2: Tone, s2: &str) -> (r: Vec<Span>)
    ensures
        r.deep_view() == seq![toned(t1, s1@), toned(t2, s2@)],
{
    let mut r = new_line();
    push_span(&mut r, t1, s1);
    push_span(&mut r, t2, s2);
    assert(r.deep_view() =~= seq![toned(t1, s1@), toned(t2, s2@)]);
    r
}

/// One line for each text, behind the same piece.
pub open spec fn listed_lines(head: SpanView, tone: Tone, texts: Seq<Seq<char>>) -> Seq<
    Seq<SpanView>,
> {
    Seq::new(texts.len(), |i: int| seq![head, toned(tone, texts[i])])
}

pub fn list_texts(head_tone: Tone, head: &str, tone: Tone, texts: &Vec<String>) -> (r: Vec<
    Vec<Span>,
>)
    ensures
        r.deep_view() == listed_lines(toned(head_tone, head@), tone, texts.deep_view()),
{
    let ghost all = listed_lines(toned(head_tone, head@), tone, texts.deep_view());
    let mut r = no_lines();
    let mut i: usize = 0;
    assert(r.deep_view() =~= all.take(0));
    while i < texts.len()
        invariant
            i <= texts.len(),
            all == listed_lines(toned(head_tone, head@), tone, texts.deep_view()),
            r.deep_view() == all.take(i as int),
        decreases texts.len() - i,
    {
        push_line(&mut r, line_of_two(head_tone, head, tone, &texts[i]));
        assert(all[i as int] =~= seq![toned(head_tone, head@), toned(tone, texts@[i as int]@)]);
        i += 1;
        assert(r.deep_view() =~= all.take(i as int));
    }
    assert(all.take(all.len() as int) =~= all);
    r
}

} // verus!
