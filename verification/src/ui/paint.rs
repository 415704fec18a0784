//! Text with styles, free of any terminal.

use vstd::prelude::*;

verus! {

broadcast use vstd::string::group_string_axioms;

/// The colours the interface uses.
#[derive(Debug, Clone, Copy, PartialEq, Eq, Structural)]
pub enum Color {
    Red,
    Green,
    Yellow,
    Cyan,
    Gray,
    DarkGray,
}

/// How a stretch of text looks.
#[derive(Debug, Clone, Copy, PartialEq, Eq, Structural)]
pub struct Style {
    pub fg: Option<Color>,
    pub bold: bool,
    pub underlined: bool,
    pub italic: bool,
    pub reversed: bool,
}

impl Style {
    /// Text as it comes.
    pub open spec fn plain_of() -> Style {
        Style { fg: None, bold: false, underlined: false, italic: false, reversed: false }
    }

    /// Text in one colour.
    pub open spec fn fg_of(c: Color) -> Style {
        Style { fg: Some(c), ..Style::plain_of() }
    }

    /// Text as it comes.
    pub fn plain() -> (r: Style)
        ensures
            r == Style::plain_of(),
    {
        Style { fg: None, bold: false, underlined: false, italic: false, reversed: false }
    }

    /// Text in one colour.
    pub fn colored(c: Color) -> (r: Style)
        ensures
            r == Style::fg_of(c),
    {
        Style { fg: Some(c), bold: false, underlined: false, italic: false, reversed: false }
    }
}

/// A stretch of text in one style.
#[derive(Debug, PartialEq, Eq)]
pub struct Span {
    pub content: String,
    pub style: Style,
}

/// The contents of a [`Span`].
#[verifier::ext_equal]
pub struct SpanView {
    pub content: Seq<char>,
    pub style: Style,
}

impl View for Span {
    type V = SpanView;

    open spec fn view(&self) -> SpanView {
        SpanView { content: self.content@, style: self.style }
    }
}

/// The contents of a list of spans.
pub open spec fn span_views(v: Seq<Span>) -> Seq<SpanView> {
    Seq::new(v.len(), |i: int| v[i]@)
}

/// One line of text; without spans it is blank.
#[derive(Debug, PartialEq, Eq)]
pub struct Line {
    pub spans: Vec<Span>,
}

impl View for Line {
    type V = Seq<SpanView>;

    open spec fn view(&self) -> Seq<SpanView> {
        span_views(self.spans@)
    }
}

/// The contents of a list of lines.
pub open spec fn line_views(v: Seq<Line>) -> Seq<Seq<SpanView>> {
    Seq::new(v.len(), |i: int| v[i]@)
}

/// A line in one style.
pub open spec fn styled_of(content: Seq<char>, style: Style) -> Seq<SpanView> {
    seq![SpanView { content, style }]
}

/// Whether no stretch of the line is longer than `w`.
pub open spec fn is_within(line: Seq<SpanView>, w: int) -> bool {
    forall|i: int| 0 <= i < line.len() ==> (#[trigger] line[i]).content.len() <= w
}

/// A line in one style.
pub fn styled(content: String, style: Style) -> (r: Line)
    ensures
        r@ == styled_of(content@, style),
{
    let spans: Vec<Span> = vec![Span { content, style }];
    let r = Line { spans };
    assert(r@ =~= styled_of(content@, style));
    r
}

/// A blank line.
pub fn blank() -> (r: Line)
    ensures
        r@ == Seq::<SpanView>::empty(),
{
    let r = Line { spans: Vec::new() };
    assert(r@ =~= Seq::<SpanView>::empty());
    r
}

} // verus!
