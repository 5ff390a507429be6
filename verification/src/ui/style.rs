//! Colours, styles, spans of styled text and single cells.

use vstd::prelude::*;

verus! {

/// A terminal colour.
#[derive(Clone, Copy, PartialEq, Eq, Structural, Debug)]
pub enum Color {
    Black,
    White,
    Gray,
    DarkGray,
    Red,
    Green,
    Yellow,
    Magenta,
    Cyan,
    /// A 24-bit colour.
    Rgb(u8, u8, u8),
}

/// How text is drawn: colours, weight and underline. `None` leaves a colour as it is.
#[derive(Clone, Copy, PartialEq, Eq, Structural, Debug)]
pub struct Style {
    pub fg: Option<Color>,
    pub bg: Option<Color>,
    pub bold: bool,
    pub underlined: bool,
    pub underline_color: Option<Color>,
}

/// A style that only sets the foreground colour.
pub open spec fn fg_spec(c: Color) -> Style {
    Style { fg: Some(c), bg: None, bold: false, underlined: false, underline_color: None }
}

/// A foreground colour, bold.
pub open spec fn fg_bold_spec(c: Color) -> Style {
    Style { bold: true, ..fg_spec(c) }
}

/// Foreground on background.
pub open spec fn on_spec(fg: Color, bg: Color) -> Style {
    Style { bg: Some(bg), ..fg_spec(fg) }
}

/// Foreground on background, bold.
pub open spec fn on_bold_spec(fg: Color, bg: Color) -> Style {
    Style { bold: true, ..on_spec(fg, bg) }
}

/// The style that changes nothing.
pub open spec fn plain_spec() -> Style {
    Style { fg: None, bg: None, bold: false, underlined: false, underline_color: None }
}

/// See [`fg_spec`].
pub fn fg(c: Color) -> (s: Style)
    ensures
        s == fg_spec(c),
{
    Style { fg: Some(c), bg: None, bold: false, underlined: false, underline_color: None }
}

/// See [`fg_bold_spec`].
pub fn fg_bold(c: Color) -> (s: Style)
    ensures
        s == fg_bold_spec(c),
{
    Style { fg: Some(c), bg: None, bold: true, underlined: false, underline_color: None }
}

/// See [`on_spec`].
pub fn on(fg: Color, bg: Color) -> (s: Style)
    ensures
        s == on_spec(fg, bg),
{
    Style { fg: Some(fg), bg: Some(bg), bold: false, underlined: false, underline_color: None }
}

/// See [`on_bold_spec`].
pub fn on_bold(fg: Color, bg: Color) -> (s: Style)
    ensures
        s == on_bold_spec(fg, bg),
{
    Style { fg: Some(fg), bg: Some(bg), bold: true, underlined: false, underline_color: None }
}

/// See [`plain_spec`].
pub fn plain() -> (s: Style)
    ensures
        s == plain_spec(),
{
    Style { fg: None, bg: None, bold: false, underlined: false, underline_color: None }
}

/// A piece of text in one style.
pub struct Span {
    pub text: String,
    pub style: Style,
}

/// A span as the specification sees it.
pub open spec fn span_view(s: Span) -> (Seq<char>, Style) {
    (s.text@, s.style)
}

/// A line of spans as the specification sees it.
pub open spec fn line_view(l: Seq<Span>) -> Seq<(Seq<char>, Style)> {
    l.map_values(|s: Span| span_view(s))
}

/// Lines of spans as the specification sees them.
pub open spec fn lines_view(ls: Seq<Vec<Span>>) -> Seq<Seq<(Seq<char>, Style)>> {
    ls.map_values(|l: Vec<Span>| line_view(l@))
}

/// A span of text.
pub fn span(text: String, style: Style) -> (s: Span)
    ensures
        span_view(s) == (text@, style),
{
    Span { text, style }
}

/// A span of a string slice's text.
pub fn span_str(text: &str, style: Style) -> (s: Span)
    ensures
        span_view(s) == (text@, style),
{
    let mut t = String::new();
    crate::text::push_str(&mut t, text);
    Span { text: t, style }
}

/// One character cell; `None` leaves the cell's style as it is.
#[derive(Clone, Copy, PartialEq, Eq, Structural, Debug)]
pub struct Cell {
    pub ch: char,
    pub style: Option<Style>,
}

} // verus!
