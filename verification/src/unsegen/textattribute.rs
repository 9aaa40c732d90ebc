//! Text attributes: colors and a style, where an absent color or an unset
//! style flag means "don't care", so that attributes can be layered.
use vstd::prelude::*;

verus! {

/// Style flags of text.
#[derive(Clone, Copy, PartialEq, Eq, Debug, Structural)]
pub struct Style {
    pub bold: bool,
    pub italic: bool,
    pub invert: bool,
    pub underline: bool,
}

/// The style with each flag set where it is set in `a` or in `b`.
pub open spec fn style_or(a: Style, b: Style) -> Style {
    Style {
        bold: a.bold || b.bold,
        italic: a.italic || b.italic,
        invert: a.invert || b.invert,
        underline: a.underline || b.underline,
    }
}

/// The style with no flag set.
pub open spec fn plain_style() -> Style {
    Style { bold: false, italic: false, invert: false, underline: false }
}

impl Style {
    /// The style with no flag set.
    pub fn new() -> (r: Self)
        ensures
            r == plain_style(),
    {
        Style { bold: false, italic: false, invert: false, underline: false }
    }

    /// This style, bold.
    pub fn bold(self) -> (r: Self)
        ensures
            r == (Style { bold: true, ..self }),
    {
        Style { bold: true, ..self }
    }

    /// This style, italic.
    pub fn italic(self) -> (r: Self)
        ensures
            r == (Style { italic: true, ..self }),
    {
        Style { italic: true, ..self }
    }

    /// This style, inverted.
    pub fn invert(self) -> (r: Self)
        ensures
            r == (Style { invert: true, ..self }),
    {
        Style { invert: true, ..self }
    }

    /// This style, underlined.
    pub fn underline(self) -> (r: Self)
        ensures
            r == (Style { underline: true, ..self }),
    {
        Style { underline: true, ..self }
    }

    /// The flags set in this style or in `other`.
    pub fn or(&self, other: &Self) -> (r: Self)
        ensures
            r == style_or(*self, *other),
    {
        Style {
            bold: self.bold || other.bold,
            italic: self.italic || other.italic,
            invert: self.invert || other.invert,
            underline: self.underline || other.underline,
        }
    }
}

impl Default for Style {
    fn default() -> (r: Self)
        ensures
            r == plain_style(),
    {
        Style::new()
    }
}

/// A color by its red, green and blue parts.
#[derive(Clone, Copy, PartialEq, Eq, Debug, Structural)]
pub struct Color {
    pub r: u8,
    pub g: u8,
    pub b: u8,
}

impl Color {
    pub fn new(r: u8, g: u8, b: u8) -> (c: Self)
        ensures
            c == (Color { r, g, b }),
    {
        Color { r, g, b }
    }

    pub fn green() -> (c: Self)
        ensures
            c == (Color { r: 0, g: 255, b: 0 }),
    {
        Color::new(0, 255, 0)
    }

    pub fn blue() -> (c: Self)
        ensures
            c == (Color { r: 0, g: 0, b: 255 }),
    {
        Color::new(0, 0, 255)
    }
}

/// Foreground and background colors and a style; an absent color means
/// "don't care".
#[derive(Clone, Copy, PartialEq, Eq, Debug, Structural)]
pub struct TextAttribute {
    pub fg_color: Option<Color>,
    pub bg_color: Option<Color>,
    pub style: Style,
}

/// The first of two optional values that is present.
pub open spec fn first_some<T>(a: Option<T>, b: Option<T>) -> Option<T> {
    match a {
        Some(x) => Some(x),
        None => b,
    }
}

/// The attribute that takes each color from `a` where it has one, else
/// from `b`, and the style flags of both.
pub open spec fn attribute_or(a: TextAttribute, b: TextAttribute) -> TextAttribute {
    TextAttribute {
        fg_color: first_some(a.fg_color, b.fg_color),
        bg_color: first_some(a.bg_color, b.bg_color),
        style: style_or(a.style, b.style),
    }
}

/// The attribute without colors and style.
pub open spec fn plain_attribute() -> TextAttribute {
    TextAttribute { fg_color: None, bg_color: None, style: plain_style() }
}

fn first_color(a: Option<Color>, b: Option<Color>) -> (r: Option<Color>)
    ensures
        r == first_some(a, b),
{
    match a {
        Some(x) => Some(x),
        None => b,
    }
}

impl TextAttribute {
    /// The attribute with the given colors and style (no style: the plain
    /// one).
    pub fn new(fg: Option<Color>, bg: Option<Color>, style: Option<Style>) -> (r: TextAttribute)
        ensures
            r == (TextAttribute {
                fg_color: fg,
                bg_color: bg,
                style: match style {
                    Some(s) => s,
                    None => plain_style(),
                },
            }),
    {
        let style = match style {
            Some(s) => s,
            None => Style::default(),
        };
        TextAttribute { fg_color: fg, bg_color: bg, style }
    }

    /// The attribute without colors and style.
    pub fn plain() -> (r: TextAttribute)
        ensures
            r == plain_attribute(),
    {
        TextAttribute { fg_color: None, bg_color: None, style: Style::default() }
    }

    /// This attribute, with what it leaves open taken from `other`.
    pub fn or(&self, other: &TextAttribute) -> (r: TextAttribute)
        ensures
            r == attribute_or(*self, *other),
    {
        TextAttribute {
            fg_color: first_color(self.fg_color, other.fg_color),
            bg_color: first_color(self.bg_color, other.bg_color),
            style: self.style.or(&other.style),
        }
    }
}

impl Default for TextAttribute {
    fn default() -> (r: Self)
        ensures
            r == plain_attribute(),
    {
        TextAttribute::plain()
    }
}

/// The plain attribute changes nothing when layered under or over another.
pub proof fn lemma_plain_is_neutral(a: TextAttribute)
    ensures
        attribute_or(plain_attribute(), a) == a,
        attribute_or(a, plain_attribute()) == a,
{
}

/// Layering attributes is associative.
pub proof fn lemma_or_associative(a: TextAttribute, b: TextAttribute, c: TextAttribute)
    ensures
        attribute_or(attribute_or(a, b), c) == attribute_or(a, attribute_or(b, c)),
{
}

/// Combining styles is commutative and idempotent.
pub proof fn lemma_style_or_commutative_idempotent(a: Style, b: Style)
    ensures
        style_or(a, b) == style_or(b, a),
        style_or(a, a) == a,
{
}

} // verus!
