//! Visual attributes of a box and their encoding as terminal attributes.

use vstd::prelude::*;
use crate::color::DomColor;

verus! {

/// The colours of `ansi_term`, a plain enum whose variants Verus reads.
#[verifier::external_type_specification]
pub struct ExColour(ansi_term::Colour);

/// The style record of `ansi_term`: two optional colours and eight flags, all
/// public fields.
#[verifier::external_type_specification]
pub struct ExStyle(ansi_term::Style);

/// `ansi_term::Style::new` returns the default style: no colours, no flag set.
pub assume_specification[ ansi_term::Style::new ]() -> (s: ansi_term::Style)
    ensures
        s == plain_style(),
;

/// `ansi_term::Style::fg` copies the style with the foreground replaced.
pub assume_specification[ ansi_term::Style::fg ](
    this: &ansi_term::Style,
    foreground: ansi_term::Colour,
) -> (s: ansi_term::Style)
    ensures
        s == (ansi_term::Style { foreground: Some(foreground), ..*this }),
;

/// `ansi_term::Style::on` copies the style with the background replaced.
pub assume_specification[ ansi_term::Style::on ](
    this: &ansi_term::Style,
    background: ansi_term::Colour,
) -> (s: ansi_term::Style)
    ensures
        s == (ansi_term::Style { background: Some(background), ..*this }),
;

/// `ansi_term::Style::bold` copies the style with the bold flag set.
pub assume_specification[ ansi_term::Style::bold ](this: &ansi_term::Style) -> (s:
    ansi_term::Style)
    ensures
        s == (ansi_term::Style { is_bold: true, ..*this }),
;

/// `ansi_term::Style::underline` copies the style with the underline flag set.
pub assume_specification[ ansi_term::Style::underline ](this: &ansi_term::Style) -> (s:
    ansi_term::Style)
    ensures
        s == (ansi_term::Style { is_underline: true, ..*this }),
;

/// `ansi_term::Style::strikethrough` copies the style with the strikethrough
/// flag set.
pub assume_specification[ ansi_term::Style::strikethrough ](this: &ansi_term::Style) -> (s:
    ansi_term::Style)
    ensures
        s == (ansi_term::Style { is_strikethrough: true, ..*this }),
;

/// `ansi_term::Style::italic` copies the style with the italic flag set.
pub assume_specification[ ansi_term::Style::italic ](this: &ansi_term::Style) -> (s:
    ansi_term::Style)
    ensures
        s == (ansi_term::Style { is_italic: true, ..*this }),
;

/// The terminal style with no colour and no flag.
pub open spec fn plain_style() -> ansi_term::Style {
    ansi_term::Style {
        foreground: None,
        background: None,
        is_bold: false,
        is_dimmed: false,
        is_italic: false,
        is_underline: false,
        is_blink: false,
        is_reverse: false,
        is_hidden: false,
        is_strikethrough: false,
    }
}

/// A palette index as a terminal colour.
pub open spec fn fixed_colour(color: DomColor) -> Option<ansi_term::Colour> {
    match color.0 {
        Some(index) => Some(ansi_term::Colour::Fixed(index)),
        None => None,
    }
}

/// Horizontal placement of text inside its box.
#[derive(Clone, Copy, Debug, PartialEq, Eq, Structural)]
pub enum TextAlign {
    Left,
    Center,
    Right,
}

impl Default for TextAlign {
    fn default() -> (a: TextAlign)
        ensures
            a == TextAlign::Left,
    {
        TextAlign::Left
    }
}

/// The glyph family a border edge is drawn with.
#[derive(Clone, Copy, Debug, PartialEq, Eq, Structural)]
pub enum BorderType {
    Empty,
    Dash,
    Thin,
    Double,
    Bold,
}

impl Default for BorderType {
    fn default() -> (b: BorderType)
        ensures
            b == BorderType::Empty,
    {
        BorderType::Empty
    }
}

impl BorderType {
    /// The glyph of a horizontal border line.
    pub open spec fn horizontal(self) -> char {
        match self {
            BorderType::Empty => ' ',
            BorderType::Dash => '╌',
            BorderType::Thin => '─',
            BorderType::Double => '═',
            BorderType::Bold => '━',
        }
    }

    /// The glyph of a vertical border line.
    pub open spec fn vertical(self) -> char {
        match self {
            BorderType::Empty => ' ',
            BorderType::Dash => '╎',
            BorderType::Thin => '│',
            BorderType::Double => '║',
            BorderType::Bold => '┃',
        }
    }

    /// The glyph of a horizontal border line.
    pub fn horizontal_glyph(self) -> (c: char)
        ensures
            c == self.horizontal(),
    {
        match self {
            BorderType::Empty => ' ',
            BorderType::Dash => '╌',
            BorderType::Thin => '─',
            BorderType::Double => '═',
            BorderType::Bold => '━',
        }
    }

    /// The glyph of a vertical border line.
    pub fn vertical_glyph(self) -> (c: char)
        ensures
            c == self.vertical(),
    {
        match self {
            BorderType::Empty => ' ',
            BorderType::Dash => '╎',
            BorderType::Thin => '│',
            BorderType::Double => '║',
            BorderType::Bold => '┃',
        }
    }
}

/// The visual attributes of a box.
#[derive(Clone, Copy, Debug, PartialEq, Eq, Structural)]
pub struct DomStyle {
    pub bg: DomColor,
    pub fg: DomColor,
    pub bold: bool,
    pub underline: bool,
    pub strikethrough: bool,
    pub italic: bool,
    pub code: bool,
    /// Keep the width the parent allots instead of shrinking to the children.
    pub extend: bool,
    pub align: TextAlign,
    pub border_type: BorderType,
    pub top_nb_type: BorderType,
    pub bottom_nb_type: BorderType,
    pub left_nb_type: BorderType,
    pub right_nb_type: BorderType,
}

impl DomStyle {
    /// The style of a freshly made box: no colour, no flag, left aligned,
    /// empty borders.
    pub open spec fn plain() -> DomStyle {
        DomStyle {
            bg: DomColor(None),
            fg: DomColor(None),
            bold: false,
            underline: false,
            strikethrough: false,
            italic: false,
            code: false,
            extend: false,
            align: TextAlign::Left,
            border_type: BorderType::Empty,
            top_nb_type: BorderType::Empty,
            bottom_nb_type: BorderType::Empty,
            left_nb_type: BorderType::Empty,
            right_nb_type: BorderType::Empty,
        }
    }

    /// The terminal attributes that encode this style: the two colours as
    /// palette entries and the four emphasis flags; nothing else is set.
    pub open spec fn ansi(self) -> ansi_term::Style {
        ansi_term::Style {
            foreground: fixed_colour(self.fg),
            background: fixed_colour(self.bg),
            is_bold: self.bold,
            is_underline: self.underline,
            is_strikethrough: self.strikethrough,
            is_italic: self.italic,
            ..plain_style()
        }
    }

    /// The style as terminal attributes.
    pub fn to_ansi(&self) -> (astyle: ansi_term::Style)
        ensures
            astyle == self.ansi(),
    {
        let mut astyle = ansi_term::Style::new();
        match self.fg.index() {
            None => {},
            Some(idx) => {
                astyle = astyle.fg(ansi_term::Colour::Fixed(idx));
            },
        }
        match self.bg.index() {
            None => {},
            Some(idx) => {
                astyle = astyle.on(ansi_term::Colour::Fixed(idx));
            },
        }
        if self.bold {
            astyle = astyle.bold();
        }
        if self.underline {
            astyle = astyle.underline();
        }
        if self.strikethrough {
            astyle = astyle.strikethrough();
        }
        if self.italic {
            astyle = astyle.italic();
        }
        astyle
    }
}

impl Default for DomStyle {
    fn default() -> (s: DomStyle)
        ensures
            s == DomStyle::plain(),
    {
        DomStyle {
            bg: DomColor(None),
            fg: DomColor(None),
            bold: false,
            underline: false,
            strikethrough: false,
            italic: false,
            code: false,
            extend: false,
            align: TextAlign::Left,
            border_type: BorderType::Empty,
            top_nb_type: BorderType::Empty,
            bottom_nb_type: BorderType::Empty,
            left_nb_type: BorderType::Empty,
            right_nb_type: BorderType::Empty,
        }
    }
}

} // verus!
