//! Terminal colours: the eight base hues and the 256-entry palette.

use vstd::prelude::*;

verus! {

/// One of the eight base hues of a terminal.
#[derive(Clone, Copy, Debug, PartialEq, Eq, Structural)]
pub enum TermColor {
    Black,
    Red,
    Green,
    Yellow,
    Blue,
    Purple,
    Cyan,
    White,
}

impl TermColor {
    /// Position of the hue among the eight base hues.
    pub open spec fn ordinal(self) -> u8 {
        match self {
            TermColor::Black => 0,
            TermColor::Red => 1,
            TermColor::Green => 2,
            TermColor::Yellow => 3,
            TermColor::Blue => 4,
            TermColor::Purple => 5,
            TermColor::Cyan => 6,
            TermColor::White => 7,
        }
    }

    /// The position of the hue among the eight base hues.
    pub fn code(self) -> (n: u8)
        ensures
            n == self.ordinal(),
            n < 8,
    {
        match self {
            TermColor::Black => 0,
            TermColor::Red => 1,
            TermColor::Green => 2,
            TermColor::Yellow => 3,
            TermColor::Blue => 4,
            TermColor::Purple => 5,
            TermColor::Cyan => 6,
            TermColor::White => 7,
        }
    }
}

/// Palette index of a grey of the given 8-bit luminance: its top four bits
/// select pure black (16), pure white (231) or a step of the greyscale ramp.
pub open spec fn grey_index(level: u8) -> u8 {
    let step = level / 16;
    if step == 0 {
        16u8
    } else if step == 15 {
        231u8
    } else {
        (231 + step) as u8
    }
}

/// One channel of the 6x6x6 colour cube.
pub open spec fn cube_channel(channel: u8) -> int {
    channel as int * 6 / 256
}

/// Palette index of a 24-bit colour inside the 6x6x6 colour cube.
pub open spec fn cube_index(red: u8, green: u8, blue: u8) -> u8 {
    (16 + 36 * cube_channel(red) + 6 * cube_channel(green) + cube_channel(blue)) as u8
}

/// Whether the three channels agree in their top four bits.
pub open spec fn same_top_nibble(red: u8, green: u8, blue: u8) -> bool {
    red / 16 == green / 16 && green / 16 == blue / 16
}

/// Palette index of a 24-bit colour: a grey where the channels agree in their
/// top four bits, a cell of the colour cube otherwise.
pub open spec fn rgb_index(red: u8, green: u8, blue: u8) -> u8 {
    if same_top_nibble(red, green, blue) {
        grey_index(red)
    } else {
        cube_index(red, green, blue)
    }
}

/// A colour of the 256-entry palette, or no colour at all.
#[derive(Clone, Copy, Debug, PartialEq, Eq, Structural)]
pub struct DomColor(pub Option<u8>);

impl DomColor {
    /// No colour set.
    pub fn default() -> (c: DomColor)
        ensures
            c.0 is None,
    {
        DomColor(None)
    }

    /// The dark variant of a base hue: indices 0 to 7.
    pub fn from_dark(color: TermColor) -> (c: DomColor)
        ensures
            c.0 == Some(color.ordinal()),
    {
        DomColor(Some(color.code()))
    }

    /// The light variant of a base hue: indices 8 to 15.
    pub fn from_light(color: TermColor) -> (c: DomColor)
        ensures
            c.0 == Some((color.ordinal() + 8) as u8),
    {
        DomColor(Some(color.code() + 8))
    }

    /// A grey of the given luminance.
    pub fn from_grey(level: u8) -> (c: DomColor)
        ensures
            c.0 == Some(grey_index(level)),
    {
        let step: u8 = level >> 4;
        assert(step == level / 16) by (bit_vector)
            requires
                step == level >> 4,
        ;
        let index: u8 = if step == 0 {
            16
        } else if step == 15 {
            231
        } else {
            231 + step
        };
        DomColor(Some(index))
    }

    /// The palette entry nearest to a 24-bit colour.
    pub fn from_color(red: u8, green: u8, blue: u8) -> (c: DomColor)
        ensures
            c.0 == Some(rgb_index(red, green, blue)),
    {
        assert(red >> 4 == red / 16 && green >> 4 == green / 16 && blue >> 4 == blue / 16)
            by (bit_vector);
        if (red >> 4) == (green >> 4) && (green >> 4) == (blue >> 4) {
            return DomColor::from_grey(red);
        }
        let r: u8 = scale_channel(red);
        let g: u8 = scale_channel(green);
        let b: u8 = scale_channel(blue);
        DomColor(Some(16 + r * 36 + g * 6 + b))
    }

    /// The palette index, if a colour is set.
    pub fn index(&self) -> (i: Option<u8>)
        ensures
            i == self.0,
    {
        self.0
    }
}

impl Default for DomColor {
    fn default() -> (c: DomColor)
        ensures
            c.0 is None,
    {
        DomColor(None)
    }
}

/// Quantizes one 8-bit channel to the six levels of the colour cube.
fn scale_channel(channel: u8) -> (level: u8)
    ensures
        level == cube_channel(channel),
        level < 6,
{
    let wide: u32 = channel as u32;
    (wide * 6 / 256) as u8
}

/// A 24-bit colour whose channels agree in their top four bits is the grey of
/// any one of them.
pub proof fn lemma_grey_when_nibbles_agree(red: u8, green: u8, blue: u8)
    requires
        same_top_nibble(red, green, blue),
    ensures
        rgb_index(red, green, blue) == grey_index(red),
        rgb_index(red, green, blue) == grey_index(green),
        rgb_index(red, green, blue) == grey_index(blue),
{
}

/// The darkest grey is palette entry 16 and the lightest is entry 231.
pub proof fn lemma_grey_extremes()
    ensures
        grey_index(0) == 16,
        grey_index(255) == 231,
{
}

/// Every 24-bit colour and every grey maps to an index from 16 upwards, and
/// the dark and light base hues fill the sixteen indices below.
pub proof fn lemma_index_ranges(red: u8, green: u8, blue: u8, hue: TermColor)
    ensures
        16 <= rgb_index(red, green, blue) <= 255,
        16 <= grey_index(red) <= 245,
        16 <= cube_index(red, green, blue) <= 231,
        hue.ordinal() < 8,
        8 <= hue.ordinal() + 8 < 16,
{
}

} // verus!
