//! Terminal colours: the sixteen ANSI colours with their default values, and
//! the 240 further entries of the 256-colour palette.

use vstd::prelude::*;

verus! {

/// ANSI 16-color palette entries
#[derive(Debug, Clone, Copy, PartialEq, Eq, Hash, Structural)]
pub enum AnsiColor {
    Black,
    Red,
    Green,
    Yellow,
    Blue,
    Magenta,
    Cyan,
    White,
    BrightBlack,
    BrightRed,
    BrightGreen,
    BrightYellow,
    BrightBlue,
    BrightMagenta,
    BrightCyan,
    BrightWhite,
}

/// The palette index of each ANSI colour.
pub open spec fn ansi_index(c: AnsiColor) -> u8 {
    match c {
        AnsiColor::Black => 0,
        AnsiColor::Red => 1,
        AnsiColor::Green => 2,
        AnsiColor::Yellow => 3,
        AnsiColor::Blue => 4,
        AnsiColor::Magenta => 5,
        AnsiColor::Cyan => 6,
        AnsiColor::White => 7,
        AnsiColor::BrightBlack => 8,
        AnsiColor::BrightRed => 9,
        AnsiColor::BrightGreen => 10,
        AnsiColor::BrightYellow => 11,
        AnsiColor::BrightBlue => 12,
        AnsiColor::BrightMagenta => 13,
        AnsiColor::BrightCyan => 14,
        AnsiColor::BrightWhite => 15,
    }
}

/// The default red, green and blue of each ANSI colour.
pub open spec fn ansi_rgb(c: AnsiColor) -> (u8, u8, u8) {
    match c {
        AnsiColor::Black => (0, 0, 0),
        AnsiColor::Red => (205, 49, 49),
        AnsiColor::Green => (13, 188, 121),
        AnsiColor::Yellow => (229, 229, 16),
        AnsiColor::Blue => (36, 114, 200),
        AnsiColor::Magenta => (188, 63, 188),
        AnsiColor::Cyan => (17, 168, 205),
        AnsiColor::White => (229, 229, 229),
        AnsiColor::BrightBlack => (102, 102, 102),
        AnsiColor::BrightRed => (241, 76, 76),
        AnsiColor::BrightGreen => (35, 209, 139),
        AnsiColor::BrightYellow => (245, 245, 67),
        AnsiColor::BrightBlue => (59, 142, 234),
        AnsiColor::BrightMagenta => (214, 112, 214),
        AnsiColor::BrightCyan => (41, 184, 219),
        AnsiColor::BrightWhite => (255, 255, 255),
    }
}

impl AnsiColor {
    /// Convert ANSI color index to enum
    pub fn from_index(index: u8) -> (r: Option<Self>)
        ensures
            match r {
                Some(c) => index < 16 && ansi_index(c) == index,
                None => index >= 16,
            },
    {
        match index {
            0 => Some(AnsiColor::Black),
            1 => Some(AnsiColor::Red),
            2 => Some(AnsiColor::Green),
            3 => Some(AnsiColor::Yellow),
            4 => Some(AnsiColor::Blue),
            5 => Some(AnsiColor::Magenta),
            6 => Some(AnsiColor::Cyan),
            7 => Some(AnsiColor::White),
            8 => Some(AnsiColor::BrightBlack),
            9 => Some(AnsiColor::BrightRed),
            10 => Some(AnsiColor::BrightGreen),
            11 => Some(AnsiColor::BrightYellow),
            12 => Some(AnsiColor::BrightBlue),
            13 => Some(AnsiColor::BrightMagenta),
            14 => Some(AnsiColor::BrightCyan),
            15 => Some(AnsiColor::BrightWhite),
            _ => None,
        }
    }

    /// The palette index of the colour
    pub fn index(&self) -> (r: u8)
        ensures
            r == ansi_index(*self),
    {
        match self {
            AnsiColor::Black => 0,
            AnsiColor::Red => 1,
            AnsiColor::Green => 2,
            AnsiColor::Yellow => 3,
            AnsiColor::Blue => 4,
            AnsiColor::Magenta => 5,
            AnsiColor::Cyan => 6,
            AnsiColor::White => 7,
            AnsiColor::BrightBlack => 8,
            AnsiColor::BrightRed => 9,
            AnsiColor::BrightGreen => 10,
            AnsiColor::BrightYellow => 11,
            AnsiColor::BrightBlue => 12,
            AnsiColor::BrightMagenta => 13,
            AnsiColor::BrightCyan => 14,
            AnsiColor::BrightWhite => 15,
        }
    }

    /// The default red, green and blue of the colour
    pub fn default_rgb8(&self) -> (r: (u8, u8, u8))
        ensures
            r == ansi_rgb(*self),
    {
        match self {
            AnsiColor::Black => (0, 0, 0),
            AnsiColor::Red => (205, 49, 49),
            AnsiColor::Green => (13, 188, 121),
            AnsiColor::Yellow => (229, 229, 16),
            AnsiColor::Blue => (36, 114, 200),
            AnsiColor::Magenta => (188, 63, 188),
            AnsiColor::Cyan => (17, 168, 205),
            AnsiColor::White => (229, 229, 229),
            AnsiColor::BrightBlack => (102, 102, 102),
            AnsiColor::BrightRed => (241, 76, 76),
            AnsiColor::BrightGreen => (35, 209, 139),
            AnsiColor::BrightYellow => (245, 245, 67),
            AnsiColor::BrightBlue => (59, 142, 234),
            AnsiColor::BrightMagenta => (214, 112, 214),
            AnsiColor::BrightCyan => (41, 184, 219),
            AnsiColor::BrightWhite => (255, 255, 255),
        }
    }
}

/// Reading an index back gives the colour, and every colour has an index
/// below 16.
pub proof fn lemma_index_round_trip(c: AnsiColor)
    ensures
        ansi_index(c) < 16,
        forall|d: AnsiColor| ansi_index(d) == ansi_index(c) ==> d == c,
{
}

/// The level of one channel of the 6x6x6 colour cube.
pub open spec fn cube_level(v: int) -> int {
    if v == 0 { 0 } else { 55 + v * 40 }
}

/// The red, green and blue of entries 16 to 255 of the 256-colour palette: the
/// 6x6x6 colour cube, then 24 shades of grey.
pub open spec fn palette_rgb(idx: u8) -> (int, int, int) {
    if idx < 232 {
        let i = idx - 16;
        (cube_level((i / 36) % 6), cube_level((i / 6) % 6), cube_level(i % 6))
    } else {
        let g = (idx - 232) * 10 + 8;
        (g, g, g)
    }
}

fn level(v: u8) -> (r: u8)
    requires
        v < 6,
    ensures
        r == cube_level(v as int),
{
    if v == 0 { 0 } else { 55 + v * 40 }
}

/// The colour of an entry of the 256-colour palette beyond the sixteen ANSI
/// colours
pub fn indexed_rgb8(idx: u8) -> (r: (u8, u8, u8))
    requires
        idx >= 16,
    ensures
        (r.0 as int, r.1 as int, r.2 as int) == palette_rgb(idx),
{
    if idx < 232 {
        let i = idx - 16;
        (level((i / 36) % 6), level((i / 6) % 6), level(i % 6))
    } else {
        let g = (idx - 232) * 10 + 8;
        (g, g, g)
    }
}

} // verus!
