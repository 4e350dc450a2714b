//! Character cells and their colors.

use vstd::prelude::*;

verus! {

/// A terminal color: the default color, one of the sixteen named ANSI colors,
/// an index into the 256-color xterm palette, or a direct RGB triple.
#[derive(Clone, Copy, Debug, PartialEq, Eq, Structural)]
pub enum Color {
    Default,
    Black,
    Red,
    Green,
    Yellow,
    Blue,
    Magenta,
    Cyan,
    White,
    BrightBlack,
    BrightRed,
    BrightGreen,
    BrightYellow,
    BrightBlue,
    BrightMagenta,
    BrightCyan,
    BrightWhite,
    Indexed(u8),
    Rgb(u8, u8, u8),
}

/// One character cell of the screen. A wide character occupies a leading
/// cell holding the character and its width, followed by continuation cells
/// of width 0.
#[derive(Clone, Copy, Debug, PartialEq, Eq, Structural)]
pub struct Cell {
    pub ch: char,
    pub width: u8,
    pub fg_color: Color,
    pub bg_color: Color,
    pub bold: bool,
    pub underline: bool,
    pub blink: bool,
    pub reverse: bool,
}

/// The blank cell: a space of width one in default colors with no attributes.
pub open spec fn blank_cell() -> Cell {
    Cell {
        ch: ' ',
        width: 1,
        fg_color: Color::Default,
        bg_color: Color::Default,
        bold: false,
        underline: false,
        blink: false,
        reverse: false,
    }
}

impl Default for Cell {
    fn default() -> (c: Self)
        ensures
            c == blank_cell(),
    {
        Cell {
            ch: ' ',
            width: 1,
            fg_color: Color::Default,
            bg_color: Color::Default,
            bold: false,
            underline: false,
            blink: false,
            reverse: false,
        }
    }
}

/// The sixteen named colors in palette order: the eight normal colors
/// followed by their bright variants.
pub open spec fn named_color(i: int) -> Color {
    if i == 0 {
        Color::Black
    } else if i == 1 {
        Color::Red
    } else if i == 2 {
        Color::Green
    } else if i == 3 {
        Color::Yellow
    } else if i == 4 {
        Color::Blue
    } else if i == 5 {
        Color::Magenta
    } else if i == 6 {
        Color::Cyan
    } else if i == 7 {
        Color::White
    } else if i == 8 {
        Color::BrightBlack
    } else if i == 9 {
        Color::BrightRed
    } else if i == 10 {
        Color::BrightGreen
    } else if i == 11 {
        Color::BrightYellow
    } else if i == 12 {
        Color::BrightBlue
    } else if i == 13 {
        Color::BrightMagenta
    } else if i == 14 {
        Color::BrightCyan
    } else {
        Color::BrightWhite
    }
}

/// The RGB triple of each color that is not an index into the palette.
pub open spec fn direct_rgb(c: Color) -> (u8, u8, u8) {
    match c {
        Color::Default => (255, 255, 255),
        Color::Black => (0, 0, 0),
        Color::Red => (205, 0, 0),
        Color::Green => (0, 205, 0),
        Color::Yellow => (205, 205, 0),
        Color::Blue => (0, 0, 238),
        Color::Magenta => (205, 0, 205),
        Color::Cyan => (0, 205, 205),
        Color::White => (229, 229, 229),
        Color::BrightBlack => (127, 127, 127),
        Color::BrightRed => (255, 0, 0),
        Color::BrightGreen => (0, 255, 0),
        Color::BrightYellow => (255, 255, 0),
        Color::BrightBlue => (92, 92, 255),
        Color::BrightMagenta => (255, 0, 255),
        Color::BrightCyan => (0, 255, 255),
        Color::BrightWhite => (255, 255, 255),
        Color::Indexed(_) => (0, 0, 0),
        Color::Rgb(r, g, b) => (r, g, b),
    }
}

/// The xterm 256-color palette: entries 0..16 are the named colors, entries
/// 16..232 form a 6x6x6 color cube with steps of 51, and entries 232..256 are
/// a gray ramp starting at 8 in steps of 10.
pub open spec fn palette_rgb(index: u8) -> (u8, u8, u8) {
    if index < 16 {
        direct_rgb(named_color(index as int))
    } else if index < 232 {
        let idx = index - 16;
        (((idx / 36) * 51) as u8, (((idx % 36) / 6) * 51) as u8, ((idx % 6) * 51) as u8)
    } else {
        let gray = ((index - 232) * 10 + 8) as u8;
        (gray, gray, gray)
    }
}

/// The RGB triple a color renders as.
pub open spec fn color_rgb(c: Color) -> (u8, u8, u8) {
    match c {
        Color::Indexed(i) => palette_rgb(i),
        _ => direct_rgb(c),
    }
}

impl Color {
    /// Returns the 8-bit RGB triple this color renders as.
    pub fn rgb(self) -> (r: (u8, u8, u8))
        ensures
            r == color_rgb(self),
    {
        match self {
            Color::Indexed(i) => Self::indexed_rgb(i),
            _ => self.direct_rgb(),
        }
    }

    fn direct_rgb(self) -> (r: (u8, u8, u8))
        ensures
            r == direct_rgb(self),
    {
        match self {
            Color::Default => (255, 255, 255),
            Color::Black => (0, 0, 0),
            Color::Red => (205, 0, 0),
            Color::Green => (0, 205, 0),
            Color::Yellow => (205, 205, 0),
            Color::Blue => (0, 0, 238),
            Color::Magenta => (205, 0, 205),
            Color::Cyan => (0, 205, 205),
            Color::White => (229, 229, 229),
            Color::BrightBlack => (127, 127, 127),
            Color::BrightRed => (255, 0, 0),
            Color::BrightGreen => (0, 255, 0),
            Color::BrightYellow => (255, 255, 0),
            Color::BrightBlue => (92, 92, 255),
            Color::BrightMagenta => (255, 0, 255),
            Color::BrightCyan => (0, 255, 255),
            Color::BrightWhite => (255, 255, 255),
            Color::Indexed(_) => (0, 0, 0),
            Color::Rgb(r, g, b) => (r, g, b),
        }
    }

    fn named(index: u8) -> (c: Color)
        requires
            index < 16,
        ensures
            c == named_color(index as int),
    {
        match index {
            0 => Color::Black,
            1 => Color::Red,
            2 => Color::Green,
            3 => Color::Yellow,
            4 => Color::Blue,
            5 => Color::Magenta,
            6 => Color::Cyan,
            7 => Color::White,
            8 => Color::BrightBlack,
            9 => Color::BrightRed,
            10 => Color::BrightGreen,
            11 => Color::BrightYellow,
            12 => Color::BrightBlue,
            13 => Color::BrightMagenta,
            14 => Color::BrightCyan,
            _ => Color::BrightWhite,
        }
    }

    fn indexed_rgb(index: u8) -> (r: (u8, u8, u8))
        ensures
            r == palette_rgb(index),
    {
        if index < 16 {
            Self::named(index).direct_rgb()
        } else if index < 232 {
            let idx = index - 16;
            assert(idx / 36 <= 5 && (idx % 36) / 6 <= 5 && idx % 6 <= 5) by (nonlinear_arith)
                requires
                    idx < 216,
            ;
            let r = (idx / 36) * 51;
            let g = ((idx % 36) / 6) * 51;
            let b = (idx % 6) * 51;
            (r, g, b)
        } else {
            let gray = (index - 232) * 10 + 8;
            (gray, gray, gray)
        }
    }
}

/// Every entry of the first sixteen of the 256-color palette renders exactly
/// as the named color at that position.
pub proof fn lemma_palette_extends_named_colors(i: u8)
    requires
        i < 16,
    ensures
        color_rgb(Color::Indexed(i)) == color_rgb(named_color(i as int)),
{
}

} // verus!
