//! The colors a cell is painted with.

use vstd::prelude::*;

use egui::Color32;

use crate::cell::{color_rgb, Cell, Color};

verus! {

#[verifier::external_type_specification]
#[verifier::external_body]
pub struct ExColor32(Color32);

/// The `egui` color with the given red, green and blue (fully opaque).
pub uninterp spec fn color32_rgb(r: u8, g: u8, b: u8) -> Color32;

/// Calls `egui::Color32::from_rgb`: the result is the named value
/// `color32_rgb(r, g, b)`.
#[verifier::external_body]
fn color32_from_rgb(r: u8, g: u8, b: u8) -> (c: Color32)
    ensures
        c == color32_rgb(r, g, b),
{
    Color32::from_rgb(r, g, b)
}

pub open spec fn color32_of(rgb: (u8, u8, u8)) -> Color32 {
    color32_rgb(rgb.0, rgb.1, rgb.2)
}

/// Bold text brightens the eight normal colors.
pub open spec fn brightened(c: Color, bold: bool) -> Color {
    if !bold {
        c
    } else {
        match c {
            Color::Black => Color::BrightBlack,
            Color::Red => Color::BrightRed,
            Color::Green => Color::BrightGreen,
            Color::Yellow => Color::BrightYellow,
            Color::Blue => Color::BrightBlue,
            Color::Magenta => Color::BrightMagenta,
            Color::Cyan => Color::BrightCyan,
            Color::White => Color::BrightWhite,
            _ => c,
        }
    }
}

/// A foreground color: the default foreground is white.
pub open spec fn foreground_rgb(c: Color, bold: bool) -> (u8, u8, u8) {
    color_rgb(
        brightened(
            if c == Color::Default {
                Color::White
            } else {
                c
            },
            bold,
        ),
    )
}

/// A background color: the default background is black.
pub open spec fn background_rgb(c: Color) -> (u8, u8, u8) {
    if c == Color::Default {
        (0, 0, 0)
    } else {
        color_rgb(c)
    }
}

/// The background a cell is painted with: its foreground color (not
/// brightened) when reversed, its background otherwise.
pub open spec fn cell_background_rgb(cell: Cell) -> (u8, u8, u8) {
    if cell.reverse {
        foreground_rgb(cell.fg_color, false)
    } else {
        background_rgb(cell.bg_color)
    }
}

/// The color a cell's character is painted with: its background color (black
/// for the default), brightened when bold, when reversed; its foreground
/// otherwise.
pub open spec fn cell_foreground_rgb(cell: Cell) -> (u8, u8, u8) {
    if cell.reverse {
        color_rgb(
            brightened(
                if cell.bg_color == Color::Default {
                    Color::Black
                } else {
                    cell.bg_color
                },
                cell.bold,
            ),
        )
    } else {
        foreground_rgb(cell.fg_color, cell.bold)
    }
}

pub fn color_to_egui(color: Color) -> (c: Color32)
    ensures
        c == color32_of(color_rgb(color)),
{
    let (r, g, b) = color.rgb();
    color32_from_rgb(r, g, b)
}

fn brighten(color: Color, bold: bool) -> (c: Color)
    ensures
        c == brightened(color, bold),
{
    if !bold {
        return color;
    }
    match color {
        Color::Black => Color::BrightBlack,
        Color::Red => Color::BrightRed,
        Color::Green => Color::BrightGreen,
        Color::Yellow => Color::BrightYellow,
        Color::Blue => Color::BrightBlue,
        Color::Magenta => Color::BrightMagenta,
        Color::Cyan => Color::BrightCyan,
        Color::White => Color::BrightWhite,
        _ => color,
    }
}

fn foreground_color(color: Color, bold: bool) -> (c: Color32)
    ensures
        c == color32_of(foreground_rgb(color, bold)),
{
    let base = match color {
        Color::Default => Color::White,
        _ => color,
    };
    color_to_egui(brighten(base, bold))
}

fn background_color(color: Color) -> (c: Color32)
    ensures
        c == color32_of(background_rgb(color)),
{
    match color {
        Color::Default => color32_from_rgb(0, 0, 0),
        _ => color_to_egui(color),
    }
}

pub fn cell_background_color(cell: &Cell) -> (c: Color32)
    ensures
        c == color32_of(cell_background_rgb(*cell)),
{
    if cell.reverse {
        foreground_color(cell.fg_color, false)
    } else {
        background_color(cell.bg_color)
    }
}

pub fn cell_foreground_color(cell: &Cell) -> (c: Color32)
    ensures
        c == color32_of(cell_foreground_rgb(*cell)),
{
    if cell.reverse {
        let bg = match cell.bg_color {
            Color::Default => Color::Black,
            _ => cell.bg_color,
        };
        color_to_egui(brighten(bg, cell.bold))
    } else {
        foreground_color(cell.fg_color, cell.bold)
    }
}

/// The cell whose background shows at column `col`: a continuation cell shows
/// the cell before it.
pub fn visible_cell_at(row: &[Cell], col: usize) -> (c: &Cell)
    requires
        col < row@.len(),
    ensures
        *c == (if row@[col as int].width != 0 || col == 0 {
            row@[col as int]
        } else {
            row@[col - 1]
        }),
{
    if row[col].width != 0 || col == 0 {
        &row[col]
    } else {
        &row[col - 1]
    }
}

/// A reversed cell in default colors shows black on the light gray of the
/// default foreground, so it stays visible.
pub proof fn lemma_reversed_default_cell_is_visible(cell: Cell)
    requires
        cell.reverse,
        !cell.bold,
        cell.fg_color == Color::Default,
        cell.bg_color == Color::Default,
    ensures
        cell_foreground_rgb(cell) == (0u8, 0u8, 0u8),
        cell_background_rgb(cell) == (229u8, 229u8, 229u8),
{
}

} // verus!
