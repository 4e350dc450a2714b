//! How many cells a character occupies on the screen.

use vstd::prelude::*;

verus! {

/// The column width that `unicode-width` assigns a character when characters
/// of ambiguous width count as wide (CJK context); `None` for control
/// characters.
pub uninterp spec fn cjk_char_width(c: char) -> Option<usize>;

/// Calls `UnicodeWidthChar::width_cjk` of the `unicode-width` crate. The
/// result is the named value `cjk_char_width(c)`; beyond the name, the
/// crate's lookup shows that printable ASCII (U+0020..U+007E) is one column
/// wide and that the C0 and C1 control characters have no width.
#[verifier::external_body]
fn unicode_width_cjk(c: char) -> (r: Option<usize>)
    ensures
        r == cjk_char_width(c),
        (' ' <= c && c <= '~') ==> r == Some(1usize),
        (c < ' ' || ('\u{7f}' <= c && c < '\u{a0}')) ==> r is None,
{
    unicode_width::UnicodeWidthChar::width_cjk(c)
}

/// The block, box-drawing, triangle and slash symbols that Welly draws two
/// cells wide, as BBS art expects.
pub open spec fn is_art_symbol(ch: char) -> bool {
    ||| ch == '\u{25fc}'
    ||| ch == '\u{25c6}'
    ||| ch == '\u{25c7}'
    ||| ('\u{2581}' <= ch && ch <= '\u{2588}')
    ||| ('\u{2589}' <= ch && ch <= '\u{258f}')
    ||| ch == '\u{2594}'
    ||| ch == '\u{2595}'
    ||| ('\u{25e2}' <= ch && ch <= '\u{25e5}')
    ||| ('\u{2571}' <= ch && ch <= '\u{2573}')
    ||| ('\u{2550}' <= ch && ch <= '\u{256c}')
    ||| ('\u{256d}' <= ch && ch <= '\u{2570}')
    ||| ('\u{250c}' <= ch && ch <= '\u{254b}')
    ||| ('\u{2500}' <= ch && ch <= '\u{2503}')
    ||| ch == '\u{2014}'
    ||| ch == '\u{fe33}'
    ||| ch == '\u{ffe3}'
    ||| ch == '\u{ff3f}'
    ||| ch == '\u{ff0f}'
    ||| ch == '\u{fe68}'
    ||| ch == '\u{ff3c}'
}

/// The number of cells a character occupies: two for the art symbols,
/// otherwise its CJK-context width, counting at least one (and kept in a
/// byte, as the grid stores it).
pub open spec fn char_cell_width(ch: char) -> u8 {
    if is_art_symbol(ch) {
        2
    } else {
        let w: usize = match cjk_char_width(ch) {
            Some(w) => w,
            None => 1,
        };
        (if w < 1 { 1 } else { w }) as u8
    }
}

pub fn is_welly_ascii_art_symbol(ch: char) -> (r: bool)
    ensures
        r == is_art_symbol(ch),
{
    ch == '\u{25fc}' || ch == '\u{25c6}' || ch == '\u{25c7}' || ('\u{2581}' <= ch && ch
        <= '\u{2588}') || ('\u{2589}' <= ch && ch <= '\u{258f}') || ch == '\u{2594}' || ch
        == '\u{2595}' || ('\u{25e2}' <= ch && ch <= '\u{25e5}') || ('\u{2571}' <= ch && ch
        <= '\u{2573}') || ('\u{2550}' <= ch && ch <= '\u{256c}') || ('\u{256d}' <= ch && ch
        <= '\u{2570}') || ('\u{250c}' <= ch && ch <= '\u{254b}') || ('\u{2500}' <= ch && ch
        <= '\u{2503}') || ch == '\u{2014}' || ch == '\u{fe33}' || ch == '\u{ffe3}' || ch
        == '\u{ff3f}' || ch == '\u{ff0f}' || ch == '\u{fe68}' || ch == '\u{ff3c}'
}

pub fn char_width(ch: char) -> (w: u8)
    ensures
        w == char_cell_width(ch),
        (' ' <= ch && ch <= '~') ==> w == 1,
{
    if is_welly_ascii_art_symbol(ch) {
        2
    } else {
        let w = match unicode_width_cjk(ch) {
            Some(w) => w,
            None => 1,
        };
        let w = if w < 1 {
            1
        } else {
            w
        };
        #[verifier::truncate]
        (w as u8)
    }
}

} // verus!
