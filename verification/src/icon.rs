//! The window icon's raw format: a big-endian width and height, then the
//! RGBA pixels of a square image.

use vstd::prelude::*;

verus! {

/// A decoded icon: RGBA pixels, row by row, and the image size.
pub struct RgbaIcon {
    pub rgba: Vec<u8>,
    pub width: u32,
    pub height: u32,
}

/// The big-endian 32-bit number in `b[i..i + 4]`.
pub open spec fn be_u32(b: Seq<u8>, i: int) -> int {
    b[i] * 0x100_0000 + b[i + 1] * 0x1_0000 + b[i + 2] * 0x100 + b[i + 3]
}

/// The icon a byte string holds: eight header bytes with the width and the
/// height, which must be equal and not zero, then exactly four bytes per
/// pixel.
pub open spec fn icon_of(bytes: Seq<u8>) -> Option<(Seq<u8>, int, int)> {
    if bytes.len() < 8 {
        None
    } else {
        let width = be_u32(bytes, 0);
        let height = be_u32(bytes, 4);
        let rgba = bytes.subrange(8, bytes.len() as int);
        if width == 0 || height == 0 || width != height || rgba.len() != width * height * 4 {
            None
        } else {
            Some((rgba, width, height))
        }
    }
}

fn read_be_u32(bytes: &[u8], i: usize) -> (v: u32)
    requires
        i + 4 <= bytes@.len(),
    ensures
        v == be_u32(bytes@, i as int),
{
    let a = bytes[i] as u32;
    let b = bytes[i + 1] as u32;
    let c = bytes[i + 2] as u32;
    let d = bytes[i + 3] as u32;
    assert(a * 0x100_0000 + b * 0x1_0000 + c * 0x100 + d <= 0xffff_ffff) by (nonlinear_arith)
        requires
            a < 256,
            b < 256,
            c < 256,
            d < 256,
    ;
    a * 0x100_0000 + b * 0x1_0000 + c * 0x100 + d
}

/// Decodes an icon, or `None` when the bytes are not one.
pub fn decode_rgba_icon(bytes: &[u8]) -> (r: Option<RgbaIcon>)
    ensures
        match r {
            Some(icon) => icon_of(bytes@) == Some((icon.rgba@, icon.width as int, icon.height as int)),
            None => icon_of(bytes@) is None,
        },
{
    if bytes.len() < 8 {
        return None;
    }
    let width = read_be_u32(bytes, 0);
    let height = read_be_u32(bytes, 4);
    if width == 0 || height == 0 || width != height {
        return None;
    }
    assert(width * height <= 0xffff_ffff * 0xffff_ffff) by (nonlinear_arith)
        requires
            width <= 0xffff_ffff,
            height <= 0xffff_ffff,
    ;
    let pixels = (width as u128) * (height as u128);
    let expected = pixels * 4;
    if ((bytes.len() - 8) as u128) != expected {
        return None;
    }
    let mut rgba: Vec<u8> = Vec::new();
    let mut i: usize = 8;
    while i < bytes.len()
        invariant
            8 <= i <= bytes@.len(),
            rgba@ == bytes@.subrange(8, i as int),
        decreases bytes@.len() - i,
    {
        rgba.push(bytes[i]);
        assert(bytes@.subrange(8, i + 1) =~= bytes@.subrange(8, i as int).push(bytes@[i as int]));
        i += 1;
    }
    Some(RgbaIcon { rgba, width, height })
}

} // verus!
