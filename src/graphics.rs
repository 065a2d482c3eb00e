use vstd::prelude::*;

verus! {

/// Glyphs in the built-in font: one per ASCII code.
pub const FONT_GLYPHS: usize = 128;

/// Row `row` of the 8x8 glyph for ASCII code `code`, most significant bit
/// leftmost. The font draws only code 1, a smiley; every other glyph is
/// blank.
pub open spec fn font_row(code: usize, row: usize) -> u8 {
    if code == 1 {
        seq![0x3Cu8, 0x66, 0x6E, 0x76, 0x66, 0x66, 0x3C, 0x00][row as int]
    } else {
        0
    }
}

/// Row `row` of the glyph for ASCII code `code`.
pub fn glyph_row(code: usize, row: usize) -> (r: u8)
    requires
        row < 8,
    ensures
        r == font_row(code, row),
{
    if code == 1 {
        let smiley: [u8; 8] = [0x3C, 0x66, 0x6E, 0x76, 0x66, 0x66, 0x3C, 0x00];
        proof {
            assert(smiley@ =~= seq![0x3Cu8, 0x66, 0x6E, 0x76, 0x66, 0x66, 0x3C, 0x00]);
        }
        smiley[row]
    } else {
        0
    }
}

/// Whether column `col` of a glyph row `bits` is set.
pub open spec fn bit_set(bits: u8, col: usize) -> bool {
    (bits >> ((7 - col) as u8)) & 1u8 == 1u8
}

/// The color of column `col` of a glyph row: `fg` where its bit is set,
/// `bg` elsewhere.
pub fn glyph_color(bits: u8, col: usize, fg: u32, bg: u32) -> (r: u32)
    requires
        col < 8,
    ensures
        r == if bit_set(bits, col) {
            fg
        } else {
            bg
        },
{
    let shift = (7 - col) as u8;
    if (bits >> shift) & 1u8 == 1u8 {
        fg
    } else {
        bg
    }
}

/// Byte offset of pixel (`x`, `y`) in a framebuffer of `width` by `height`
/// pixels, `pitch` bytes per row and `bpp` bytes per pixel; none outside
/// the framebuffer or where the offset does not fit a `usize`.
pub fn pixel_offset(x: usize, y: usize, width: usize, height: usize, pitch: usize, bpp: usize) -> (r:
    Option<usize>)
    ensures
        r == (if x < width && y < height && y * pitch + x * bpp <= usize::MAX {
            Some((y * pitch + x * bpp) as usize)
        } else {
            None
        }),
{
    if x >= width || y >= height {
        return None;
    }
    let row = match y.checked_mul(pitch) {
        Some(v) => v,
        None => {
            proof {
                assert(y * pitch + x * bpp > usize::MAX) by (nonlinear_arith)
                    requires
                        y * pitch > usize::MAX,
                        x * bpp >= 0,
                ;
            }
            return None;
        },
    };
    let col = match x.checked_mul(bpp) {
        Some(v) => v,
        None => {
            proof {
                assert(y * pitch + x * bpp > usize::MAX) by (nonlinear_arith)
                    requires
                        x * bpp > usize::MAX,
                        y * pitch >= 0,
                ;
            }
            return None;
        },
    };
    row.checked_add(col)
}

} // verus!
