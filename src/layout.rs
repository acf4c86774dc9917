//! Alignment of lines and blocks, and the draw command that layout produces for each glyph.

use vstd::prelude::*;

verus! {

/// Horizontal alignment of each line against the anchor.
#[derive(Clone, Copy, Debug, PartialEq, Eq, Structural)]
pub enum Align {
    Left,
    Centre,
    Right,
}

/// Vertical alignment of the block of lines against the anchor.
#[derive(Clone, Copy, Debug, PartialEq, Eq, Structural)]
pub enum VAlign {
    Bottom,
    Centre,
    Top,
}

/// One glyph to draw: a quad of `width` by `height` centred on `(center_x, center_y)`,
/// textured with the cell of the atlas of sheet `sheet` that starts at `(src_x, src_y)`
/// and spans `src_width` by `src_height` pixels, without rotation.
#[derive(Clone, Copy, Debug, PartialEq, Eq, Structural)]
pub struct GlyphDraw {
    pub sheet: usize,
    pub center_x: i128,
    pub center_y: i128,
    pub width: u64,
    pub height: u64,
    pub src_x: u32,
    pub src_y: u32,
    pub src_width: u32,
    pub src_height: u32,
}

/// Offset of a line's left edge from the anchor: 0 for `Left`, minus half the line's width
/// (rounded down before negating) for `Centre`, minus the whole width for `Right`.
pub open spec fn align_offset(a: Align, w: int) -> int {
    match a {
        Align::Left => 0,
        Align::Centre => -(w / 2),
        Align::Right => -w,
    }
}

/// Offset of the first line from the anchor for a block of `n` lines of height `h`: 0 for
/// `Top`, half the block's height below the first line (rounded down) for `Centre`, all of
/// it for `Bottom`.
pub open spec fn block_offset(v: VAlign, h: int, n: int) -> int {
    if n == 0 {
        0
    } else {
        match v {
            VAlign::Top => 0,
            VAlign::Centre => (h * (n - 1)) / 2,
            VAlign::Bottom => h * (n - 1),
        }
    }
}

/// Shift of each glyph within its own line box: half the line height down for `Top`
/// (rounded down before negating), none for `Centre`, half up for `Bottom`.
pub open spec fn valign_shift(v: VAlign, h: int) -> int {
    match v {
        VAlign::Top => -(h / 2),
        VAlign::Centre => 0,
        VAlign::Bottom => h / 2,
    }
}

/// Horizontal offset of a line of measured width `line_width` (see [`align_offset`]).
pub fn horizontal_offset(text_align: Align, line_width: u128) -> (r: i128)
    requires
        line_width <= i128::MAX,
    ensures
        r == align_offset(text_align, line_width as int),
{
    match text_align {
        Align::Left => 0,
        Align::Centre => -((line_width / 2) as i128),
        Align::Right => -(line_width as i128),
    }
}

/// Vertical offset of the first of `num_lines` lines of height `h` (see [`block_offset`]).
pub fn vertical_offset(vert_align: VAlign, h: u32, num_lines: usize) -> (r: i128)
    ensures
        r == block_offset(vert_align, h as int, num_lines as int),
        0 <= r <= 0xffff_ffff * 0xffff_ffff_ffff_ffff,
{
    if num_lines == 0 {
        return 0;
    }
    assert(h * (num_lines - 1) <= 0xffff_ffff * 0xffff_ffff_ffff_ffff) by (nonlinear_arith)
        requires
            h <= 0xffff_ffff,
            0 <= num_lines - 1 <= 0xffff_ffff_ffff_ffff,
    ;
    let block = (h as u128) * ((num_lines - 1) as u128);
    match vert_align {
        VAlign::Top => 0,
        VAlign::Centre => (block / 2) as i128,
        VAlign::Bottom => block as i128,
    }
}

/// Shift of each glyph within its line box (see [`valign_shift`]).
pub fn glyph_shift(vert_align: VAlign, h: u32) -> (r: i128)
    ensures
        r == valign_shift(vert_align, h as int),
        -0x8000_0000 <= r <= 0x8000_0000,
{
    match vert_align {
        VAlign::Top => -((h / 2) as i128),
        VAlign::Centre => 0,
        VAlign::Bottom => (h / 2) as i128,
    }
}

} // verus!
