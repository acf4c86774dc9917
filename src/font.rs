//! Glyph sheets and fonts: character resolution with fallback, glyph and line widths,
//! greedy wrapping and the layout of text into glyph draw commands.

use vstd::prelude::*;

use crate::error::FontError;
use crate::layout::{
    align_offset, block_offset, glyph_shift, horizontal_offset, valign_shift, vertical_offset, Align,
    GlyphDraw, VAlign,
};
use crate::text::{chars_of, join_lines, line_count, lines_of, split_lines};

verus! {

/// One whole in the fixed-point fractions of this library (half-margins, ascent, descent,
/// stored widths and leading are all counted in units of `1 / FRAC_ONE`).
pub const FRAC_ONE: u32 = 10000;

/// What a sheet holds, as plain values.
pub struct SheetView {
    /// First code of the range.
    pub lo: char,
    /// Last code of the range, inclusive.
    pub hi: char,
    pub atlas_width: nat,
    pub atlas_height: nat,
    pub chars_per_row: nat,
    pub rows: nat,
    pub ascent: nat,
    pub descent: nat,
    /// The stored width of each code of the range, as a fraction of one cell.
    pub widths: Seq<nat>,
}

impl SheetView {
    /// Number of codes in the range.
    pub open spec fn count(self) -> int {
        (self.hi as u32) - (self.lo as u32) + 1
    }

    pub open spec fn in_range(self, c: char) -> bool {
        self.lo <= c && c <= self.hi
    }

    /// Position of a code of the range in the atlas, counted from `lo`.
    pub open spec fn index_of(self, c: char) -> int {
        (c as u32) - (self.lo as u32)
    }

    /// The sheet supplies a real glyph for `c`: it is in range and its width is not zero.
    pub open spec fn claims(self, c: char) -> bool {
        self.in_range(c) && self.widths[self.index_of(c)] != 0
    }

    pub open spec fn cell_width(self) -> int {
        self.atlas_width as int / self.chars_per_row as int
    }

    pub open spec fn cell_height(self) -> int {
        self.atlas_height as int / self.rows as int
    }

    /// The share of a cell's height that the visible glyph takes, in units of `1 / FRAC_ONE`.
    pub open spec fn visible(self) -> int {
        FRAC_ONE - self.ascent - self.descent
    }

    /// Width of `c` drawn with visible glyph height `h`: one cell times the stored fraction,
    /// scaled by `h * rows / atlas_height / visible`, rounded down once at the end.
    pub open spec fn glyph_width(self, c: char, h: int) -> int {
        (self.cell_width() * self.widths[self.index_of(c)] * h * self.rows) / (
        self.atlas_height * self.visible())
    }

    /// Column and row of `c`'s cell in the atlas grid.
    pub open spec fn grid_pos(self, c: char) -> (int, int) {
        (self.index_of(c) % (self.chars_per_row as int), self.index_of(c) / (
        self.chars_per_row as int))
    }

    /// Height of the quad drawn for a glyph of visible height `h`: the whole cell, ascent and
    /// descent included, `h / visible`.
    pub open spec fn quad_height(self, h: int) -> int {
        (h * FRAC_ONE) / self.visible()
    }

    /// Width of the quad drawn for a glyph of visible height `h`: the cell's width scaled as
    /// its height is, `cell_width * quad_height / cell_height`, rounded down once.
    pub open spec fn quad_width(self, h: int) -> int {
        (self.cell_width() * h * FRAC_ONE) / (self.cell_height() * self.visible())
    }

    /// Vertical shift of a glyph's centre from its baseline for visible height `h`:
    /// `(ascent - descent) * h`, rounded toward zero.
    pub open spec fn ascent_shift(self, h: int) -> int {
        if self.ascent >= self.descent {
            ((self.ascent - self.descent) * h) / (FRAC_ONE as int)
        } else {
            -(((self.descent - self.ascent) * h) / (FRAC_ONE as int))
        }
    }

    /// Everything that the geometry of a sheet relies on.
    pub open spec fn wf(self) -> bool {
        &&& self.lo <= self.hi
        &&& self.widths.len() == self.count()
        &&& forall|i: int| 0 <= i < self.widths.len() ==> #[trigger] self.widths[i] <= FRAC_ONE
        &&& self.geometry_ok()
        &&& self.atlas_width <= u16::MAX
        &&& self.atlas_height <= u16::MAX
    }

    /// The grid can address every code and the margins leave a visible glyph.
    pub open spec fn geometry_ok(self) -> bool {
        &&& self.chars_per_row > 0
        &&& self.rows > 0
        &&& self.rows <= self.atlas_height
        &&& self.count() <= self.chars_per_row * self.rows
        &&& self.ascent + self.descent < FRAC_ONE
    }
}

/// The stored width of a glyph given its half-margin `x`: `1 - 2x`.
pub open spec fn stored_width(x: u32) -> nat {
    (FRAC_ONE - 2 * x) as nat
}

/// A bound on the width of one glyph: no sheet's glyph is wider, whatever the height asked for.
pub const MAX_GLYPH_WIDTH: u64 = 0x4000_0000_0000_0000;

/// No glyph of a well-formed sheet, drawn at any height that fits in a `u32`, is wider than
/// [`MAX_GLYPH_WIDTH`].
pub proof fn lemma_glyph_width_bound(s: SheetView, c: char, h: int)
    requires
        s.wf(),
        s.in_range(c),
        0 <= h <= u32::MAX,
    ensures
        0 <= s.glyph_width(c, h) <= MAX_GLYPH_WIDTH,
        s.cell_width() * s.widths[s.index_of(c)] * h * s.rows <= 0xffff * 10000 * 0xffff_ffff
            * 0xffff,
{
    let cw = s.cell_width();
    let w = s.widths[s.index_of(c)] as int;
    let rows = s.rows as int;
    let ah = s.atlas_height as int;
    let vis = s.visible();
    assert(0 <= cw <= 0xffff) by {
        vstd::arithmetic::div_mod::lemma_div_is_ordered_by_denominator(
            s.atlas_width as int,
            1,
            s.chars_per_row as int,
        );
        vstd::arithmetic::div_mod::lemma_div_pos_is_pos(
            s.atlas_width as int,
            s.chars_per_row as int,
        );
    }
    assert(0 <= w <= 10000);
    let num = cw * w * h * rows;
    assert(0 <= num <= cw * 10000 * h * ah) by (nonlinear_arith)
        requires
            0 <= cw,
            0 <= w <= 10000,
            0 <= h,
            0 <= rows <= ah,
            num == cw * w * h * rows,
    ;
    assert(num <= 0xffff * 10000 * 0xffff_ffff * 0xffff) by (nonlinear_arith)
        requires
            0 <= cw <= 0xffff,
            0 <= w <= 10000,
            0 <= h <= 0xffff_ffff,
            0 <= rows <= 0xffff,
            num == cw * w * h * rows,
    ;
    assert(ah <= ah * vis) by (nonlinear_arith)
        requires
            ah >= 1,
            vis >= 1,
    ;
    vstd::arithmetic::div_mod::lemma_div_pos_is_pos(num, ah * vis);
    vstd::arithmetic::div_mod::lemma_div_is_ordered_by_denominator(num, ah, ah * vis);
    vstd::arithmetic::div_mod::lemma_div_is_ordered(num, (cw * 10000 * h) * ah, ah);
    vstd::arithmetic::div_mod::lemma_div_by_multiple(cw * 10000 * h, ah);
    assert(cw * 10000 * h <= 0xffff * 10000 * 0xffff_ffff) by (nonlinear_arith)
        requires
            0 <= cw <= 0xffff,
            0 <= h <= 0xffff_ffff,
    ;
}

/// `k` cells of width `n / m`, with `k < m`, fit in `n`.
proof fn lemma_cells_fit(n: int, k: int, m: int)
    requires
        0 <= k < m,
        0 <= n,
    ensures
        0 <= k * (n / m) <= n,
        0 <= n / m <= n,
{
    vstd::arithmetic::div_mod::lemma_fundamental_div_mod(n, m);
    vstd::arithmetic::div_mod::lemma_div_pos_is_pos(n, m);
    vstd::arithmetic::div_mod::lemma_mod_pos_bound(n, m);
    vstd::arithmetic::div_mod::lemma_div_is_ordered_by_denominator(n, 1, m);
    vstd::arithmetic::mul::lemma_mul_inequality(k, m, n / m);
    vstd::arithmetic::mul::lemma_mul_nonnegative(k, n / m);
    assert(m * (n / m) == (n / m) * m) by (nonlinear_arith);
    assert(k * (n / m) == (n / m) * k) by (nonlinear_arith);
}

/// A code of a well-formed sheet lies in a cell of its grid, and that cell lies within the
/// atlas.
pub proof fn lemma_cell_in_atlas(s: SheetView, c: char)
    requires
        s.wf(),
        s.in_range(c),
    ensures
        0 <= s.grid_pos(c).0 < s.chars_per_row,
        0 <= s.grid_pos(c).1 < s.rows,
        0 <= s.grid_pos(c).0 * s.cell_width() <= s.atlas_width,
        0 <= s.grid_pos(c).1 * s.cell_height() <= s.atlas_height,
        1 <= s.cell_height() <= s.atlas_height,
        0 <= s.cell_width() <= s.atlas_width,
{
    let idx = s.index_of(c);
    let cpr = s.chars_per_row as int;
    let rows = s.rows as int;
    assert(0 <= idx < s.count());
    vstd::arithmetic::div_mod::lemma_mod_pos_bound(idx, cpr);
    vstd::arithmetic::div_mod::lemma_div_pos_is_pos(idx, cpr);
    vstd::arithmetic::div_mod::lemma_fundamental_div_mod(idx, cpr);
    if idx / cpr >= rows {
        vstd::arithmetic::mul::lemma_mul_inequality(rows, idx / cpr, cpr);
        assert(cpr * (idx / cpr) == (idx / cpr) * cpr) by (nonlinear_arith);
        assert(cpr * rows == rows * cpr) by (nonlinear_arith);
        vstd::arithmetic::div_mod::lemma_mod_pos_bound(idx, cpr);
    }
    lemma_cells_fit(s.atlas_width as int, idx % cpr, cpr);
    lemma_cells_fit(s.atlas_height as int, idx / cpr, rows);
    vstd::arithmetic::div_mod::lemma_div_is_ordered(rows, s.atlas_height as int, rows);
    vstd::arithmetic::div_mod::lemma_div_by_multiple(1, rows);
}

/// Relies on `String::push`: appends one character at the end.
#[verifier::external_body]
fn push_char(s: &mut String, c: char)
    ensures
        final(s)@ == old(s)@.push(c),
{
    s.push(c)
}

/// The scalar value of a character.
fn code_of(c: char) -> (r: u32)
    ensures
        r == c as u32,
        r <= 0x10FFFF,
{
    c as u32
}

/// The two characters, smaller first.
fn ordered(a: char, b: char) -> (r: (char, char))
    ensures
        r.0 == (if a <= b { a } else { b }),
        r.1 == (if a <= b { b } else { a }),
        r.0 as u32 <= r.1 as u32,
{
    if a <= b {
        (a, b)
    } else {
        (b, a)
    }
}

/// The sheet that `FontSheet::new` builds from its arguments (range given in either order).
pub open spec fn sheet_view_of(
    range: (char, char),
    atlas_size: (u16, u16),
    chars_per_row: usize,
    rows: usize,
    extra_ascent: u32,
    extra_descent: u32,
    half_margins: Seq<u32>,
) -> SheetView {
    SheetView {
        lo: if range.0 <= range.1 { range.0 } else { range.1 },
        hi: if range.0 <= range.1 { range.1 } else { range.0 },
        atlas_width: atlas_size.0 as nat,
        atlas_height: atlas_size.1 as nat,
        chars_per_row: chars_per_row as nat,
        rows: rows as nat,
        ascent: extra_ascent as nat,
        descent: extra_descent as nat,
        widths: Seq::new(half_margins.len(), |i: int| stored_width(half_margins[i])),
    }
}

/// Every half-margin is at most one half, so that every stored width is at least zero.
pub open spec fn margins_ok(half_margins: Seq<u32>) -> bool {
    forall|i: int| 0 <= i < half_margins.len() ==> 2 * #[trigger] half_margins[i] <= FRAC_ONE
}

/// One bitmap atlas covering a contiguous range of codes laid out as a uniform grid.
///
/// The texture handle is carried for the renderer; the atlas's pixel size is kept beside it
/// as plain numbers.
pub struct FontSheet<T> {
    range: (char, char),
    texture: T,
    atlas_width: u16,
    atlas_height: u16,
    chars_per_row: usize,
    rows: usize,
    extra_ascent: u32,
    extra_descent: u32,
    char_widths: Vec<u32>,
}

impl<T> View for FontSheet<T> {
    type V = SheetView;

    closed spec fn view(&self) -> SheetView {
        SheetView {
            lo: self.range.0,
            hi: self.range.1,
            atlas_width: self.atlas_width as nat,
            atlas_height: self.atlas_height as nat,
            chars_per_row: self.chars_per_row as nat,
            rows: self.rows as nat,
            ascent: self.extra_ascent as nat,
            descent: self.extra_descent as nat,
            widths: Seq::new(self.char_widths@.len(), |i: int| self.char_widths@[i] as nat),
        }
    }
}

impl<T> FontSheet<T> {
    #[verifier::type_invariant]
    spec fn inv(&self) -> bool {
        self@.wf()
    }

    /// The texture handle that the sheet carries.
    pub closed spec fn texture_spec(&self) -> &T {
        &self.texture
    }

    /// Builds a sheet. `range` may be given in either order. Each entry of `char_widths` is the
    /// half-margin of one code of the range, in units of `1 / FRAC_ONE` (0 for a glyph that
    /// fills its cell, `FRAC_ONE / 2` for a code that this sheet does not supply); it is stored
    /// as the width `FRAC_ONE - 2 * x`. `atlas_size` is the texture's size in pixels.
    pub fn new(
        range: (char, char),
        texture: T,
        atlas_size: (u16, u16),
        chars_per_row: usize,
        rows: usize,
        extra_ascent: u32,
        extra_descent: u32,
        char_widths: Vec<u32>,
    ) -> (r: Result<FontSheet<T>, FontError>)
        ensures
            ({
                let v = sheet_view_of(
                    range,
                    atlas_size,
                    chars_per_row,
                    rows,
                    extra_ascent,
                    extra_descent,
                    char_widths@,
                );
                &&& (r == Err::<FontSheet<T>, FontError>(FontError::SheetConstructionMismatch)
                    <==> char_widths@.len() != v.count())
                &&& (r == Err::<FontSheet<T>, FontError>(FontError::SheetGeometryMismatch)
                    <==> char_widths@.len() == v.count() && !(v.geometry_ok() && margins_ok(
                    char_widths@)))
                &&& (r is Ok <==> char_widths@.len() == v.count() && v.geometry_ok()
                    && margins_ok(char_widths@))
                &&& r is Ok ==> r->Ok_0@ == v && r->Ok_0.texture_spec() == &texture
            }),
    {
        let ghost v = sheet_view_of(
            range,
            atlas_size,
            chars_per_row,
            rows,
            extra_ascent,
            extra_descent,
            char_widths@,
        );
        let (lo, hi) = ordered(range.0, range.1);
        let count: u32 = code_of(hi) - code_of(lo) + 1;
        if char_widths.len() != count as usize {
            return Err(FontError::SheetConstructionMismatch);
        }
        if chars_per_row == 0 || rows == 0 || rows > atlas_size.1 as usize {
            return Err(FontError::SheetGeometryMismatch);
        }
        assert(chars_per_row * rows <= 0xffff_ffff_ffff_ffff * 0xffff) by (nonlinear_arith)
            requires
                chars_per_row <= 0xffff_ffff_ffff_ffff,
                rows <= 0xffff,
        ;
        if (count as u128) > (chars_per_row as u128) * (rows as u128) || (extra_ascent as u64) + (
        extra_descent as u64) >= FRAC_ONE as u64 {
            return Err(FontError::SheetGeometryMismatch);
        }
        let mut widths: Vec<u32> = Vec::new();
        let mut i: usize = 0;
        while i < char_widths.len()
            invariant
                i <= char_widths@.len(),
                widths@.len() == i,
                char_widths@.len() == v.count(),
                v.geometry_ok(),
                v.lo == lo && v.hi == hi,
                v == sheet_view_of(
                    range,
                    atlas_size,
                    chars_per_row,
                    rows,
                    extra_ascent,
                    extra_descent,
                    char_widths@,
                ),
                forall|j: int| 0 <= j < i ==> 2 * #[trigger] char_widths@[j] <= FRAC_ONE,
                forall|j: int|
                    0 <= j < i ==> #[trigger] widths@[j] as nat == stored_width(char_widths@[j]),
            decreases char_widths@.len() - i,
        {
            let x = char_widths[i];
            if x > FRAC_ONE / 2 {
                assert(2 * char_widths@[i as int] > FRAC_ONE);
                return Err(FontError::SheetGeometryMismatch);
            }
            widths.push(FRAC_ONE - 2 * x);
            i = i + 1;
        }
        let sheet = FontSheet {
            range: (lo, hi),
            texture,
            atlas_width: atlas_size.0,
            atlas_height: atlas_size.1,
            chars_per_row,
            rows,
            extra_ascent,
            extra_descent,
            char_widths: widths,
        };
        assert(sheet@.widths =~= v.widths);
        Ok(sheet)
    }

    /// Width and height in pixels of one cell of the atlas grid.
    pub fn get_char_cell_size(&self) -> (r: (u16, u16))
        ensures
            r.0 == self@.cell_width(),
            r.1 == self@.cell_height(),
    {
        proof {
            use_type_invariant(self);
        }
        (
            (self.atlas_width as usize / self.chars_per_row) as u16,
            (self.atlas_height as usize / self.rows) as u16,
        )
    }

    /// Width of `c` drawn with visible glyph height `h` (see [`SheetView::glyph_width`]).
    pub fn get_char_width(&self, c: char, h: u32) -> (r: Result<u64, FontError>)
        ensures
            self@.in_range(c) ==> r == Ok::<u64, FontError>(self@.glyph_width(c, h as int) as u64),
            self@.in_range(c) ==> 0 <= self@.glyph_width(c, h as int) <= MAX_GLYPH_WIDTH,
            !self@.in_range(c) ==> r == Err::<u64, FontError>(FontError::CharacterNotInSheet),
    {
        proof {
            use_type_invariant(self);
        }
        if c < self.range.0 || c > self.range.1 {
            return Err(FontError::CharacterNotInSheet);
        }
        proof {
            lemma_glyph_width_bound(self@, c, h as int);
            vstd::arithmetic::div_mod::lemma_div_is_ordered_by_denominator(
                self.atlas_width as int,
                1,
                self.chars_per_row as int,
            );
        }
        let index = (code_of(c) - code_of(self.range.0)) as usize;
        let w = self.char_widths[index];
        let cw = (self.atlas_width as usize / self.chars_per_row) as u128;
        assert(cw * w <= 0xffff * 10000) by (nonlinear_arith)
            requires
                cw <= 0xffff,
                w <= 10000,
        ;
        assert(cw * w * h <= 0xffff * 10000 * 0xffff_ffff) by (nonlinear_arith)
            requires
                cw <= 0xffff,
                w <= 10000,
        ;
        assert(self.atlas_height * (FRAC_ONE - self.extra_ascent - self.extra_descent)
            <= 0xffff * 10000) by (nonlinear_arith)
            requires
                self.atlas_height <= 0xffff,
                FRAC_ONE - self.extra_ascent - self.extra_descent <= 10000,
        ;
        assert(self.atlas_height * (FRAC_ONE - self.extra_ascent - self.extra_descent) >= 1)
            by (nonlinear_arith)
            requires
                self.atlas_height >= 1,
                FRAC_ONE - self.extra_ascent - self.extra_descent >= 1,
        ;
        let num = cw * (w as u128) * (h as u128) * (self.rows as u128);
        let den = (self.atlas_height as u128) * ((FRAC_ONE - self.extra_ascent
            - self.extra_descent) as u128);
        Ok((num / den) as u64)
    }

    /// Width and height of the quad drawn for a glyph of visible height `h`.
    pub fn quad_size(&self, h: u32) -> (r: (u64, u64))
        ensures
            r.0 == self@.quad_width(h as int),
            r.1 == self@.quad_height(h as int),
    {
        proof {
            use_type_invariant(self);
            lemma_cell_in_atlas(self@, self.range.0);
        }
        let vis = (FRAC_ONE - self.extra_ascent - self.extra_descent) as u64;
        let cw = (self.atlas_width as usize / self.chars_per_row) as u64;
        let ch = (self.atlas_height as usize / self.rows) as u64;
        assert(cw * h <= 0xffff * 0xffff_ffff) by (nonlinear_arith)
            requires
                cw <= 0xffff,
                h <= 0xffff_ffff,
        ;
        assert(cw * h * 10000 <= 0xffff * 0xffff_ffff * 10000) by (nonlinear_arith)
            requires
                cw * h <= 0xffff * 0xffff_ffff,
        ;
        assert(1 <= ch * vis <= 0xffff * 10000) by (nonlinear_arith)
            requires
                1 <= ch <= 0xffff,
                1 <= vis <= 10000,
        ;
        assert(h * FRAC_ONE <= 0xffff_ffff * 10000);
        let height = (h as u64) * (FRAC_ONE as u64) / vis;
        let width = cw * (h as u64) * (FRAC_ONE as u64) / (ch * vis);
        (width, height)
    }

    /// Vertical shift of a glyph's centre from its baseline (see [`SheetView::ascent_shift`]).
    pub fn ascent_shift(&self, h: u32) -> (r: i128)
        ensures
            r == self@.ascent_shift(h as int),
            -0x1_0000_0000 <= r <= 0x1_0000_0000,
    {
        proof {
            use_type_invariant(self);
        }
        if self.extra_ascent >= self.extra_descent {
            let d = (self.extra_ascent - self.extra_descent) as u64;
            assert(d * h <= 10000 * 0xffff_ffff) by (nonlinear_arith)
                requires
                    d <= 10000,
                    h <= 0xffff_ffff,
            ;
            ((d * (h as u64)) / (FRAC_ONE as u64)) as i128
        } else {
            let d = (self.extra_descent - self.extra_ascent) as u64;
            assert(d * h <= 10000 * 0xffff_ffff) by (nonlinear_arith)
                requires
                    d <= 10000,
                    h <= 0xffff_ffff,
            ;
            -(((d * (h as u64)) / (FRAC_ONE as u64)) as i128)
        }
    }

    /// Column and row of `c`'s cell in the atlas grid.
    pub fn get_pos(&self, c: char) -> (r: (usize, usize))
        requires
            self@.in_range(c),
        ensures
            r.0 == self@.grid_pos(c).0,
            r.1 == self@.grid_pos(c).1,
    {
        proof {
            use_type_invariant(self);
        }
        let index = (code_of(c) - code_of(self.range.0)) as usize;
        (index % self.chars_per_row, index / self.chars_per_row)
    }

    /// The texture handle.
    pub fn texture(&self) -> (r: &T)
        ensures
            r == self.texture_spec(),
    {
        &self.texture
    }
}

/// What a font holds, as plain values.
pub struct FontView {
    /// The sheets, searched in this order.
    pub sheets: Seq<SheetView>,
    /// Distance between baselines, as a multiple of the line height, in units of
    /// `1 / FRAC_ONE`.
    pub leading: nat,
    /// The fallback character; `'\0'` turns fallback off.
    pub tofu: char,
}

/// Index of the first sheet that claims `c`, if any.
pub open spec fn first_claim(sheets: Seq<SheetView>, c: char) -> Option<int>
    decreases sheets.len(),
{
    if sheets.len() == 0 {
        None
    } else {
        match first_claim(sheets.drop_last(), c) {
            Some(i) => Some(i),
            None => if sheets.last().claims(c) {
                Some(sheets.len() - 1)
            } else {
                None
            },
        }
    }
}

impl FontView {
    pub open spec fn wf(self) -> bool {
        forall|i: int| 0 <= i < self.sheets.len() ==> #[trigger] self.sheets[i].wf()
    }

    /// The character drawn for `c` and the index of the sheet that supplies it: `c` itself
    /// where a sheet claims it, else the fallback character where fallback is on, `c` is not
    /// the fallback character itself and a sheet claims the fallback character.
    pub open spec fn resolve(self, c: char) -> Option<(char, int)> {
        match first_claim(self.sheets, c) {
            Some(i) => Some((c, i)),
            None => if self.tofu == '\0' || c == self.tofu {
                None
            } else {
                match first_claim(self.sheets, self.tofu) {
                    Some(i) => Some((self.tofu, i)),
                    None => None,
                }
            },
        }
    }

    /// Width of the glyph drawn for `c` at visible height `h` (meaningful where `c` resolves).
    pub open spec fn char_width(self, c: char, h: int) -> int {
        let (d, i) = self.resolve(c)->Some_0;
        self.sheets[i].glyph_width(d, h)
    }

    /// Every character of `s` resolves.
    pub open spec fn all_resolve(self, s: Seq<char>) -> bool {
        forall|k: int| 0 <= k < s.len() ==> (#[trigger] self.resolve(s[k])) is Some
    }

    /// Sum of the widths of the glyphs drawn for the characters of `s`.
    pub open spec fn width_sum(self, s: Seq<char>, h: int) -> int
        decreases s.len(),
    {
        if s.len() == 0 {
            0
        } else {
            self.width_sum(s.drop_last(), h) + self.char_width(s.last(), h)
        }
    }

    /// Number of lines of `text` as given (see [`lines_of`]); wrap it first to count the
    /// lines that a wrap width would make.
    pub fn calculate_num_lines(&self, text: &str) -> (r: usize)
        ensures
            r == lines_of(text@).len(),
    {
        line_count(text)
    }

    /// Measured width of one line: the sum of its glyphs' widths, where every character
    /// resolves.
    pub open spec fn line_width(self, line: Seq<char>, h: int) -> Option<int> {
        if self.all_resolve(line) {
            Some(self.width_sum(line, h))
        } else {
            None
        }
    }

    /// Largest width among the lines.
    pub open spec fn max_width(self, lines: Seq<Seq<char>>, h: int) -> int
        decreases lines.len(),
    {
        if lines.len() == 0 {
            0
        } else {
            let m = self.max_width(lines.drop_last(), h);
            let w = self.width_sum(lines.last(), h);
            if m >= w {
                m
            } else {
                w
            }
        }
    }

    /// Every character of every line resolves.
    pub open spec fn all_lines_resolve(self, lines: Seq<Seq<char>>) -> bool {
        forall|j: int| 0 <= j < lines.len() ==> self.all_resolve(#[trigger] lines[j])
    }

    /// Greedy wrap of one line: what has been written so far, and the width of its last
    /// piece. Each character is written as the character drawn for it; a line feed goes
    /// before any character that would take the piece past `max_w`, which then starts the
    /// next piece alone.
    pub open spec fn wrap_state(self, s: Seq<char>, max_w: int, h: int) -> (Seq<char>, int)
        decreases s.len(),
    {
        if s.len() == 0 {
            (Seq::empty(), 0)
        } else {
            let (out, w) = self.wrap_state(s.drop_last(), max_w, h);
            let d = self.resolve(s.last())->Some_0.0;
            let cw = self.char_width(s.last(), h);
            if w + cw > max_w {
                (out.push('\n').push(d), cw)
            } else {
                (out.push(d), w + cw)
            }
        }
    }

    /// One line wrapped to `max_w` (see [`FontView::wrap_state`]).
    pub open spec fn wrap_line(self, s: Seq<char>, max_w: int, h: int) -> Seq<char> {
        self.wrap_state(s, max_w, h).0
    }

    /// Each line of `text` wrapped on its own, the lines joined by line feeds; `None` where a
    /// character does not resolve.
    pub open spec fn wrapped(self, text: Seq<char>, max_w: int, h: int) -> Option<Seq<char>> {
        let ls = lines_of(text);
        if self.all_lines_resolve(ls) {
            Some(join_lines(Seq::new(ls.len(), |j: int| self.wrap_line(ls[j], max_w, h))))
        } else {
            None
        }
    }

    /// Distance between two baselines for line height `h`.
    pub open spec fn advance(self, h: int) -> int {
        (h * self.leading) / (FRAC_ONE as int)
    }

    /// The draw command for `c` (where it resolves), with the line's pen at `pen_x` and its
    /// baseline at `base_y`.
    pub open spec fn glyph_draw(self, c: char, pen_x: int, base_y: int, h: int, v: VAlign) -> GlyphDraw {
        let (d, i) = self.resolve(c)->Some_0;
        let s = self.sheets[i];
        let pos = s.grid_pos(d);
        GlyphDraw {
            sheet: i as usize,
            center_x: (pen_x + s.glyph_width(d, h) / 2) as i128,
            center_y: (base_y + valign_shift(v, h) + s.ascent_shift(h)) as i128,
            width: s.quad_width(h) as u64,
            height: s.quad_height(h) as u64,
            src_x: (pos.0 * s.cell_width()) as u32,
            src_y: (pos.1 * s.cell_height()) as u32,
            src_width: s.cell_width() as u32,
            src_height: s.cell_height() as u32,
        }
    }

    /// The draw commands of one line, left to right, each glyph's pen advanced by the widths
    /// of the glyphs before it.
    pub open spec fn line_draws(
        self,
        line: Seq<char>,
        pen_x: int,
        base_y: int,
        h: int,
        v: VAlign,
    ) -> Seq<GlyphDraw>
        decreases line.len(),
    {
        if line.len() == 0 {
            Seq::empty()
        } else {
            self.line_draws(line.drop_last(), pen_x, base_y, h, v).push(
                self.glyph_draw(line.last(), pen_x + self.width_sum(line.drop_last(), h), base_y, h, v),
            )
        }
    }

    /// The draw commands of the lines, top to bottom: the first line's baseline lies at
    /// `y` plus the block offset for `n` lines, each next one one advance lower; each line
    /// starts at `x` plus its alignment offset.
    pub open spec fn text_draws(
        self,
        lines: Seq<Seq<char>>,
        x: int,
        y: int,
        h: int,
        a: Align,
        v: VAlign,
        n: int,
    ) -> Seq<GlyphDraw>
        decreases lines.len(),
    {
        if lines.len() == 0 {
            Seq::empty()
        } else {
            let j = lines.len() - 1;
            let line = lines[j];
            self.text_draws(lines.drop_last(), x, y, h, a, v, n) + self.line_draws(
                line,
                x + align_offset(a, self.width_sum(line, h)),
                y + block_offset(v, h, n) - j * self.advance(h),
                h,
                v,
            )
        }
    }

    /// Everything `draw_text` draws: the text, wrapped first where a width is given, laid
    /// out line by line; `None` where a character does not resolve.
    pub open spec fn layout(
        self,
        text: Seq<char>,
        x: int,
        y: int,
        max_w: Option<u64>,
        h: int,
        a: Align,
        v: VAlign,
    ) -> Option<Seq<GlyphDraw>> {
        let t = match max_w {
            Some(m) => self.wrapped(text, m as int, h),
            None => Some(text),
        };
        match t {
            Some(t) => if self.all_lines_resolve(lines_of(t)) {
                Some(self.text_draws(lines_of(t), x, y, h, a, v, lines_of(t).len() as int))
            } else {
                None
            },
            None => None,
        }
    }

    /// Width of the widest line of `text`, where every character resolves.
    pub open spec fn text_width(self, text: Seq<char>, h: int) -> Option<int> {
        if self.all_lines_resolve(lines_of(text)) {
            Some(self.max_width(lines_of(text), h))
        } else {
            None
        }
    }
}

/// An ordered list of sheets with the layout parameters that apply to all of them.
pub struct Font<T> {
    sheets: Vec<FontSheet<T>>,
    leading: u32,
    tofu_char: char,
}

impl<T> View for Font<T> {
    type V = FontView;

    closed spec fn view(&self) -> FontView {
        FontView {
            sheets: Seq::new(self.sheets@.len(), |i: int| self.sheets@[i]@),
            leading: self.leading as nat,
            tofu: self.tofu_char,
        }
    }
}

impl<T> Font<T> {
    #[verifier::type_invariant]
    spec fn inv(&self) -> bool {
        self@.wf()
    }

    /// Builds a font from its sheets, searched in the order given. `leading` is the distance
    /// between baselines as a multiple of the line height, in units of `1 / FRAC_ONE`;
    /// `tofu_char` stands in for characters that no sheet claims (`'\0'`: none does).
    pub fn new(sheets: Vec<FontSheet<T>>, leading: u32, tofu_char: char) -> (r: Font<T>)
        ensures
            r@.sheets == Seq::new(sheets@.len(), |i: int| sheets@[i]@),
            r@.leading == leading,
            r@.tofu == tofu_char,
    {
        let mut i: usize = 0;
        while i < sheets.len()
            invariant
                i <= sheets@.len(),
                forall|j: int| 0 <= j < i ==> (#[trigger] sheets@[j])@.wf(),
            decreases sheets@.len() - i,
        {
            let s = &sheets[i];
            proof {
                use_type_invariant(s);
            }
            i = i + 1;
        }
        Font { sheets, leading, tofu_char }
    }

    /// Number of sheets.
    pub fn num_sheets(&self) -> (r: usize)
        ensures
            r == self@.sheets.len(),
    {
        self.sheets.len()
    }

    /// The sheet at `index`.
    pub fn sheet(&self, index: usize) -> (r: &FontSheet<T>)
        requires
            index < self@.sheets.len(),
        ensures
            r@ == self@.sheets[index as int],
    {
        &self.sheets[index]
    }

    /// Index of the first sheet that claims `c`.
    pub fn get_sheet(&self, c: char) -> (r: Result<usize, FontError>)
        ensures
            match first_claim(self@.sheets, c) {
                Some(i) => r == Ok::<usize, FontError>(i as usize),
                None => r == Err::<usize, FontError>(FontError::CharacterNotInFont),
            },
    {
        proof {
            use_type_invariant(self);
        }
        let mut i: usize = 0;
        while i < self.sheets.len()
            invariant
                self@.wf(),
                i <= self@.sheets.len(),
                first_claim(self@.sheets.take(i as int), c) is None,
            decreases self@.sheets.len() - i,
        {
            let ghost v = self@.sheets;
            assert(v.take(i + 1).drop_last() == v.take(i as int));
            let sheet = &self.sheets[i];
            proof {
                use_type_invariant(sheet);
            }
            assert(sheet@ == v[i as int]);
            if c >= sheet.range.0 && c <= sheet.range.1 {
                let index = (code_of(c) - code_of(sheet.range.0)) as usize;
                if sheet.char_widths[index] != 0 {
                    proof {
                        lemma_first_claim_prefix(v, c, i as int + 1);
                    }
                    return Ok(i);
                }
            }
            i = i + 1;
        }
        assert(self@.sheets.take(i as int) == self@.sheets);
        Err(FontError::CharacterNotInFont)
    }

    /// Width of the glyph drawn for `c`, and the sheet and character that supply it.
    fn resolved_width(&self, c: char, h: u32) -> (r: Result<(char, usize, u64), FontError>)
        ensures
            match self@.resolve(c) {
                Some((d, i)) => r == Ok::<(char, usize, u64), FontError>(
                    (d, i as usize, self@.char_width(c, h as int) as u64),
                ) && 0 <= self@.char_width(c, h as int) <= MAX_GLYPH_WIDTH && 0 <= i
                    < self@.sheets.len(),
                None => r == Err::<(char, usize, u64), FontError>(FontError::CharacterNotInFont),
            },
    {
        proof {
            use_type_invariant(self);
        }
        match self.get_char_and_sheet(c) {
            Ok((d, i)) => {
                proof {
                    lemma_resolve(self@, c);
                    assert(self.sheets@.len() == self.sheets.len());
                }
                assert(self.sheets@[i as int]@ == self@.sheets[i as int]);
                assert(self@.sheets[i as int].in_range(d));
                match self.sheets[i].get_char_width(d, h) {
                    Ok(w) => {
                        assert(w == self@.char_width(c, h as int));
                        Ok((d, i, w))
                    },
                    Err(e) => Err(e),
                }
            },
            Err(e) => Err(e),
        }
    }

    /// Measured width of one line held as characters.
    fn line_width_of(&self, line: &Vec<char>, h: u32) -> (r: Result<u128, FontError>)
        ensures
            match self@.line_width(line@, h as int) {
                Some(w) => r == Ok::<u128, FontError>(w as u128) && 0 <= w <= line@.len()
                    * MAX_GLYPH_WIDTH,
                None => r == Err::<u128, FontError>(FontError::CharacterNotInFont),
            },
    {
        let mut sum: u128 = 0;
        let mut i: usize = 0;
        while i < line.len()
            invariant
                i <= line@.len(),
                self@.all_resolve(line@.take(i as int)),
                sum == self@.width_sum(line@.take(i as int), h as int),
                sum <= i * MAX_GLYPH_WIDTH,
            decreases line@.len() - i,
        {
            let ghost pre = line@.take(i as int);
            assert(line@.take(i + 1).drop_last() == pre);
            match self.resolved_width(line[i], h) {
                Ok((_d, _si, w)) => {
                    sum = sum + w as u128;
                },
                Err(e) => {
                    assert(self@.resolve(line@[i as int]) is None);
                    return Err(e);
                },
            }
            i = i + 1;
            assert forall|k: int| 0 <= k < i implies (#[trigger] self@.resolve(
                line@.take(i as int)[k],
            )) is Some by {
                if k < i - 1 {
                    assert(line@.take(i as int)[k] == pre[k]);
                }
            }
        }
        assert(line@.take(i as int) == line@);
        Ok(sum)
    }

    /// Number of lines of `text` as given (see [`lines_of`]); wrap it first to count the
    /// lines that a wrap width would make.
    pub fn calculate_num_lines(&self, text: &str) -> (r: usize)
        ensures
            r == lines_of(text@).len(),
    {
        line_count(text)
    }

    /// Measured width of one line: the sum of the widths of its glyphs at visible height `h`,
    /// or `CharacterNotInFont` where one of its characters does not resolve.
    pub fn calculate_line_width(&self, line: &str, h: u32) -> (r: Result<u128, FontError>)
        ensures
            match self@.line_width(line@, h as int) {
                Some(w) => r == Ok::<u128, FontError>(w as u128),
                None => r == Err::<u128, FontError>(FontError::CharacterNotInFont),
            },
    {
        let chars = chars_of(line);
        self.line_width_of(&chars, h)
    }

    /// Width of the widest line of `text` at visible height `h` (0 for the empty text), or
    /// `CharacterNotInFont` where a character of it does not resolve.
    pub fn calculate_text_width(&self, text: &str, h: u32) -> (r: Result<u128, FontError>)
        ensures
            match self@.text_width(text@, h as int) {
                Some(w) => r == Ok::<u128, FontError>(w as u128),
                None => r == Err::<u128, FontError>(FontError::CharacterNotInFont),
            },
    {
        let chars = chars_of(text);
        let lines = split_lines(&chars);
        let ghost ls = lines_of(text@);
        let mut max_width: u128 = 0;
        let mut j: usize = 0;
        while j < lines.len()
            invariant
                j <= lines@.len(),
                lines@.len() == ls.len(),
                ls == lines_of(text@),
                forall|k: int| 0 <= k < lines@.len() ==> #[trigger] lines@[k]@ == ls[k],
                self@.all_lines_resolve(ls.take(j as int)),
                max_width == self@.max_width(ls.take(j as int), h as int),
                max_width <= 0x4000_0000_0000_0000_0000_0000_0000_0000,
            decreases lines@.len() - j,
        {
            let ghost pre = ls.take(j as int);
            assert(ls.take(j + 1).drop_last() == pre);
            assert(ls.take(j + 1).last() == lines@[j as int]@);
            match self.line_width_of(&lines[j], h) {
                Ok(w) => {
                    assert(lines@[j as int]@.len() == lines@[j as int].len());
                    assert(w <= 0x4000_0000_0000_0000_0000_0000_0000_0000) by (nonlinear_arith)
                        requires
                            w <= lines@[j as int]@.len() * MAX_GLYPH_WIDTH,
                            lines@[j as int]@.len() <= usize::MAX,
                    ;
                    if w > max_width {
                        max_width = w;
                    }
                },
                Err(e) => {
                    assert(!self@.all_resolve(ls[j as int]));
                    assert(!self@.all_lines_resolve(ls));
                    assert(ls == lines_of(text@));
                    assert(!self@.all_lines_resolve(lines_of(text@)));
                    assert(self@.text_width(text@, h as int) is None);
                    return Err(e);
                },
            }
            j = j + 1;
            assert forall|k: int| 0 <= k < j implies self@.all_resolve(
                #[trigger] ls.take(j as int)[k],
            ) by {
                if k < j - 1 {
                    assert(ls.take(j as int)[k] == pre[k]);
                }
            }
        }
        assert(ls.take(j as int) == ls);
        Ok(max_width)
    }

    /// Appends `line` wrapped to `max_w` (see [`FontView::wrap_line`]) to `out`.
    fn wrap_line_into(&self, line: &Vec<char>, max_w: u64, h: u32, out: &mut String) -> (r:
        Result<(), FontError>)
        ensures
            self@.all_resolve(line@) ==> r is Ok && final(out)@ == old(out)@ + self@.wrap_line(
                line@,
                max_w as int,
                h as int,
            ),
            !self@.all_resolve(line@) ==> r == Err::<(), FontError>(FontError::CharacterNotInFont),
    {
        let ghost start = out@;
        let mut width: u128 = 0;
        let mut i: usize = 0;
        while i < line.len()
            invariant
                i <= line@.len(),
                self@.all_resolve(line@.take(i as int)),
                width == self@.wrap_state(line@.take(i as int), max_w as int, h as int).1,
                out@ == start + self@.wrap_state(line@.take(i as int), max_w as int, h as int).0,
                width <= max_w || width <= MAX_GLYPH_WIDTH,
            decreases line@.len() - i,
        {
            let ghost pre = line@.take(i as int);
            assert(line@.take(i + 1).drop_last() == pre);
            match self.resolved_width(line[i], h) {
                Ok((d, _si, w)) => {
                    width = width + w as u128;
                    if width > max_w as u128 {
                        push_char(out, '\n');
                        width = w as u128;
                    }
                    push_char(out, d);
                },
                Err(e) => {
                    assert(self@.resolve(line@[i as int]) is None);
                    return Err(e);
                },
            }
            i = i + 1;
            assert forall|k: int| 0 <= k < i implies (#[trigger] self@.resolve(
                line@.take(i as int)[k],
            )) is Some by {
                if k < i - 1 {
                    assert(line@.take(i as int)[k] == pre[k]);
                }
            }
        }
        assert(line@.take(i as int) == line@);
        Ok(())
    }

    /// Wraps `text` so that each line fits in `max_w` at visible height `h` (see
    /// [`FontView::wrapped`]): lines are broken before the character that would overflow,
    /// the existing line breaks are kept, and each character is replaced by the one drawn
    /// for it. A character wider than `max_w` stands on a line of its own.
    pub fn auto_line_split(&self, text: &str, max_w: u64, h: u32) -> (r: Result<
        String,
        FontError,
    >)
        ensures
            match self@.wrapped(text@, max_w as int, h as int) {
                Some(o) => r is Ok && r->Ok_0@ == o,
                None => r == Err::<String, FontError>(FontError::CharacterNotInFont),
            },
    {
        let chars = chars_of(text);
        let lines = split_lines(&chars);
        let ghost ls = lines_of(text@);
        let ghost wl = Seq::new(ls.len(), |j: int| self@.wrap_line(ls[j], max_w as int, h as int));
        let mut out = String::new();
        let mut j: usize = 0;
        while j < lines.len()
            invariant
                j <= lines@.len(),
                lines@.len() == ls.len(),
                ls == lines_of(text@),
                wl == Seq::new(ls.len(), |j: int| self@.wrap_line(ls[j], max_w as int, h as int)),
                forall|k: int| 0 <= k < lines@.len() ==> #[trigger] lines@[k]@ == ls[k],
                self@.all_lines_resolve(ls.take(j as int)),
                out@ == join_lines(wl.take(j as int)),
            decreases lines@.len() - j,
        {
            let ghost pre = ls.take(j as int);
            assert(wl.take(j + 1).drop_last() == wl.take(j as int));
            if j > 0 {
                push_char(&mut out, '\n');
            }
            match self.wrap_line_into(&lines[j], max_w, h, &mut out) {
                Ok(()) => {},
                Err(e) => {
                    assert(!self@.all_resolve(ls[j as int]));
                    assert(!self@.all_lines_resolve(ls));
                    return Err(e);
                },
            }
            j = j + 1;
            assert forall|k: int| 0 <= k < j implies self@.all_resolve(
                #[trigger] ls.take(j as int)[k],
            ) by {
                if k < j - 1 {
                    assert(ls.take(j as int)[k] == pre[k]);
                }
            }
        }
        assert(ls.take(j as int) == ls);
        assert(wl.take(j as int) == wl);
        Ok(out)
    }

    /// Appends the draw commands of one line to `draws`.
    fn draw_line(
        &self,
        line: &Vec<char>,
        pen_x: i128,
        base_y: i128,
        h: u32,
        vert_align: VAlign,
        draws: &mut Vec<GlyphDraw>,
    )
        requires
            self@.all_resolve(line@),
            -0x4000_0000_0000_0000_0000_0000_0000_0000 - 0x1_0000_0000_0000_0000 <= pen_x
                <= 0x1_0000_0000_0000_0000,
            -0x100_0000_0000_0000_0000_0000_0000_0000 <= base_y
                <= 0x100_0000_0000_0000_0000_0000_0000_0000,
        ensures
            final(draws)@ == old(draws)@ + self@.line_draws(
                line@,
                pen_x as int,
                base_y as int,
                h as int,
                vert_align,
            ),
    {
        proof {
            use_type_invariant(self);
        }
        let ghost start = draws@;
        let shift = glyph_shift(vert_align, h);
        let mut prefix: u128 = 0;
        let mut i: usize = 0;
        while i < line.len()
            invariant
                self@.wf(),
                i <= line@.len(),
                self@.all_resolve(line@),
                -0x4000_0000_0000_0000_0000_0000_0000_0000 - 0x1_0000_0000_0000_0000 <= pen_x
                    <= 0x1_0000_0000_0000_0000,
                -0x100_0000_0000_0000_0000_0000_0000_0000 <= base_y
                    <= 0x100_0000_0000_0000_0000_0000_0000_0000,
                shift == valign_shift(vert_align, h as int),
                prefix == self@.width_sum(line@.take(i as int), h as int),
                prefix <= i * MAX_GLYPH_WIDTH,
                draws@ == start + self@.line_draws(
                    line@.take(i as int),
                    pen_x as int,
                    base_y as int,
                    h as int,
                    vert_align,
                ),
            decreases line@.len() - i,
        {
            let ghost pre = line@.take(i as int);
            assert(line@.take(i + 1).drop_last() == pre);
            assert(line@.len() == line.len());
            let c = line[i];
            assert(self@.resolve(line@[i as int]) is Some);
            let (d, si, w) = match self.resolved_width(c, h) {
                Ok(t) => t,
                Err(_) => {
                    assert(false);
                    return;
                },
            };
            let sheet = &self.sheets[si];
            proof {
                use_type_invariant(sheet);
                assert(self.sheets@.len() == self.sheets.len());
                assert(sheet@ == self@.sheets[si as int]);
                lemma_resolve(self@, c);
                assert(self@.resolve(c) == Some((d, si as int)));
                lemma_cell_in_atlas(sheet@, d);
            }
            let (gx, gy) = sheet.get_pos(d);
            let (cw, ch) = sheet.get_char_cell_size();
            let (qw, qh) = sheet.quad_size(h);
            let rise = sheet.ascent_shift(h);
            let src_x = ((gx as u64) * (cw as u64)) as u32;
            let src_y = ((gy as u64) * (ch as u64)) as u32;
            assert(prefix <= 0x4000_0000_0000_0000_0000_0000_0000_0000) by (nonlinear_arith)
                requires
                    prefix <= i * MAX_GLYPH_WIDTH,
                    i <= usize::MAX,
            ;
            let g = GlyphDraw {
                sheet: si,
                center_x: pen_x + prefix as i128 + (w / 2) as i128,
                center_y: base_y + shift + rise,
                width: qw,
                height: qh,
                src_x,
                src_y,
                src_width: cw as u32,
                src_height: ch as u32,
            };
            assert(g == self@.glyph_draw(c, pen_x + self@.width_sum(pre, h as int), base_y as int, h as int, vert_align));
            draws.push(g);
            prefix = prefix + w as u128;
            i = i + 1;
        }
        assert(line@.take(i as int) == line@);
    }

    /// Lays out `text` for drawing: wrapped to `max_w` first where it is given (see
    /// [`Font::auto_line_split`]), then each line aligned by `text_align` against `x` and
    /// the block of lines aligned by `vert_align` against `y`, line height `h`, successive
    /// baselines one advance apart (`h * leading`), y growing upward. Returns one draw
    /// command per glyph in drawing order, or `CharacterNotInFont` where a character does
    /// not resolve, in which case nothing is to be drawn.
    pub fn draw_text(
        &self,
        text: &str,
        x: i64,
        y: i64,
        max_w: Option<u64>,
        h: u32,
        text_align: Align,
        vert_align: VAlign,
    ) -> (r: Result<Vec<GlyphDraw>, FontError>)
        ensures
            match self@.layout(text@, x as int, y as int, max_w, h as int, text_align, vert_align) {
                Some(d) => r is Ok && r->Ok_0@ == d,
                None => r == Err::<Vec<GlyphDraw>, FontError>(FontError::CharacterNotInFont),
            },
    {
        proof {
            use_type_invariant(self);
        }
        let chars = match max_w {
            Some(m) => match self.auto_line_split(text, m, h) {
                Ok(wrapped) => chars_of(wrapped.as_str()),
                Err(e) => {
                    return Err(e);
                },
            },
            None => chars_of(text),
        };
        let lines = split_lines(&chars);
        let ghost ls = lines_of(chars@);
        let n = lines.len();
        let top = vertical_offset(vert_align, h, n);
        assert(h * self.leading <= 0xffff_ffff * 0xffff_ffff) by (nonlinear_arith)
            requires
                h <= 0xffff_ffff,
                self.leading <= 0xffff_ffff,
        ;
        let advance = ((h as u64) * (self.leading as u64) / (FRAC_ONE as u64)) as i128;
        proof {
            vstd::arithmetic::div_mod::lemma_div_is_ordered(
                h * self.leading,
                0x8_0000_0000_0000int * 10000,
                10000,
            );
            vstd::arithmetic::div_mod::lemma_div_by_multiple(0x8_0000_0000_0000, 10000);
        }
        let mut draws: Vec<GlyphDraw> = Vec::new();
        let mut j: usize = 0;
        while j < lines.len()
            invariant
                self@.wf(),
                j <= lines@.len(),
                n == lines@.len(),
                lines@.len() == ls.len(),
                forall|k: int| 0 <= k < lines@.len() ==> #[trigger] lines@[k]@ == ls[k],
                self@.all_lines_resolve(ls.take(j as int)),
                top == block_offset(vert_align, h as int, n as int),
                advance == self@.advance(h as int),
                0 <= advance <= 0x8_0000_0000_0000,
                0 <= top <= 0xffff_ffff * 0xffff_ffff_ffff_ffff,
                ls == lines_of(chars@),
                match max_w {
                    Some(m) => self@.wrapped(text@, m as int, h as int) == Some(chars@),
                    None => chars@ == text@,
                },
                draws@ == self@.text_draws(
                    ls.take(j as int),
                    x as int,
                    y as int,
                    h as int,
                    text_align,
                    vert_align,
                    n as int,
                ),
            decreases lines@.len() - j,
        {
            let ghost pre = ls.take(j as int);
            assert(ls.take(j + 1).drop_last() == pre);
            assert(ls.take(j + 1).last() == lines@[j as int]@);
            let line = &lines[j];
            let w = match self.line_width_of(line, h) {
                Ok(w) => w,
                Err(e) => {
                    assert(!self@.all_resolve(ls[j as int]));
                    assert(!self@.all_lines_resolve(ls));
                    return Err(e);
                },
            };
            assert(line@.len() == line.len());
            assert(w <= 0x4000_0000_0000_0000_0000_0000_0000_0000) by (nonlinear_arith)
                requires
                    w <= line@.len() * MAX_GLYPH_WIDTH,
                    line@.len() <= usize::MAX,
            ;
            let pen_x = x as i128 + horizontal_offset(text_align, w);
            assert(0 <= j * advance <= 0xffff_ffff_ffff_ffff * 0x8_0000_0000_0000) by (nonlinear_arith)
                requires
                    0 <= advance <= 0x8_0000_0000_0000,
                    j <= 0xffff_ffff_ffff_ffff,
            ;
            let base_y = y as i128 + top - (j as i128) * advance;
            self.draw_line(line, pen_x, base_y, h, vert_align, &mut draws);
            j = j + 1;
            assert forall|k: int| 0 <= k < j implies self@.all_resolve(
                #[trigger] ls.take(j as int)[k],
            ) by {
                if k < j - 1 {
                    assert(ls.take(j as int)[k] == pre[k]);
                }
            }
        }
        assert(ls.take(j as int) == ls);
        Ok(draws)
    }

    /// The character drawn for `c` and the index of its sheet (see [`FontView::resolve`]):
    /// one lookup of `c`, then at most one lookup of the fallback character.
    pub fn get_char_and_sheet(&self, c: char) -> (r: Result<(char, usize), FontError>)
        ensures
            match self@.resolve(c) {
                Some((d, i)) => r == Ok::<(char, usize), FontError>((d, i as usize)),
                None => r == Err::<(char, usize), FontError>(FontError::CharacterNotInFont),
            },
    {
        match self.get_sheet(c) {
            Ok(i) => Ok((c, i)),
            Err(e) => {
                if self.tofu_char == '\0' || c == self.tofu_char {
                    Err(e)
                } else {
                    match self.get_sheet(self.tofu_char) {
                        Ok(i) => Ok((self.tofu_char, i)),
                        Err(e) => Err(e),
                    }
                }
            },
        }
    }
}

/// The first sheet claiming `c` claims it, and no sheet before it does.
pub proof fn lemma_first_claim(sheets: Seq<SheetView>, c: char)
    ensures
        match first_claim(sheets, c) {
            Some(i) => 0 <= i < sheets.len() && sheets[i].claims(c) && forall|j: int|
                0 <= j < i ==> !(#[trigger] sheets[j]).claims(c),
            None => forall|j: int| 0 <= j < sheets.len() ==> !(#[trigger] sheets[j]).claims(c),
        },
    decreases sheets.len(),
{
    if sheets.len() > 0 {
        let p = sheets.drop_last();
        lemma_first_claim(p, c);
        assert forall|j: int| 0 <= j < p.len() implies p[j] == sheets[j] by {}
    }
}

/// A resolved character lies in the range of the sheet that supplies it, and resolves to
/// itself.
pub proof fn lemma_resolve(f: FontView, c: char)
    requires
        f.resolve(c) is Some,
    ensures
        0 <= f.resolve(c)->Some_0.1 < f.sheets.len(),
        f.sheets[f.resolve(c)->Some_0.1].claims(f.resolve(c)->Some_0.0),
        f.resolve(f.resolve(c)->Some_0.0) == f.resolve(c),
{
    lemma_first_claim(f.sheets, c);
    lemma_first_claim(f.sheets, f.tofu);
}

/// Where the first sheet claiming `c` lies within the first `k` sheets, it is the first
/// one of all of them.
pub proof fn lemma_first_claim_prefix(sheets: Seq<SheetView>, c: char, k: int)
    requires
        0 <= k <= sheets.len(),
        first_claim(sheets.take(k), c) is Some,
    ensures
        first_claim(sheets, c) == first_claim(sheets.take(k), c),
    decreases sheets.len() - k,
{
    if k < sheets.len() {
        assert(sheets.take(k + 1).drop_last() == sheets.take(k));
        lemma_first_claim_prefix(sheets, c, k + 1);
    } else {
        assert(sheets.take(k) == sheets);
    }
}

} // verus!
