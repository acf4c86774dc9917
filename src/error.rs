//! Errors of sheet construction and text layout.

use vstd::prelude::*;

verus! {

/// What can go wrong when building a sheet or laying out text.
#[derive(Clone, Copy, Debug, PartialEq, Eq, Structural)]
pub enum FontError {
    /// The number of character widths differs from the number of codes in the sheet's range.
    SheetConstructionMismatch,
    /// The sheet's grid or margins cannot address its glyphs: an empty grid, a grid with fewer
    /// cells than codes, more rows than the atlas has pixels, ascent and descent that leave no
    /// visible glyph, or a half-margin over one half.
    SheetGeometryMismatch,
    /// A code outside the sheet's range was looked up in it.
    CharacterNotInSheet,
    /// No sheet claims the code, and the fallback character cannot stand in for it.
    CharacterNotInFont,
}

} // verus!
