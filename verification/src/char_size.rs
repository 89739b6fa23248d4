//! The size of one glyph cell, in the font's own small unsigned unit.

use vstd::prelude::*;
use crate::geometry::Size;
use crate::ChSzTy;

verus! {

/// The width and height of a single glyph cell.
///
/// A zero width or height is a valid sentinel for an empty cell.
#[derive(Copy, Clone, Debug, PartialEq, Eq, Structural, Hash)]
pub struct CharSize {
    /// The width.
    pub width: ChSzTy,

    /// The height.
    pub height: ChSzTy,
}

impl CharSize {
    /// Creates a size from a width and a height.
    pub fn new(width: ChSzTy, height: ChSzTy) -> (r: Self)
        ensures
            r == (CharSize { width, height }),
    {
        CharSize { width, height }
    }

    /// Creates a size with width and height set to an equal value.
    pub fn new_equal(value: ChSzTy) -> (r: Self)
        ensures
            r == (CharSize { width: value, height: value }),
    {
        CharSize { width: value, height: value }
    }

    /// Creates a size with width and height equal to zero.
    pub fn zero() -> (r: Self)
        ensures
            r == (CharSize { width: 0 as ChSzTy, height: 0 as ChSzTy }),
    {
        CharSize { width: 0, height: 0 }
    }

    /// The cell size widened to pixel-grid units.
    pub fn size(&self) -> (r: Size)
        ensures
            r == (Size { width: self.width as u32, height: self.height as u32 }),
    {
        Size { width: self.width as u32, height: self.height as u32 }
    }
}

} // verus!
