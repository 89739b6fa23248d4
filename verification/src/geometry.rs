//! Plain integer geometry: positions, sizes and rectangles on the pixel grid.

use vstd::prelude::*;

verus! {

/// A position on the pixel grid, in signed pixel coordinates.
#[derive(Copy, Clone, Debug, PartialEq, Eq, Structural, Hash)]
pub struct Point {
    /// Horizontal coordinate, growing to the right.
    pub x: i32,
    /// Vertical coordinate, growing downwards.
    pub y: i32,
}

impl Point {
    /// Creates a point from its two coordinates.
    pub fn new(x: i32, y: i32) -> (r: Point)
        ensures
            r == (Point { x, y }),
    {
        Point { x, y }
    }

    /// The origin.
    pub fn zero() -> (r: Point)
        ensures
            r == (Point { x: 0i32, y: 0i32 }),
    {
        Point { x: 0, y: 0 }
    }
}

/// The extent of a rectangular region, in whole pixels.
#[derive(Copy, Clone, Debug, PartialEq, Eq, Structural, Hash)]
pub struct Size {
    /// Horizontal extent.
    pub width: u32,
    /// Vertical extent.
    pub height: u32,
}

impl Size {
    /// Creates a size from a width and a height.
    pub fn new(width: u32, height: u32) -> (r: Size)
        ensures
            r == (Size { width, height }),
    {
        Size { width, height }
    }

    /// The empty size.
    pub fn zero() -> (r: Size)
        ensures
            r == (Size { width: 0u32, height: 0u32 }),
    {
        Size { width: 0, height: 0 }
    }
}

/// An axis-aligned rectangle, given by its top-left corner and its size.
#[derive(Copy, Clone, Debug, PartialEq, Eq, Structural, Hash)]
pub struct Rectangle {
    /// The corner with the smallest coordinates.
    pub top_left: Point,
    /// The extent of the rectangle.
    pub size: Size,
}

impl Rectangle {
    /// Creates a rectangle from its top-left corner and its size.
    pub fn new(top_left: Point, size: Size) -> (r: Rectangle)
        ensures
            r == (Rectangle { top_left, size }),
    {
        Rectangle { top_left, size }
    }

    /// The zero-area rectangle at the origin.
    pub fn zero() -> (r: Rectangle)
        ensures
            r == spec_rect(0, 0, 0, 0),
    {
        Rectangle { top_left: Point { x: 0, y: 0 }, size: Size { width: 0, height: 0 } }
    }
}

/// The rectangle with corner `(x, y)` and size `w` by `h`.
pub open spec fn spec_rect(x: int, y: int, w: int, h: int) -> Rectangle {
    Rectangle {
        top_left: Point { x: x as i32, y: y as i32 },
        size: Size { width: w as u32, height: h as u32 },
    }
}

} // verus!
