//! A rectangular window into a larger image.

use vstd::prelude::*;
use crate::geometry::{Point, Rectangle, Size};

verus! {

/// A non-owning rectangular view into a parent image: it remembers only
/// where in the parent it sits. Requests against the view are translated
/// into the parent's coordinate space, so one shared glyph atlas can serve
/// as many independent glyph images without copying pixels.
#[derive(Copy, Clone, Debug, PartialEq, Eq, Structural)]
pub struct SubImage {
    /// The window, in the parent image's coordinates.
    pub area: Rectangle,
}

impl SubImage {
    /// Creates a sub image over the given area of its parent. The area is
    /// taken as given: it may reach outside the parent's populated
    /// pixels, in which case the view addresses whatever lies there.
    pub fn new_unchecked(area: Rectangle) -> (r: Self)
        ensures
            r.area == area,
    {
        SubImage { area }
    }

    /// The size of the view itself, not of the parent.
    pub fn size(&self) -> (r: Size)
        ensures
            r == self.area.size,
    {
        self.area.size
    }

    /// The whole view, as the parent-coordinate rectangle a draw of the
    /// full sub image addresses.
    pub fn parent_area(&self) -> (r: Rectangle)
        ensures
            r == self.area,
    {
        self.area
    }

    /// Translates a rectangle given in the view's own coordinates into
    /// the parent's coordinates.
    pub fn translate_to_parent(&self, rect: &Rectangle) -> (r: Rectangle)
        requires
            i32::MIN <= self.area.top_left.x + rect.top_left.x <= i32::MAX,
            i32::MIN <= self.area.top_left.y + rect.top_left.y <= i32::MAX,
        ensures
            r == (Rectangle {
                top_left: Point {
                    x: (self.area.top_left.x + rect.top_left.x) as i32,
                    y: (self.area.top_left.y + rect.top_left.y) as i32,
                },
                size: rect.size,
            }),
    {
        Rectangle {
            top_left: Point {
                x: self.area.top_left.x + rect.top_left.x,
                y: self.area.top_left.y + rect.top_left.y,
            },
            size: rect.size,
        }
    }
}

} // verus!
