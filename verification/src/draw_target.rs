//! Binary-to-color composition rules for glyph drawing.

use vstd::prelude::*;

verus! {

/// The color contract of a glyph compositor: it re-exposes a colored
/// surface as an on/off surface. On pixels take the text color, off
/// pixels the background color; a missing color means the pixel is left
/// untouched, which is what realizes transparency. A configuration with
/// both colors absent is short-circuited before any drawing and never
/// composites.
///
/// The adapter does not alter the addressable area of the surface it
/// stands for, and a whole-surface clear through it is not a meaningful
/// operation: a caller replaying draw steps must fail loudly on such a
/// request rather than ignore it.
#[derive(Copy, Clone, Debug)]
pub struct MultiMonoFontDrawTarget<C> {
    text_color: Option<C>,
    background_color: Option<C>,
}

impl<C> MultiMonoFontDrawTarget<C> {
    /// The color on pixels take.
    pub closed spec fn spec_text_color(self) -> Option<C> {
        self.text_color
    }

    /// The color off pixels take.
    pub closed spec fn spec_background_color(self) -> Option<C> {
        self.background_color
    }

    /// Creates the composition rules for one text and one background
    /// color, either of which may be absent.
    pub fn new(text_color: Option<C>, background_color: Option<C>) -> (r: Self)
        ensures
            r.spec_text_color() == text_color,
            r.spec_background_color() == background_color,
    {
        MultiMonoFontDrawTarget { text_color, background_color }
    }
}

impl<C: Copy> MultiMonoFontDrawTarget<C> {
    /// The color a solid on/off rectangle fill forwards: the text color
    /// for on, the background color for off, and nothing — a no-op —
    /// where the wanted color is absent.
    pub fn solid_fill_color(&self, color_on: bool) -> (r: Option<C>)
        ensures
            r == (if color_on {
                self.spec_text_color()
            } else {
                self.spec_background_color()
            }),
    {
        if color_on {
            self.text_color
        } else {
            self.background_color
        }
    }

    /// The color one forwarded pixel takes: the text color for an on
    /// pixel, the background color for an off pixel. A pixel whose
    /// color is absent is dropped from the forwarded stream entirely,
    /// never emitted with a placeholder.
    pub fn pixel_color(&self, color_on: bool) -> (r: Option<C>)
        ensures
            r == (if color_on {
                self.spec_text_color()
            } else {
                self.spec_background_color()
            }),
    {
        if color_on {
            self.text_color
        } else {
            self.background_color
        }
    }
}

} // verus!
