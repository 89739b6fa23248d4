//! Text rendering with one or more fixed-cell bitmap fonts.
//!
//! A font is a packed 1-bit-per-pixel glyph atlas together with a glyph
//! mapping that assigns each character a cell in the atlas. A text style
//! groups several such fonts, routes each character to the first font whose
//! mapping claims it, and measures or lays out strings without touching
//! pixels. Drawing is described by a list of plain draw commands that a
//! caller replays onto whatever pixel surface it owns.

use vstd::prelude::*;

mod char_size;
mod draw_target;
mod geometry;
pub mod mapping;
mod multi_mono_text_style;
mod static_text;
mod sub_image;

pub use char_size::CharSize;
pub use draw_target::MultiMonoFontDrawTarget;
pub use geometry::{Point, Rectangle, Size};
pub use multi_mono_text_style::{
    Baseline, DrawCommand, MultiMonoLineHeight, MultiMonoTextStyle, MultiMonoTextStyleBuilder,
    TextMetrics,
};
pub use multi_mono_text_style::{
    is_sentinel_font, lemma_advance_monotone, lemma_advance_nonneg, lemma_font_index_in_range,
    lemma_measure_draw_advance_agree, lemma_text_width_bounds, spec_baseline_offset,
    spec_char_advance, spec_font_find, spec_font_index, spec_line_height, spec_max_baseline_offset,
    spec_max_height, spec_min_height, spec_text_height, spec_text_width, spec_total_advance,
};
pub use static_text::{Alignment, StaticText};
pub use static_text::{
    div2_trunc, lemma_lines_nonempty, lemma_lines_prefix_count, lemma_lines_prefix_stable,
    spec_lines, strip_cr,
};
pub use sub_image::SubImage;

use mapping::StrGlyphMapping;

verus! {

/// The unit for glyph cell sizes, spacings and baselines.
pub type ChSzTy = u8;

/// Monospaced bitmap font: a packed glyph atlas with fixed-size cells and
/// the mapping that assigns each character its cell.
#[derive(Debug)]
pub struct MultiMonoFont {
    /// Raw image data containing the font: a row-major, 1-bit-per-pixel
    /// bitmap, already decoded by the caller.
    pub image_data: Vec<u8>,

    /// The pixel width of the atlas image.
    pub image_width: u32,

    /// Size of a single character in pixels.
    pub character_size: CharSize,

    /// Spacing between characters.
    ///
    /// The spacing defines how many empty pixels are added horizontally
    /// between adjacent characters on a single line of text.
    pub character_spacing: ChSzTy,

    /// The baseline.
    ///
    /// Offset from the top of the glyph bounding box to the baseline.
    pub baseline: ChSzTy,

    /// Glyph mapping.
    pub glyph_mapping: StrGlyphMapping,
}

impl MultiMonoFont {
    /// One more than the largest glyph slot the font's mapping can
    /// report.
    pub open spec fn slot_bound(self) -> int {
        let e = self.glyph_mapping.char_seq().len() as int;
        let r = self.glyph_mapping.spec_replacement() + 1;
        if e > r {
            e
        } else {
            r
        }
    }

    /// Machine-size conditions under which every glyph cell coordinate
    /// the font can produce fits the pixel grid.
    pub open spec fn wf(self) -> bool {
        &&& self.image_width as int <= i32::MAX as int
        &&& self.slot_bound() <= u32::MAX as int
        &&& self.slot_bound() * (self.character_size.height as int) <= i32::MAX as int
    }

    /// The atlas rectangle that holds the glyph cell for `c`: cells are
    /// packed row-major, `image_width / cell_width` cells to a row, in
    /// slot order. A font whose cell width is zero or wider than the
    /// atlas yields the zero-area rectangle at the origin for every
    /// character.
    pub open spec fn spec_glyph_area(self, c: char) -> Rectangle {
        let w = self.character_size.width as int;
        let h = self.character_size.height as int;
        if w == 0 || (self.image_width as int) < w {
            Rectangle {
                top_left: Point { x: 0, y: 0 },
                size: Size { width: 0, height: 0 },
            }
        } else {
            let gpr = self.image_width as int / w;
            let gi = self.glyph_mapping.spec_index(c);
            let row = gi / gpr;
            let col = gi - row * gpr;
            Rectangle {
                top_left: Point { x: (col * w) as i32, y: (row * h) as i32 },
                size: Size { width: w as u32, height: h as u32 },
            }
        }
    }

    /// Returns a subimage for a glyph.
    ///
    /// The rectangle is not checked against the atlas's populated rows: a
    /// slot beyond them addresses pixels outside the real data, which is
    /// the caller's responsibility.
    pub fn glyph(&self, c: char) -> (r: SubImage)
        requires
            self.wf(),
        ensures
            r.area == self.spec_glyph_area(c),
    {
        let w = self.character_size.width as u32;
        if w == 0 || self.image_width < w {
            return SubImage::new_unchecked(Rectangle::zero());
        }
        let glyphs_per_row = self.image_width / w;
        let ghost gpr = glyphs_per_row as int;
        let ghost iw = self.image_width as int;
        let ghost wi = w as int;
        let ghost hi = self.character_size.height as int;
        proof {
            mapping::lemma_index_within_bound(self.glyph_mapping, c);
            vstd::arithmetic::div_mod::lemma_div_non_zero(iw, wi);
        }
        let glyph_index = self.glyph_mapping.index(c) as u32;
        let row = glyph_index / glyphs_per_row;
        let ghost gi = glyph_index as int;
        proof {
            vstd::arithmetic::div_mod::lemma_fundamental_div_mod(gi, gpr);
            vstd::arithmetic::div_mod::lemma_mod_bound(gi, gpr);
            vstd::arithmetic::div_mod::lemma_fundamental_div_mod(iw, wi);
            vstd::arithmetic::div_mod::lemma_mod_bound(iw, wi);
            // the row index never exceeds the slot index
            vstd::arithmetic::mul::lemma_mul_inequality(1, gpr, row as int);
            // the cell's x offset stays inside the atlas width
            vstd::arithmetic::mul::lemma_mul_inequality(gi - row as int * gpr, gpr - 1, wi);
            assert((gpr - 1) * wi == gpr * wi - wi) by (nonlinear_arith);
            assert(gpr * wi <= iw);
            assert((gi - row as int * gpr) * wi <= iw - wi);
            // the cell's y offset stays below the well-formedness bound
            vstd::arithmetic::mul::lemma_mul_inequality(row as int, self.slot_bound() - 1, hi);
            vstd::arithmetic::mul::lemma_mul_inequality(
                self.slot_bound() - 1,
                self.slot_bound(),
                hi,
            );
        }
        let char_x = (glyph_index - row * glyphs_per_row) * w;
        let char_y = row * self.character_size.height as u32;
        SubImage::new_unchecked(
            Rectangle::new(Point::new(char_x as i32, char_y as i32), self.character_size.size()),
        )
    }

    /// Do two fonts hold the same atlas, geometry and mapping?
    pub open spec fn eqv(self, other: Self) -> bool {
        &&& other.image_data@ == self.image_data@
        &&& other.image_width == self.image_width
        &&& other.character_size == self.character_size
        &&& other.character_spacing == self.character_spacing
        &&& other.baseline == self.baseline
        &&& other.glyph_mapping.spec_data() == self.glyph_mapping.spec_data()
        &&& other.glyph_mapping.spec_replacement() == self.glyph_mapping.spec_replacement()
    }

    /// Creates a copy with the same atlas, geometry and mapping.
    pub fn clone_font(&self) -> (r: Self)
        ensures
            self.eqv(r),
    {
        MultiMonoFont {
            image_data: vstd::slice::slice_to_vec(self.image_data.as_slice()),
            image_width: self.image_width,
            character_size: self.character_size,
            character_spacing: self.character_spacing,
            baseline: self.baseline,
            glyph_mapping: self.glyph_mapping.clone(),
        }
    }
}

/// The zero-sized sentinel font that stands in for an empty font list: an
/// empty atlas of nominal width one, zero-sized cells, and a mapping that
/// claims nothing.
pub fn null_font() -> (r: MultiMonoFont)
    ensures
        r.wf(),
        r.image_data@.len() == 0,
        r.image_width == 1u32,
        r.character_size == (CharSize { width: 0 as ChSzTy, height: 0 as ChSzTy }),
        r.character_spacing == 0 as ChSzTy,
        r.baseline == 0 as ChSzTy,
        r.glyph_mapping.char_seq().len() == 0,
        r.glyph_mapping.spec_replacement() == 0,
{
    let mapping = StrGlyphMapping::new("", 0);
    proof {
        reveal_strlit("");
        assert(mapping.spec_data().len() == 0);
        assert(mapping.segments() =~= Seq::<(char, char)>::empty());
        assert(mapping.char_seq().len() == 0);
    }
    MultiMonoFont {
        image_data: Vec::new(),
        image_width: 1,
        character_size: CharSize::zero(),
        character_spacing: 0,
        baseline: 0,
        glyph_mapping: mapping,
    }
}

} // verus!
